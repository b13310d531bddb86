//! Trust anchors: certificates that are trusted beside the public ones, and
//! never instead of them.

use crate::text;
use tokio_rustls::rustls::RootCertStore;
use vstd::prelude::*;

verus! {

/// A store of trust anchors of `rustls`.
#[verifier::external_type_specification]
#[verifier::external_body]
pub struct ExternalStore(tokio_rustls::rustls::RootCertStore);

/// The anchors that a store holds, in order, each as the DER of its subject,
/// its key and its name constraints.
pub uninterp spec fn anchors(store: &RootCertStore) -> Seq<Seq<u8>>;

/// The anchor that a certificate makes, `None` where it can make none.
pub uninterp spec fn anchor_in(der: Seq<u8>) -> Option<Seq<u8>>;

/// Whether these are the public anchors that `webpki-roots` ships, in order.
pub uninterp spec fn is_public(all: Seq<Seq<u8>>) -> bool;

/// The certificates that a PEM text holds, or why it cannot be read.
pub uninterp spec fn certificates_in(pem: Seq<u8>) -> Result<Seq<Seq<u8>>, Seq<char>>;

/// The byte strings of a sequence, as mathematics.
pub open spec fn blobs(v: Seq<Vec<u8>>) -> Seq<Seq<u8>> {
    v.map_values(|b: Vec<u8>| b@)
}

/// The anchors that certificates make, in order.
pub open spec fn usable(ders: Seq<Seq<u8>>) -> Seq<Seq<u8>>
    decreases ders.len(),
{
    if ders.len() == 0 {
        Seq::empty()
    } else {
        match anchor_in(ders.last()) {
            Some(a) => usable(ders.drop_last()).push(a),
            None => usable(ders.drop_last()),
        }
    }
}

/// `RootCertStore::empty` makes a store that holds nothing.
pub assume_specification[ RootCertStore::empty ]() -> (r: RootCertStore)
    ensures
        anchors(&r) == Seq::<Seq<u8>>::empty(),
;

/// `RootCertStore::add_parsable_certificates` on one certificate: it appends
/// the anchor that the certificate makes and counts one passed over where it
/// makes none. Which anchor that is depends on the bytes alone.
#[verifier::external_body]
fn add_certificate(store: &mut RootCertStore, der: &[u8]) -> (ignored: usize)
    ensures
        ignored == (if anchor_in(der@) is Some {
            0int
        } else {
            1
        }),
        anchors(final(store)) == (match anchor_in(der@) {
            Some(a) => anchors(old(store)).push(a),
            None => anchors(old(store)),
        }),
{
    store.add_parsable_certificates([tokio_rustls::rustls::pki_types::CertificateDer::from(der)]).1
}

/// Appends the anchors of the certificates that make one, in order, and
/// counts those that make none.
fn add_certificates(store: &mut RootCertStore, ders: &Vec<Vec<u8>>) -> (r: usize)
    ensures
        anchors(final(store)) == anchors(old(store)) + usable(blobs(ders@)),
        r + usable(blobs(ders@)).len() == ders@.len(),
{
    let ghost all = blobs(ders@);
    let ghost given = anchors(store);
    let mut ignored: usize = 0;
    let mut i: usize = 0;
    assert(all.subrange(0, all.len() as int) =~= all);
    assert(given + usable(all.subrange(0, 0)) =~= given);
    while i < ders.len()
        invariant
            i <= ders.len(),
            ignored <= i,
            all == blobs(ders@),
            all.subrange(0, all.len() as int) == all,
            anchors(store) == given + usable(all.subrange(0, i as int)),
            ignored + usable(all.subrange(0, i as int)).len() == i,
        decreases ders.len() - i,
    {
        let ghost now = all.subrange(0, i + 1);
        assert(now.drop_last() =~= all.subrange(0, i as int));
        assert(now.last() == ders@[i as int]@);
        ignored = ignored + add_certificate(store, ders[i].as_slice());
        assert(anchors(store) =~= given + usable(now));
        i = i + 1;
    }
    ignored
}

/// A store of the public anchors, `webpki_roots::TLS_SERVER_ROOTS`.
#[verifier::external_body]
fn public_store() -> (r: RootCertStore)
    ensures
        is_public(anchors(&r)),
{
    RootCertStore { roots: webpki_roots::TLS_SERVER_ROOTS.to_vec() }
}

/// `CertificateDer::pem_slice_iter` on the text, to the end or to its first
/// error. What it reads depends on the text alone.
#[verifier::external_body]
fn read_certificates(pem: &[u8]) -> (r: Result<Vec<Vec<u8>>, String>)
    ensures
        match certificates_in(pem@) {
            Ok(all) => r matches Ok(v) && blobs(v@) == all,
            Err(what) => r matches Err(why) && why@ == what,
        },
{
    tokio_rustls::rustls::pki_types::pem::PemObject::pem_slice_iter(pem)
        .map(|c| c.map(|c: tokio_rustls::rustls::pki_types::CertificateDer<'static>| c.to_vec()))
        .collect::<Result<Vec<Vec<u8>>, _>>()
        .map_err(|e| e.to_string())
}

/// A file of certificates: its name, and what reading it came to.
#[derive(Debug)]
pub struct PemFile {
    pub name: String,
    pub read: Result<Vec<u8>, String>,
}

/// A refusal that names the key or flag, and the file.
pub open spec fn refusal(key: Seq<char>, name: Seq<char>, why: Seq<char>) -> Seq<char> {
    key + " '"@ + name + "': "@ + why
}

/// What the certificates of one file come to: each has to be usable as an
/// anchor, and there has to be one.
pub open spec fn judged(
    key: Seq<char>,
    name: Seq<char>,
    certificates: Result<Seq<Seq<u8>>, Seq<char>>,
) -> Result<Seq<Seq<u8>>, Seq<char>> {
    match certificates {
        Err(why) => Err(refusal(key, name, why)),
        Ok(all) => if all.len() == 0 {
            Err(refusal(key, name, "no certificate in it"@))
        } else if usable(all).len() < all.len() {
            Err(
                refusal(
                    key,
                    name,
                    text::dec((all.len() - usable(all).len()) as nat)
                        + " certificate(s) are not usable as trust anchors"@,
                ),
            )
        } else {
            Ok(all)
        },
    }
}

/// What one file comes to.
pub open spec fn loaded_file(key: Seq<char>, file: PemFile) -> Result<Seq<Seq<u8>>, Seq<char>> {
    judged(
        key,
        file.name@,
        match file.read {
            Err(why) => Err(why@),
            Ok(pem) => certificates_in(pem@),
        },
    )
}

/// What the files come to: all their certificates in order, or the refusal
/// of the first file that is refused.
pub open spec fn loaded(key: Seq<char>, files: Seq<PemFile>) -> Result<Seq<Seq<u8>>, Seq<char>>
    decreases files.len(),
{
    if files.len() == 0 {
        Ok(Seq::empty())
    } else {
        match loaded(key, files.drop_last()) {
            Err(why) => Err(why),
            Ok(so_far) => match loaded_file(key, files.last()) {
                Err(why) => Err(why),
                Ok(more) => Ok(so_far + more),
            },
        }
    }
}

/// A result as mathematics.
pub open spec fn result(r: Result<Vec<Vec<u8>>, String>) -> Result<Seq<Seq<u8>>, Seq<char>> {
    match r {
        Ok(v) => Ok(blobs(v@)),
        Err(why) => Err(why@),
    }
}

/// Judges the certificates of one file.
pub fn judge(key: &str, name: &str, certificates: Result<Vec<Vec<u8>>, String>) -> (r: Result<
    Vec<Vec<u8>>,
    String,
>)
    ensures
        result(r) == judged(key@, name@, result(certificates)),
{
    let all = match certificates {
        Ok(v) => v,
        Err(why) => return Err(text::join5(key, " '", name, "': ", why.as_str())),
    };
    if all.len() == 0 {
        return Err(text::join5(key, " '", name, "': ", "no certificate in it"));
    }
    let mut probe = RootCertStore::empty();
    let ignored: usize = add_certificates(&mut probe, &all);
    if ignored > 0 {
        let why = text::join2(
            text::decimal(ignored as u64).as_str(),
            " certificate(s) are not usable as trust anchors",
        );
        return Err(text::join5(key, " '", name, "': ", why.as_str()));
    }
    Ok(all)
}

/// Reads the certificates that `--extra-root` names, before anything is
/// dialed.
pub fn load_roots(files: &Vec<PemFile>) -> (r: Result<Vec<Vec<u8>>, String>)
    ensures
        result(r) == loaded("--extra-root"@, files@),
{
    load_roots_named("--extra-root", files)
}

/// Reads the certificates of files that `key` names.
pub fn load_roots_named(key: &str, files: &Vec<PemFile>) -> (r: Result<Vec<Vec<u8>>, String>)
    ensures
        result(r) == loaded(key@, files@),
{
    let mut out: Vec<Vec<u8>> = Vec::new();
    let mut i: usize = 0;
    assert(blobs(out@) =~= Seq::empty());
    assert(files@.subrange(0, files@.len() as int) =~= files@);
    while i < files.len()
        invariant
            i <= files.len(),
            loaded(key@, files@.subrange(0, i as int)) == Ok::<Seq<Seq<u8>>, Seq<char>>(
                blobs(out@),
            ),
            files@.subrange(0, files@.len() as int) == files@,
        decreases files.len() - i,
    {
        let ghost now = files@.subrange(0, i + 1);
        assert(now.drop_last() =~= files@.subrange(0, i as int));
        assert(now.last() == files@[i as int]);
        let read: Result<Vec<Vec<u8>>, String> = match &files[i].read {
            Ok(pem) => read_certificates(pem.as_slice()),
            Err(why) => Err(why.clone()),
        };
        match judge(key, files[i].name.as_str(), read) {
            Err(why) => {
                proof {
                    refused_stays_refused(key@, files@, i + 1);
                }
                return Err(why);
            },
            Ok(mut more) => {
                let ghost had = blobs(out@);
                let ghost new = blobs(more@);
                out.append(&mut more);
                assert(blobs(out@) =~= had + new);
            },
        }
        i = i + 1;
    }
    Ok(out)
}

proof fn refused_stays_refused(key: Seq<char>, files: Seq<PemFile>, n: int)
    requires
        0 <= n <= files.len(),
        loaded(key, files.subrange(0, n)) is Err,
    ensures
        loaded(key, files) == loaded(key, files.subrange(0, n)),
    decreases files.len(),
{
    if n == files.len() {
        assert(files.subrange(0, n) =~= files);
    } else {
        assert(files.drop_last().subrange(0, n) =~= files.subrange(0, n));
        refused_stays_refused(key, files.drop_last(), n);
    }
}

/// The public anchors, and those of `extra` behind them.
pub fn store(extra: &Vec<Vec<u8>>) -> (r: RootCertStore)
    ensures
        exists|public: Seq<Seq<u8>>|
            #[trigger] is_public(public) && anchors(&r) == public + usable(blobs(extra@)),
{
    let mut store = public_store();
    let ghost public = anchors(&store);
    let _ignored: usize = add_certificates(&mut store, extra);
    assert(is_public(public));
    store
}

// ---- laws ----

/// Every certificate that was loaded is trusted: of what the loader accepts,
/// the store passes nothing over.
pub proof fn what_loads_is_usable(key: Seq<char>, files: Seq<PemFile>)
    ensures
        loaded(key, files) matches Ok(all) ==> usable(all).len() == all.len(),
    decreases files.len(),
{
    if files.len() > 0 {
        what_loads_is_usable(key, files.drop_last());
        if let Ok(so_far) = loaded(key, files.drop_last()) {
            if let Ok(more) = loaded_file(key, files.last()) {
                usable_fits(more);
                usable_joins(so_far, more);
            }
        }
    }
}

proof fn usable_fits(a: Seq<Seq<u8>>)
    ensures
        usable(a).len() <= a.len(),
    decreases a.len(),
{
    if a.len() > 0 {
        usable_fits(a.drop_last());
    }
}

proof fn usable_joins(a: Seq<Seq<u8>>, b: Seq<Seq<u8>>)
    ensures
        usable(a + b) == usable(a) + usable(b),
    decreases b.len(),
{
    if b.len() == 0 {
        assert(a + b =~= a);
        assert(usable(a) + usable(b) =~= usable(a));
    } else {
        assert((a + b).drop_last() =~= a + b.drop_last());
        usable_joins(a, b.drop_last());
        assert(usable(a + b) =~= usable(a) + usable(b));
    }
}

/// A file is loaded whole or not at all: it has to hold a certificate, and
/// each of them has to make an anchor.
pub proof fn a_file_is_loaded_whole_or_not(
    key: Seq<char>,
    name: Seq<char>,
    certificates: Result<Seq<Seq<u8>>, Seq<char>>,
)
    ensures
        judged(key, name, certificates) is Ok <==> certificates is Ok && certificates->Ok_0.len()
            > 0 && forall|i: int|
            0 <= i < certificates->Ok_0.len() ==> anchor_in(
                #[trigger] certificates->Ok_0[i],
            ) is Some,
        judged(key, name, certificates) matches Ok(all) ==> certificates == Ok::<
            Seq<Seq<u8>>,
            Seq<char>,
        >(all),
        certificates matches Err(why) ==> judged(key, name, certificates) == Err::<
            Seq<Seq<u8>>,
            Seq<char>,
        >(key + " '"@ + name + "': "@ + why),
{
    if let Ok(all) = certificates {
        usable_where_all_are(all);
    }
}

proof fn usable_where_all_are(ders: Seq<Seq<u8>>)
    ensures
        usable(ders).len() <= ders.len(),
        usable(ders).len() == ders.len() <==> forall|i: int|
            0 <= i < ders.len() ==> anchor_in(#[trigger] ders[i]) is Some,
    decreases ders.len(),
{
    if ders.len() > 0 {
        let less = ders.drop_last();
        usable_where_all_are(less);
        assert(forall|i: int| 0 <= i < less.len() ==> (#[trigger] less[i]) == ders[i]);
        assert(forall|i: int| 0 <= i < less.len() ==> less[i] == (#[trigger] ders[i]));
        assert(ders[ders.len() - 1] == ders.last());
    }
}

/// The certificates of several files are those of each, in order, and the
/// first file that is refused refuses them all.
pub proof fn files_are_loaded_in_order(key: Seq<char>, files: Seq<PemFile>, one: PemFile)
    ensures
        loaded(key, Seq::empty()) == Ok::<Seq<Seq<u8>>, Seq<char>>(Seq::empty()),
        loaded(key, files.push(one)) == (match (loaded(key, files), loaded_file(key, one)) {
            (Err(why), _) => Err(why),
            (Ok(_), Err(why)) => Err(why),
            (Ok(a), Ok(b)) => Ok(a + b),
        }),
{
    assert(files.push(one).drop_last() =~= files);
}

/// The anchors of certificates are exactly those that they make, in order.
pub proof fn certificates_make_their_anchors(ders: Seq<Seq<u8>>, one: Seq<u8>)
    ensures
        usable(Seq::empty()) == Seq::<Seq<u8>>::empty(),
        anchor_in(one) matches Some(a) ==> usable(ders.push(one)) == usable(ders).push(a),
        anchor_in(one) is None ==> usable(ders.push(one)) == usable(ders),
{
    assert(ders.push(one).drop_last() =~= ders);
}

/// A refusal names the key and the file, and says whether the file could not
/// be read, holds no certificate, or how many of its certificates cannot be
/// used.
pub proof fn a_refusal_names_the_file(
    key: Seq<char>,
    name: Seq<char>,
    all: Seq<Seq<u8>>,
    why: Seq<char>,
)
    ensures
        judged(key, name, Err(why)) == Err::<Seq<Seq<u8>>, Seq<char>>(
            key + " '"@ + name + "': "@ + why,
        ),
        judged(key, name, Ok(Seq::empty())) == Err::<Seq<Seq<u8>>, Seq<char>>(
            key + " '"@ + name + "': "@ + "no certificate in it"@,
        ),
        all.len() > 0 && usable(all).len() < all.len() ==> judged(key, name, Ok(all)) == Err::<
            Seq<Seq<u8>>,
            Seq<char>,
        >(
            key + " '"@ + name + "': "@ + (text::dec((all.len() - usable(all).len()) as nat)
                + " certificate(s) are not usable as trust anchors"@),
        ),
{
}

} // verus!
