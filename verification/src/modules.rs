//! The modules beside a program: which files are modules and what they are
//! called, and the one chunk that carries them together with the program.

use crate::paths;
use crate::text;
use crate::tree;
use crate::tree::{Item, ItemView, Node, NodeView};
use vstd::prelude::*;

verus! {

/// The most modules that one node carries.
pub const MAX_MODULES: usize = 1_000;

/// The most module source that one node carries, in bytes.
pub const MAX_BYTES: u64 = 16_777_216;

/// The name that the generated chunk is loaded under.
pub const BOOTSTRAP_NAME: &'static str = "=drt:modules";

/// How many `=` a long bracket grows before the embedding gives up.
pub const BRACKET_CAP: usize = 64;

/// The extension of compiled modules.
pub const BYTECODE_EXTENSION: &'static str = "dluac";

/// The first part of a name that no module has.
pub const RESERVED_COMPONENT: &'static str = "stdlib";

// ---- names ----

/// Whether a character stands in the parts of a module's name.
pub open spec fn name_char(c: char) -> bool {
    ('a' <= c && c <= 'z') || ('A' <= c && c <= 'Z') || ('0' <= c && c <= '9') || c == '_'
}

/// Tells whether a character stands in the parts of a module's name.
pub fn is_name_char(c: char) -> (r: bool)
    ensures
        r == name_char(c),
{
    ('a' <= c && c <= 'z') || ('A' <= c && c <= 'Z') || ('0' <= c && c <= '9') || c == '_'
}

/// Whether every character is a letter, a digit, `_` or `.`.
pub open spec fn name_chars(s: Seq<char>) -> bool {
    forall|i: int| 0 <= i < s.len() ==> name_char(#[trigger] s[i]) || s[i] == '.'
}

/// The first part of a dotted name.
pub open spec fn first_part(s: Seq<char>) -> Seq<char> {
    match text::first(s, '.', 0) {
        Some(i) => s.subrange(0, i),
        None => s,
    }
}

/// Why a name is no module's name, or `None` where it is one.
pub open spec fn refusal(name: Seq<char>) -> Option<Seq<char>> {
    if name.len() == 0 {
        Some("a module name may not be empty"@)
    } else if text::contains(name, ".."@) {
        Some("`..` is not a module name component"@)
    } else if name[0] == '.' || name.last() == '.' {
        Some("a module name may not begin or end with `.`"@)
    } else if !name_chars(name) {
        Some("a module name holds letters, digits, `_` and the `.` between components"@)
    } else if first_part(name) == RESERVED_COMPONENT@ {
        Some(
            "`stdlib` is reserved -- a stdlib program is reached by the `stdlib:` entry spelling, never by require"@,
        )
    } else {
        None
    }
}

fn only_name_chars(cs: &Vec<char>) -> (r: bool)
    ensures
        r == name_chars(cs@),
{
    let mut i: usize = 0;
    while i < cs.len()
        invariant
            i <= cs.len(),
            forall|k: int| 0 <= k < i ==> name_char(#[trigger] cs@[k]) || cs@[k] == '.',
        decreases cs.len() - i,
    {
        if !is_name_char(cs[i]) && cs[i] != '.' {
            assert(!name_char(cs@[i as int]));
            return false;
        }
        i = i + 1;
    }
    true
}

/// Why `require` may not take this name, or `None` where it may.
pub fn refuse_name(name: &str) -> (r: Option<String>)
    ensures
        text::opt(r) == refusal(name@),
{
    let cs = text::chars(name);
    if cs.len() == 0 {
        return Some("a module name may not be empty".to_owned());
    }
    if text::holds(name, "..") {
        return Some("`..` is not a module name component".to_owned());
    }
    if cs[0] == '.' || cs[cs.len() - 1] == '.' {
        return Some("a module name may not begin or end with `.`".to_owned());
    }
    if !only_name_chars(&cs) {
        return Some(
            "a module name holds letters, digits, `_` and the `.` between components".to_owned(),
        );
    }
    let head: String = match text::find(&cs, '.', 0) {
        Some(i) => text::cut(&cs, 0, i),
        None => name.to_owned(),
    };
    if text::same(head.as_str(), RESERVED_COMPONENT) {
        return Some(
            "`stdlib` is reserved -- a stdlib program is reached by the `stdlib:` entry spelling, never by require".to_owned(),
        );
    }
    None
}

/// The extension that makes a file a module, `None` for any other file.
pub open spec fn extension(path: Seq<char>) -> Option<Seq<char>> {
    match text::rsplit_once(path, '.') {
        Some((stem, ext)) => if ext == "dlua"@ || ext == "lua"@ || ext == BYTECODE_EXTENSION@ {
            Some(ext)
        } else {
            None
        },
        None => None,
    }
}

/// The extension that makes a file a module.
pub fn module_extension(path: &str) -> (r: Option<&'static str>)
    ensures
        match r {
            Some(e) => extension(path@) == Some(e@),
            None => extension(path@) is None,
        },
{
    match text::cut_at_last(path, '.') {
        Some((stem, ext)) => {
            if text::same(ext.as_str(), "dlua") {
                Some("dlua")
            } else if text::same(ext.as_str(), "lua") {
                Some("lua")
            } else if text::same(ext.as_str(), BYTECODE_EXTENSION) {
                Some(BYTECODE_EXTENSION)
            } else {
                None
            }
        },
        None => None,
    }
}

/// The path without its extension.
pub open spec fn stem(path: Seq<char>) -> Seq<char> {
    match text::rsplit_once(path, '.') {
        Some((s, ext)) => s,
        None => path,
    }
}

/// Whether every part holds only the characters of names, so that path and
/// name are one to one.
pub open spec fn plain_parts(ps: Seq<Seq<char>>) -> bool {
    forall|i: int, k: int|
        0 <= i < ps.len() && 0 <= k < ps[i].len() ==> name_char(#[trigger] ps[i][k])
}

/// The name of the module in a file, or why it has none.
pub open spec fn name_of(path: Seq<char>) -> Result<Seq<char>, Seq<char>> {
    let ps = paths::parts(stem(path));
    let name = text::joined(ps, "."@);
    if !plain_parts(ps) {
        Err(
            path
                + ": a module name holds letters, digits, `_` and the `.` between components"@,
        )
    } else {
        match refusal(name) {
            Some(why) => Err(path + ": "@ + why),
            None => Ok(name),
        }
    }
}

/// The view of a result of two strings.
pub open spec fn result_text(r: Result<String, String>) -> Result<Seq<char>, Seq<char>> {
    match r {
        Ok(s) => Ok(s@),
        Err(s) => Err(s@),
    }
}

fn has_plain_parts(ps: &Vec<String>) -> (r: bool)
    ensures
        r == plain_parts(text::texts(ps@)),
{
    let ghost all = text::texts(ps@);
    let mut i: usize = 0;
    while i < ps.len()
        invariant
            i <= ps.len(),
            all == text::texts(ps@),
            forall|j: int, k: int|
                0 <= j < i && 0 <= k < all[j].len() ==> name_char(#[trigger] all[j][k]),
        decreases ps.len() - i,
    {
        let cs = text::chars(ps[i].as_str());
        assert(cs@ == all[i as int]);
        let mut k: usize = 0;
        while k < cs.len()
            invariant
                k <= cs.len(),
                i < ps.len(),
                all == text::texts(ps@),
                cs@ == all[i as int],
                forall|m: int| 0 <= m < k ==> name_char(#[trigger] all[i as int][m]),
            decreases cs.len() - k,
        {
            if !is_name_char(cs[k]) {
                assert(!name_char(all[i as int][k as int]));
                return false;
            }
            k = k + 1;
        }
        i = i + 1;
    }
    true
}

/// The name of the module in a file, or why it has none.
pub fn name_for_path(path: &str) -> (r: Result<String, String>)
    ensures
        result_text(r) == name_of(path@),
{
    let bare: String = match text::cut_at_last(path, '.') {
        Some((s, ext)) => s,
        None => path.to_owned(),
    };
    let ps = paths::split(bare.as_str());
    if !has_plain_parts(&ps) {
        return Err(
            text::join2(
                path,
                ": a module name holds letters, digits, `_` and the `.` between components",
            ),
        );
    }
    let name = text::join(&ps, ".");
    match refuse_name(name.as_str()) {
        Some(why) => Err(text::join3(path, ": ", why.as_str())),
        None => Ok(name),
    }
}

// ---- finding them ----

/// One module: what `require` calls it, the file it came from, its source.
#[derive(Debug)]
pub struct Module {
    pub name: String,
    pub file: String,
    pub source: String,
}

/// What a module is.
#[verifier::ext_equal]
pub struct ModuleView {
    pub name: Seq<char>,
    pub file: Seq<char>,
    pub source: Seq<char>,
}

impl Module {
    /// The module, as mathematics.
    pub open spec fn view(&self) -> ModuleView {
        ModuleView { name: self.name@, file: self.file@, source: self.source@ }
    }
}

/// Every module beside one program, and the directory they came from.
#[derive(Debug)]
pub struct Modules {
    pub dir: String,
    pub modules: Vec<Module>,
}

impl Default for Modules {
    /// No module, of no directory.
    fn default() -> (r: Modules)
        ensures
            r.dir@.len() == 0,
            r.modules@.len() == 0,
    {
        Modules { dir: String::new(), modules: Vec::new() }
    }
}

/// The modules of a list, as mathematics.
pub open spec fn module_views(ms: Seq<Module>) -> Seq<ModuleView> {
    Seq::new(ms.len(), |i: int| ms[i]@)
}

/// The modules with one more, in the order of their names.
pub open spec fn ordered(ms: Seq<ModuleView>, m: ModuleView) -> Seq<ModuleView>
    decreases ms.len(),
{
    if ms.len() > 0 && text::before(m.name, ms.last().name) {
        ordered(ms.drop_last(), m).push(ms.last())
    } else {
        ms.push(m)
    }
}

/// The place of the module with a name, from `i` on.
pub open spec fn named(ms: Seq<ModuleView>, name: Seq<char>, i: int) -> Option<int>
    decreases ms.len() - i,
{
    if i < 0 || i >= ms.len() {
        None
    } else if ms[i].name == name {
        Some(i)
    } else {
        named(ms, name, i + 1)
    }
}

/// What one file or directory means for the modules.
pub enum Meaning {
    Nothing,
    Refused(Seq<char>),
    Module(ModuleView, nat),
}

/// The refusal to read a file.
pub open spec fn unread(dir: Seq<char>, path: Seq<char>, why: Seq<char>) -> Seq<char> {
    "cannot read "@ + paths::joined(dir, path) + ": "@ + why
}

/// What a file at `path` means, where `source` is its source or why it
/// cannot be read.
pub open spec fn file_meaning(
    dir: Seq<char>,
    entry: Option<Seq<char>>,
    path: Seq<char>,
    source: Result<(Seq<char>, nat), Seq<char>>,
) -> Meaning {
    let shown = paths::shown(path);
    if entry == Some(path) {
        Meaning::Nothing
    } else {
        match extension(shown) {
            None => Meaning::Nothing,
            Some(ext) => if ext == BYTECODE_EXTENSION@ {
                Meaning::Refused(
                    shown
                        + ": bytecode modules are not built yet -- drt loads source only until there is a verifier for them (GUARANTEES.md), and reaching one through the guest's `load` would put unverified bytecode inside the sandbox. Ship the source beside it, or remove this file."@,
                )
            } else {
                match name_of(shown) {
                    Err(why) => Meaning::Refused(why),
                    Ok(name) => match source {
                        Err(why) => Meaning::Refused(unread(dir, path, why)),
                        Ok((s, n)) => Meaning::Module(
                            ModuleView { name, file: shown, source: s },
                            n,
                        ),
                    },
                }
            },
        }
    }
}

/// What one item of the walk means.
#[verifier::opaque]
pub open spec fn meaning(dir: Seq<char>, entry: Option<Seq<char>>, item: ItemView) -> Meaning {
    match item {
        ItemView::Dir(p) => Meaning::Nothing,
        ItemView::Unlisted(p, why) => Meaning::Refused(unread(dir, p, why)),
        ItemView::Unreadable(p, why) => file_meaning(dir, entry, p, Err(why)),
        ItemView::File(p, b) => file_meaning(
            dir,
            entry,
            p,
            if vstd::utf8::valid_utf8(b) {
                Ok((vstd::utf8::decode_utf8(b), b.len()))
            } else {
                Err("stream did not contain valid UTF-8"@)
            },
        ),
    }
}

/// The modules that a walk comes to, from item `i` on, with `found` and
/// their `bytes` so far. The first thing to refuse decides.
pub open spec fn collected(
    dir: Seq<char>,
    entry: Option<Seq<char>>,
    items: Seq<ItemView>,
    i: int,
    found: Seq<ModuleView>,
    bytes: nat,
) -> Result<Seq<ModuleView>, Seq<char>>
    decreases items.len() - i,
{
    if i < 0 || i >= items.len() {
        Ok(found)
    } else {
        match meaning(dir, entry, items[i]) {
            Meaning::Nothing => collected(dir, entry, items, i + 1, found, bytes),
            Meaning::Refused(why) => Err(why),
            Meaning::Module(m, n) => if found.len() >= MAX_MODULES {
                Err(
                    "more than 1000 modules under "@ + dir
                        + "; a node is source code, and a tree this size is one to look at before deploying"@,
                )
            } else if bytes + n > MAX_BYTES {
                Err("more than 16 MiB of module source under "@ + dir + "; same reason"@)
            } else {
                match named(found, m.name, 0) {
                    Some(k) => Err(
                        found[k].file + " and "@ + m.file + " are both the module `"@ + m.name
                            + "`; a node may ship one file per module name"@,
                    ),
                    None => collected(dir, entry, items, i + 1, ordered(found, m), bytes + n),
                }
            },
        }
    }
}

/// The directory that a program sits in.
pub open spec fn node_dir(program: Seq<char>) -> Seq<char> {
    match paths::parent(program) {
        Some(p) => if p.len() > 0 {
            p
        } else {
            "."@
        },
        None => "."@,
    }
}

/// Whether modules are those that a result gives.
pub open spec fn gives(
    r: Result<Modules, String>,
    shown: Seq<char>,
    want: Result<Seq<ModuleView>, Seq<char>>,
) -> bool {
    match (r, want) {
        (Ok(ms), Ok(found)) => ms.dir@ == shown && module_views(ms.modules@) == found,
        (Err(why), Err(what)) => why@ == what,
        _ => false,
    }
}

fn find_named(ms: &Vec<Module>, name: &str) -> (r: Option<usize>)
    ensures
        r is Some <==> named(module_views(ms@), name@, 0) is Some,
        r matches Some(i) ==> named(module_views(ms@), name@, 0) == Some(i as int) && i < ms.len(),
{
    let ghost all = module_views(ms@);
    let mut i: usize = 0;
    while i < ms.len()
        invariant
            i <= ms.len(),
            all == module_views(ms@),
            named(all, name@, 0) == named(all, name@, i as int),
        decreases ms.len() - i,
    {
        assert(all[i as int] == ms@[i as int]@);
        if text::same(ms[i].name.as_str(), name) {
            return Some(i);
        }
        i = i + 1;
    }
    None
}

fn put_in_order(ms: &mut Vec<Module>, m: Module)
    ensures
        module_views(final(ms)@) == ordered(module_views(old(ms)@), m@),
{
    let ghost all = module_views(ms@);
    let ghost one = m@;
    let mut at: usize = ms.len();
    assert(all.subrange(0, all.len() as int) =~= all);
    assert(ordered(all, one) + all.subrange(all.len() as int, all.len() as int) =~= ordered(
        all,
        one,
    ));
    while at > 0 && text::precedes(m.name.as_str(), ms[at - 1].name.as_str())
        invariant
            at <= ms@.len(),
            all == module_views(ms@),
            one == m@,
            ordered(all, one) == ordered(all.subrange(0, at as int), one) + all.subrange(
                at as int,
                all.len() as int,
            ),
        decreases at,
    {
        proof {
            let head = all.subrange(0, at as int);
            assert(head.last() == ms@[at - 1]@);
            assert(head.drop_last() == all.subrange(0, at - 1));
            assert(ordered(head.drop_last(), one).push(head.last()) + all.subrange(
                at as int,
                all.len() as int,
            ) =~= ordered(all.subrange(0, at - 1), one) + all.subrange(at - 1, all.len() as int));
        }
        at = at - 1;
    }
    proof {
        let head = all.subrange(0, at as int);
        if at > 0 {
            assert(head.last() == ms@[at - 1]@);
        }
        assert(ordered(head, one) == head.push(one));
    }
    ms.insert(at, m);
    assert(module_views(ms@) =~= ordered(all, one));
}

/// What one file or directory means for the modules.
enum Sense {
    Nothing,
    Refused(String),
    Module(Module, usize),
}

spec fn same_sense(s: Sense, m: Meaning) -> bool {
    match (s, m) {
        (Sense::Nothing, Meaning::Nothing) => true,
        (Sense::Refused(a), Meaning::Refused(b)) => a@ == b,
        (Sense::Module(a, n), Meaning::Module(b, k)) => a@ == b && n == k,
        _ => false,
    }
}

fn explain_unread(dir: &str, path: &str, why: &str) -> (r: String)
    ensures
        r@ == unread(dir@, path@, why@),
{
    text::join4("cannot read ", paths::join(dir, path).as_str(), ": ", why)
}

/// The bytes of a file, or why they cannot be read.
enum Body<'a> {
    Bytes(&'a Vec<u8>),
    Missing(&'a String),
}

spec fn body_source(b: Body) -> Result<(Seq<char>, nat), Seq<char>> {
    match b {
        Body::Bytes(b) => if vstd::utf8::valid_utf8(b@) {
            Ok((vstd::utf8::decode_utf8(b@), b@.len()))
        } else {
            Err("stream did not contain valid UTF-8"@)
        },
        Body::Missing(why) => Err(why@),
    }
}

fn sense_file(dir: &str, entry: &Option<String>, path: &str, body: Body) -> (r: Sense)
    ensures
        same_sense(r, file_meaning(dir@, text::opt(*entry), path@, body_source(body))),
{
    if let Some(e) = entry {
        if text::same(e.as_str(), path) {
            return Sense::Nothing;
        }
    }
    let shown = paths::display(path);
    match module_extension(shown.as_str()) {
        None => Sense::Nothing,
        Some(ext) => {
            if text::same(ext, BYTECODE_EXTENSION) {
                return Sense::Refused(
                    text::join2(
                        shown.as_str(),
                        ": bytecode modules are not built yet -- drt loads source only until there is a verifier for them (GUARANTEES.md), and reaching one through the guest's `load` would put unverified bytecode inside the sandbox. Ship the source beside it, or remove this file.",
                    ),
                );
            }
            let name = match name_for_path(shown.as_str()) {
                Err(why) => return Sense::Refused(why),
                Ok(name) => name,
            };
            match body {
                Body::Missing(why) => Sense::Refused(explain_unread(dir, path, why.as_str())),
                Body::Bytes(b) => match text::utf8(b.as_slice()) {
                    None => Sense::Refused(
                        explain_unread(dir, path, "stream did not contain valid UTF-8"),
                    ),
                    Some(source) => {
                        proof {
                            vstd::utf8::encode_utf8_decode_utf8(source@);
                        }
                        Sense::Module(Module { name, file: shown, source }, b.len())
                    },
                },
            }
        },
    }
}

fn sense(dir: &str, entry: &Option<String>, item: &Item) -> (r: Sense)
    ensures
        same_sense(r, meaning(dir@, text::opt(*entry), item@)),
{
    reveal(meaning);
    match item {
        Item::Dir(_) => Sense::Nothing,
        Item::Unlisted(p, why) => Sense::Refused(explain_unread(dir, p.as_str(), why.as_str())),
        Item::Unreadable(p, why) => sense_file(dir, entry, p.as_str(), Body::Missing(why)),
        Item::File(p, b) => sense_file(dir, entry, p.as_str(), Body::Bytes(b)),
    }
}

fn collect(dir: &str, entry: &Option<String>, items: &Vec<Item>) -> (r: Result<Vec<Module>, String>)
    ensures
        match collected(
            dir@,
            text::opt(*entry),
            tree::item_views(items@),
            0,
            Seq::empty(),
            0,
        ) {
            Ok(found) => r matches Ok(ms) && module_views(ms@) == found,
            Err(what) => r matches Err(why) && why@ == what,
        },
{
    let ghost all = tree::item_views(items@);
    let ghost ent = text::opt(*entry);
    let ghost want = collected(dir@, ent, all, 0, Seq::empty(), 0);
    let mut found: Vec<Module> = Vec::new();
    let mut bytes: u64 = 0;
    let mut i: usize = 0;
    assert(module_views(found@) =~= Seq::empty());
    while i < items.len()
        invariant
            i <= items.len(),
            tree::item_views(items@) == all,
            ent == text::opt(*entry),
            want == collected(dir@, ent, all, 0, Seq::empty(), 0),
            bytes <= MAX_BYTES,
            want == collected(
                dir@,
                ent,
                all,
                i as int,
                module_views(found@),
                bytes as nat,
            ),
        decreases items.len() - i,
    {
        assert(all[i as int] == items@[i as int]@) by {
            assert(tree::item_views(items@)[i as int] == items@[i as int]@);
        }
        match sense(dir, entry, &items[i]) {
            Sense::Nothing => {},
            Sense::Refused(why) => return Err(why),
            Sense::Module(m, n) => {
                if found.len() >= MAX_MODULES {
                    return Err(
                        text::join3(
                            "more than 1000 modules under ",
                            dir,
                            "; a node is source code, and a tree this size is one to look at before deploying",
                        ),
                    );
                }
                if n as u64 > MAX_BYTES - bytes {
                    return Err(
                        text::join3(
                            "more than 16 MiB of module source under ",
                            dir,
                            "; same reason",
                        ),
                    );
                }
                bytes = bytes + n as u64;
                match find_named(&found, m.name.as_str()) {
                    Some(k) => {
                        let mut why = text::join5(
                            found[k].file.as_str(),
                            " and ",
                            m.file.as_str(),
                            " are both the module `",
                            m.name.as_str(),
                        );
                        why.append("`; a node may ship one file per module name");
                        return Err(why);
                    },
                    None => {
                        put_in_order(&mut found, m);
                    },
                }
            },
        }
        i = i + 1;
    }
    Ok(found)
}

/// Collects every module in the directory that `program` sits in, which is
/// `node`. The program itself is not one. Where there is no such directory
/// there are no modules.
pub fn discover(program: &str, node: Option<&Node>) -> (r: Result<Modules, String>)
    ensures
        match node {
            Some(t) => if t@.is_dir() {
                gives(
                    r,
                    paths::shown(node_dir(program@)),
                    collected(
                        node_dir(program@),
                        paths::file_name(program@),
                        tree::walked(Seq::empty(), t@),
                        0,
                        Seq::empty(),
                        0,
                    ),
                )
            } else {
                gives(r, ""@, Ok(Seq::empty()))
            },
            None => gives(r, ""@, Ok(Seq::empty())),
        },
{
    let dir: String = match paths::parent_of(program) {
        Some(p) => if !p.as_str().is_empty() {
            p
        } else {
            ".".to_owned()
        },
        None => ".".to_owned(),
    };
    let none: Vec<Module> = Vec::new();
    assert(module_views(none@) =~= Seq::empty());
    let node: &Node = match node {
        Some(t) => if t.is_dir() {
            t
        } else {
            return Ok(Modules { dir: "".to_owned(), modules: none });
        },
        None => return Ok(Modules { dir: "".to_owned(), modules: none }),
    };
    let entry = paths::file_name_of(program);
    let items = tree::walk(node);
    match collect(dir.as_str(), &entry, &items) {
        Ok(found) => Ok(Modules { dir: paths::display(dir.as_str()), modules: found }),
        Err(why) => Err(why),
    }
}

impl Modules {
    /// Tells whether there are none.
    pub fn is_empty(&self) -> (r: bool)
        ensures
            r == (self.modules@.len() == 0),
    {
        self.modules.len() == 0
    }

    /// How many there are.
    pub fn len(&self) -> (r: usize)
        ensures
            r == self.modules@.len(),
    {
        self.modules.len()
    }

    /// Their names, in order.
    pub fn names(&self) -> (r: Vec<&str>)
        ensures
            r@.len() == self.modules@.len(),
            forall|i: int| 0 <= i < r@.len() ==> (#[trigger] r@[i])@ == self.modules@[i].name@,
    {
        let mut r: Vec<&str> = Vec::new();
        let mut i: usize = 0;
        while i < self.modules.len()
            invariant
                i <= self.modules.len(),
                r@.len() == i,
                forall|k: int| 0 <= k < i ==> (#[trigger] r@[k])@ == self.modules@[k].name@,
            decreases self.modules.len() - i,
        {
            r.push(self.modules[i].name.as_str());
            i = i + 1;
        }
        r
    }
}

// ---- the generated chunk ----

/// `require`, and the rule it enforces, as the program sees them.
pub const RUNTIME: &'static str = "\nlocal __chunk, __loaded, __loading = {}, {}, {}\n\nfor i = 1, #__mods do\n  local m = __mods[i]\n  -- `@` before the name is what makes a traceback print `db/claims.dlua:3:`\n  -- rather than quoting the whole source back at the reader.\n  local chunk, why = load(m.src, \"@\" .. m.file)\n  if not chunk then\n    error(\"drt modules: \" .. m.file .. \": \" .. tostring(why), 0)\n  end\n  __chunk[m.name] = chunk\nend\n\n-- Why this is not a module name, or nil if it is. The host holds the same\n-- rule over the files it found; this one is for whatever the guest asks for,\n-- which the host never sees.\nlocal function __refusal(name)\n  if type(name) ~= \"string\" then\n    return \"a module name must be a string, got \" .. type(name)\n  end\n  if name == \"\" then\n    return \"a module name may not be empty\"\n  end\n  if name:find(\"%.%.\", 1) then\n    return \"`..` is not a module name component\"\n  end\n  if name:sub(1, 1) == \".\" or name:sub(-1) == \".\" then\n    return \"a module name may not begin or end with `.`\"\n  end\n  if name:find(\"[^A-Za-z0-9_.]\") then\n    return \"a module name holds letters, digits, `_` and the `.` between components\"\n  end\n  if name:match(\"^[^.]+\") == \"stdlib\" then\n    return \"`stdlib` is reserved -- a stdlib program is reached by the `stdlib:` entry spelling, never by require\"\n  end\n  return nil\nend\n\nfunction require(name)\n  local why = __refusal(name)\n  if why then\n    error(\"require(\" .. tostring(name) .. \"): \" .. why, 0)\n  end\n  -- A module that returned `false` is still a module that ran, so the cache\n  -- is tested against nil and not for truth.\n  local hit = __loaded[name]\n  if hit ~= nil then\n    return hit\n  end\n  local chunk = __chunk[name]\n  if chunk == nil then\n    error(\"require(\" .. name .. \"): no such module in \" .. __dir, 0)\n  end\n  if __loading[name] then\n    -- Without this the failure is a stack overflow, which names neither\n    -- module in the cycle.\n    error(\"require(\" .. name .. \"): required while it was still loading -- a cycle\", 0)\n  end\n  __loading[name] = true\n  local ok, value = pcall(chunk, name)\n  __loading[name] = nil\n  if not ok then\n    error(value, 0)\n  end\n  -- Lua's own contract: a module that returns nothing is `true`, so that a\n  -- second require can tell \"ran, returned nothing\" from \"never ran\".\n  if value == nil then\n    value = true\n  end\n  __loaded[name] = value\n  return value\nend\n";

/// A number of `=` in a row.
pub open spec fn equals(n: nat) -> Seq<char> {
    Seq::new(n, |i: int| '=')
}

/// The opening long bracket of a level.
pub open spec fn opening(n: nat) -> Seq<char> {
    "["@ + equals(n) + "["@
}

/// The closing long bracket of a level.
pub open spec fn closing(n: nat) -> Seq<char> {
    "]"@ + equals(n) + "]"@
}

/// Whether a source would end a long bracket of a level before its end: it
/// holds the closing one, or its own end makes one together with what is put
/// behind it.
pub open spec fn ends_early(source: Seq<char>, n: nat) -> bool {
    text::contains(source, closing(n)) || text::ends(source, "]"@ + equals(n))
}

/// The first level, from `n` on, whose closing bracket a source cannot bring
/// about.
pub open spec fn level(source: Seq<char>, n: int) -> Option<int>
    decreases BRACKET_CAP + 1 - n,
{
    if n < 0 || n > BRACKET_CAP {
        None
    } else if !ends_early(source, n as nat) {
        Some(n)
    } else {
        level(source, n + 1)
    }
}

/// The refusal of a source that no bracket can hold.
pub open spec fn unembeddable() -> Seq<char> {
    "this source cannot be embedded: it contains every long-bracket close from `]]` to 64 `=` deep"@
}

fn repeat_equals(n: usize) -> (r: String)
    ensures
        r@ == equals(n as nat),
{
    let mut r = String::new();
    let mut i: usize = 0;
    assert(r@ =~= equals(0));
    while i < n
        invariant
            i <= n,
            r@ == equals(i as nat),
        decreases n - i,
    {
        r.push('=');
        assert(r@ =~= equals((i + 1) as nat));
        i = i + 1;
    }
    r
}

/// A long-bracket pair that a source cannot end.
pub fn brackets(source: &str) -> (r: Result<(String, String), String>)
    ensures
        match level(source@, 0) {
            Some(n) => r matches Ok(p) && p.0@ == opening(n as nat) && p.1@ == closing(n as nat),
            None => r matches Err(why) && why@ == unembeddable(),
        },
{
    let mut n: usize = 0;
    while n <= BRACKET_CAP
        invariant
            n <= BRACKET_CAP + 1,
            level(source@, 0) == level(source@, n as int),
        decreases BRACKET_CAP + 1 - n,
    {
        let eq = repeat_equals(n);
        let most = text::join2("]", eq.as_str());
        let close = text::join3("]", eq.as_str(), "]");
        if !text::holds(source, close.as_str()) && !text::finishes(source, most.as_str()) {
            return Ok((text::join3("[", eq.as_str(), "["), close));
        }
        n = n + 1;
    }
    Err(
        "this source cannot be embedded: it contains every long-bracket close from `]]` to 64 `=` deep".to_owned(),
    )
}

/// One character inside a short string. A control character that has no
/// letter is its code in three digits, so that a digit behind it is not read
/// as part of it.
pub open spec fn escaped(c: char) -> Seq<char> {
    if c == '"' {
        "\\\""@
    } else if c == '\\' {
        "\\\\"@
    } else if c == '\n' {
        "\\n"@
    } else if c == '\r' {
        "\\r"@
    } else if c == '\t' {
        "\\t"@
    } else if (c as u32) < 0x20 {
        "\\0"@.push(text::digit((c as u32 / 10) as nat)).push(text::digit((c as u32 % 10) as nat))
    } else {
        seq![c]
    }
}

/// Every character inside a short string.
pub open spec fn escaped_all(s: Seq<char>) -> Seq<char>
    decreases s.len(),
{
    if s.len() == 0 {
        Seq::empty()
    } else {
        escaped_all(s.drop_last()) + escaped(s.last())
    }
}

/// A text as a short string.
pub open spec fn quoted(s: Seq<char>) -> Seq<char> {
    "\""@ + escaped_all(s) + "\""@
}

/// Writes a text as a short string.
pub fn quote(s: &str) -> (r: String)
    ensures
        r@ == quoted(s@),
{
    let cs = text::chars(s);
    let mut out: String = "\"".to_owned();
    let mut i: usize = 0;
    assert("\""@ + escaped_all(cs@.subrange(0, 0)) =~= "\""@);
    while i < cs.len()
        invariant
            i <= cs.len(),
            cs@ == s@,
            out@ == "\""@ + escaped_all(cs@.subrange(0, i as int)),
        decreases cs.len() - i,
    {
        let c: char = cs[i];
        let ghost before = out@;
        let ghost now = cs@.subrange(0, i + 1);
        assert(now.drop_last() == cs@.subrange(0, i as int));
        if c == '"' {
            out.append("\\\"");
        } else if c == '\\' {
            out.append("\\\\");
        } else if c == '\n' {
            out.append("\\n");
        } else if c == '\r' {
            out.append("\\r");
        } else if c == '\t' {
            out.append("\\t");
        } else if (c as u32) < 0x20 {
            let code: u32 = c as u32;
            let tens: char = (48u8 + (code / 10) as u8) as char;
            let ones: char = (48u8 + (code % 10) as u8) as char;
            out.append("\\0");
            out.push(tens);
            out.push(ones);
            assert(tens == text::digit((code / 10) as nat));
            assert(ones == text::digit((code % 10) as nat));
            assert(out@ =~= before + escaped(c));
        } else {
            out.push(c);
            assert(out@ =~= before + escaped(c));
        }
        assert(out@ =~= before + escaped(c));
        assert(out@ =~= "\""@ + escaped_all(now));
        i = i + 1;
    }
    assert(cs@.subrange(0, cs@.len() as int) == cs@);
    out.append("\"");
    out
}

/// The head of the chunk.
pub open spec fn preamble(n: nat, dir: Seq<char>) -> Seq<char> {
    "-- Generated by drt (src/modules.rs). This is the chunk that was loaded; the\n-- program you wrote is compiled below, under its own name, so its\n-- line numbers are its own.\n--\n-- "@
        + text::dec(n)
        + " module(s) beside it, each compiled here rather than on first\n-- use, so a syntax error in one is a failure before any of this\n-- node's code runs.\n\nlocal __dir = "@
        + quoted(dir) + "\nlocal __mods = {\n"@
}

/// A source between brackets of a level.
pub open spec fn embedded(source: Seq<char>, n: int) -> Seq<char> {
    opening(n as nat) + "\n"@ + source + closing(n as nat)
}

/// The entry of one module in the chunk.
pub open spec fn module_entry(m: ModuleView, n: int) -> Seq<char> {
    "  { name = "@ + quoted(m.name) + ", file = "@ + quoted(m.file) + ", src = "@ + embedded(
        m.source,
        n,
    ) + " },\n"@
}

/// The entries of the modules, or `None` where one cannot be embedded.
pub open spec fn module_entries(ms: Seq<ModuleView>) -> Option<Seq<char>>
    decreases ms.len(),
{
    if ms.len() == 0 {
        Some(Seq::empty())
    } else {
        match (module_entries(ms.drop_last()), level(ms.last().source, 0)) {
            (Some(rest), Some(n)) => Some(rest + module_entry(ms.last(), n)),
            _ => None,
        }
    }
}

/// The end of the chunk: the program, under its own name.
pub open spec fn program_entry(source: Seq<char>, file: Seq<char>, n: int) -> Seq<char> {
    "\nlocal __entry, __entry_why = load("@ + embedded(source, n) + ", "@ + quoted(file)
        + ")\nif not __entry then error(tostring(__entry_why), 0) end\nreturn __entry()\n"@
}

/// The chunk that is loaded: the modules, a `require` over them, and the
/// program, compiled and called.
pub open spec fn chunk(
    dir: Seq<char>,
    ms: Seq<ModuleView>,
    source: Seq<char>,
    file: Seq<char>,
) -> Result<Seq<char>, Seq<char>> {
    match (module_entries(ms), level(source, 0)) {
        (Some(entries), Some(n)) => Ok(
            preamble(ms.len(), dir) + entries + "}\n\n"@ + RUNTIME@ + program_entry(
                source,
                file,
                n,
            ),
        ),
        _ => Err(unembeddable()),
    }
}

proof fn entries_of_prefix(ms: Seq<ModuleView>, i: int)
    requires
        0 <= i <= ms.len(),
        module_entries(ms.subrange(0, i)) is None,
    ensures
        module_entries(ms) is None,
    decreases ms.len() - i,
{
    if i < ms.len() {
        assert(ms.subrange(0, i + 1).drop_last() == ms.subrange(0, i));
        entries_of_prefix(ms, i + 1);
    } else {
        assert(ms.subrange(0, i) == ms);
    }
}

fn embed(source: &str) -> (r: Result<String, String>)
    ensures
        match level(source@, 0) {
            Some(n) => r matches Ok(s) && s@ == embedded(source@, n),
            None => r matches Err(why) && why@ == unembeddable(),
        },
{
    match brackets(source) {
        Ok((open, close)) => Ok(text::join4(open.as_str(), "\n", source, close.as_str())),
        Err(why) => Err(why),
    }
}

impl Modules {
    fn entries(&self) -> (r: Result<String, String>)
        ensures
            match module_entries(module_views(self.modules@)) {
                Some(s) => r matches Ok(t) && t@ == s,
                None => r matches Err(why) && why@ == unembeddable(),
            },
    {
        let ghost all = module_views(self.modules@);
        let mut out = String::new();
        let mut i: usize = 0;
        assert(all.subrange(0, 0) =~= Seq::empty());
        while i < self.modules.len()
            invariant
                i <= self.modules.len(),
                all == module_views(self.modules@),
                module_entries(all.subrange(0, i as int)) == Some(out@),
            decreases self.modules.len() - i,
        {
            let m = &self.modules[i];
            let ghost now = all.subrange(0, i + 1);
            let ghost before = out@;
            assert(now.drop_last() == all.subrange(0, i as int));
            assert(now.last() == m@);
            match embed(m.source.as_str()) {
                Err(why) => {
                    proof {
                        entries_of_prefix(all, i + 1);
                    }
                    return Err(why);
                },
                Ok(body) => {
                    out.append("  { name = ");
                    out.append(quote(m.name.as_str()).as_str());
                    out.append(", file = ");
                    out.append(quote(m.file.as_str()).as_str());
                    out.append(", src = ");
                    out.append(body.as_str());
                    out.append(" },\n");
                    proof {
                        let n = level(m.source@, 0)->0;
                        assert(out@ =~= before + module_entry(m@, n));
                    }
                },
            }
            i = i + 1;
        }
        assert(all.subrange(0, all.len() as int) == all);
        Ok(out)
    }

    /// The chunk that is loaded.
    pub fn bootstrap(&self, entry_source: &str, entry_file: &str) -> (r: Result<String, String>)
        ensures
            result_text(r) == chunk(
                self.dir@,
                module_views(self.modules@),
                entry_source@,
                entry_file@,
            ),
    {
        let entries = match self.entries() {
            Ok(s) => s,
            Err(why) => return Err(why),
        };
        let body = match embed(entry_source) {
            Ok(s) => s,
            Err(why) => return Err(why),
        };
        let mut out = text::join5(
            "-- Generated by drt (src/modules.rs). This is the chunk that was loaded; the\n-- program you wrote is compiled below, under its own name, so its\n-- line numbers are its own.\n--\n-- ",
            text::decimal(self.modules.len() as u64).as_str(),
            " module(s) beside it, each compiled here rather than on first\n-- use, so a syntax error in one is a failure before any of this\n-- node's code runs.\n\nlocal __dir = ",
            quote(self.dir.as_str()).as_str(),
            "\nlocal __mods = {\n",
        );
        out.append(entries.as_str());
        out.append("}\n\n");
        out.append(RUNTIME);
        out.append("\nlocal __entry, __entry_why = load(");
        out.append(body.as_str());
        out.append(", ");
        out.append(quote(entry_file).as_str());
        out.append(
            ")\nif not __entry then error(tostring(__entry_why), 0) end\nreturn __entry()\n",
        );
        proof {
            let n = level(entry_source@, 0)->0;
            let want = preamble(self.modules@.len(), self.dir@) + entries@ + "}\n\n"@ + RUNTIME@
                + program_entry(entry_source@, entry_file@, n);
            assert(out@ =~= want);
        }
        Ok(out)
    }
}

/// What to load, and what to call it.
#[derive(Debug)]
pub struct Loaded {
    pub source: String,
    /// The name of the chunk: the program's own file name where there are
    /// no modules.
    pub name: String,
    /// How many modules were found.
    pub modules: usize,
}

/// What a load is.
#[verifier::ext_equal]
pub struct LoadedView {
    pub source: Seq<char>,
    pub name: Seq<char>,
    pub modules: nat,
}

/// The name that a program is loaded under by itself.
pub open spec fn own_name(program: Seq<char>) -> Seq<char> {
    match paths::file_name(program) {
        Some(n) => n,
        None => "program"@,
    }
}

/// What a program and its modules come to: the program itself where there
/// are none, else the chunk that carries them.
pub open spec fn load_of(
    program: Seq<char>,
    source: Seq<char>,
    dir: Seq<char>,
    ms: Seq<ModuleView>,
) -> Result<LoadedView, Seq<char>> {
    if ms.len() == 0 {
        Ok(LoadedView { source, name: own_name(program), modules: 0 })
    } else {
        match chunk(dir, ms, source, own_name(program)) {
            Ok(c) => Ok(LoadedView { source: c, name: BOOTSTRAP_NAME@, modules: ms.len() }),
            Err(why) => Err(why),
        }
    }
}

/// Whether a load is the one that is wanted.
pub open spec fn loads(
    r: Result<Loaded, String>,
    want: Result<LoadedView, Seq<char>>,
) -> bool {
    match (r, want) {
        (Ok(l), Ok(v)) => l.source@ == v.source && l.name@ == v.name && l.modules == v.modules,
        (Err(why), Err(what)) => why@ == what,
        _ => false,
    }
}

/// Puts a program together with the modules found beside it.
pub fn assemble(program: &str, source: String, modules: &Modules) -> (r: Result<Loaded, String>)
    ensures
        loads(
            r,
            load_of(program@, source@, modules.dir@, module_views(modules.modules@)),
        ),
{
    let name: String = match paths::file_name_of(program) {
        Some(n) => n,
        None => "program".to_owned(),
    };
    if modules.is_empty() {
        return Ok(Loaded { source, name, modules: 0 });
    }
    match modules.bootstrap(source.as_str(), name.as_str()) {
        Ok(chunk) => Ok(
            Loaded { source: chunk, name: BOOTSTRAP_NAME.to_owned(), modules: modules.len() },
        ),
        Err(why) => Err(why),
    }
}

/// The modules in the directory that a program sits in.
pub open spec fn found_beside(program: Seq<char>, node: Option<NodeView>) -> Result<
    (Seq<char>, Seq<ModuleView>),
    Seq<char>,
> {
    match node {
        Some(t) => if t.is_dir() {
            match collected(
                node_dir(program),
                paths::file_name(program),
                tree::walked(Seq::empty(), t),
                0,
                Seq::empty(),
                0,
            ) {
                Ok(ms) => Ok((paths::shown(node_dir(program)), ms)),
                Err(why) => Err(why),
            }
        } else {
            Ok((""@, Seq::empty()))
        },
        None => Ok((""@, Seq::empty())),
    }
}

/// The view of an optional directory.
pub open spec fn opt_node(n: Option<&Node>) -> Option<NodeView> {
    match n {
        Some(t) => Some(t@),
        None => None,
    }
}

/// Loads a program with whatever modules sit beside it. `read` is its source
/// or why it cannot be read, and `node` is the directory it sits in.
pub fn program_load(program: &str, read: Result<String, String>, node: Option<&Node>) -> (r: Result<
    Loaded,
    String,
>)
    ensures
        match read {
            Err(why) => r matches Err(e) && e@ == "cannot read "@ + program@ + ": "@ + why@,
            Ok(source) => match found_beside(program@, opt_node(node)) {
                Ok((dir, ms)) => loads(r, load_of(program@, source@, dir, ms)),
                Err(why) => r matches Err(e) && e@ == why,
            },
        },
{
    let source = match read {
        Ok(s) => s,
        Err(why) => return Err(text::join4("cannot read ", program, ": ", why.as_str())),
    };
    match discover(program, node) {
        Ok(modules) => assemble(program, source, &modules),
        Err(why) => Err(why),
    }
}

// ---- laws ----

/// The brackets that hold a source are never ended by it: the closing one
/// does not stand in it, nor does the source end in all but the last of it.
pub proof fn a_source_never_ends_its_brackets(source: Seq<char>)
    ensures
        level(source, 0) matches Some(n) ==> 0 <= n <= BRACKET_CAP && !ends_early(
            source,
            n as nat,
        ),
{
    level_is_free(source, 0);
}

proof fn level_is_free(source: Seq<char>, n: int)
    requires
        0 <= n <= BRACKET_CAP + 1,
    ensures
        level(source, n) matches Some(m) ==> n <= m <= BRACKET_CAP && !ends_early(
            source,
            m as nat,
        ),
    decreases BRACKET_CAP + 1 - n,
{
    if n <= BRACKET_CAP && ends_early(source, n as nat) {
        level_is_free(source, n + 1);
    }
}

/// A source is read back whole from between its brackets: the first closing
/// one that a reader meets is the one behind it.
pub proof fn a_source_reads_back_whole(source: Seq<char>, n: int)
    requires
        level(source, 0) == Some(n),
    ensures
        text::stands_at(source + closing(n as nat), closing(n as nat), source.len() as int),
        forall|i: int|
            0 <= i < source.len() ==> !#[trigger] text::stands_at(
                source + closing(n as nat),
                closing(n as nat),
                i,
            ),
{
    reveal_strlit("]");
    level_is_free(source, 0);
    let close = closing(n as nat);
    let all = source + close;
    assert(all.subrange(source.len() as int, all.len() as int) =~= close);
    assert forall|i: int| 0 <= i < source.len() implies !#[trigger] text::stands_at(
        all,
        close,
        i,
    ) by {
        if text::stands_at(all, close, i) {
            let found = all.subrange(i, i + close.len());
            assert(found == close);
            if i + close.len() <= source.len() {
                assert(source.subrange(i, i + close.len()) =~= found);
                assert(text::stands_at(source, close, i));
                assert(text::contains(source, close));
            } else {
                let k = source.len() - i;
                assert(found[k] == all[source.len() as int]);
                assert(close[k] == ']');
                assert(k == n + 1);
                let tail = source.subrange(source.len() - k, source.len() as int);
                assert(tail =~= close.subrange(0, k)) by {
                    assert forall|j: int| 0 <= j < k implies tail[j] == close[j] by {
                        assert(found[j] == all[i + j]);
                    }
                }
                assert(close.subrange(0, k) =~= "]"@ + equals(n as nat));
            }
        }
    }
}

/// The level is the shallowest: the source would end every bracket below it.
pub proof fn the_brackets_are_the_shallowest(source: Seq<char>, n: int, k: int)
    requires
        level(source, 0) == Some(n),
        0 <= k < n,
    ensures
        ends_early(source, k as nat),
{
    shallowest_from(source, 0, n, k);
}

proof fn shallowest_from(source: Seq<char>, from: int, n: int, k: int)
    requires
        0 <= from <= k < n,
        level(source, from) == Some(n),
    ensures
        ends_early(source, k as nat),
    decreases k - from,
{
    if ends_early(source, from as nat) && from < k {
        shallowest_from(source, from + 1, n, k);
    }
}

proof fn escaped_from_the_front(s: Seq<char>)
    requires
        s.len() > 0,
    ensures
        escaped_all(s) == escaped(s[0]) + escaped_all(s.subrange(1, s.len() as int)),
    decreases s.len(),
{
    let rest = s.subrange(1, s.len() as int);
    if s.len() == 1 {
        assert(s.drop_last() =~= Seq::empty());
        assert(rest =~= Seq::empty());
        assert(escaped_all(s) =~= escaped(s[0]) + escaped_all(rest));
    } else {
        escaped_from_the_front(s.drop_last());
        assert(s.drop_last().subrange(1, s.len() - 1) =~= rest.drop_last());
        assert(escaped_all(s) =~= escaped(s[0]) + escaped_all(rest));
    }
}

proof fn escapes_tell_apart(x: char, y: char, a: Seq<char>, b: Seq<char>)
    requires
        escaped(x) + a == escaped(y) + b,
    ensures
        x == y,
        a == b,
{
    reveal_strlit("\\\"");
    reveal_strlit("\\\\");
    reveal_strlit("\\n");
    reveal_strlit("\\r");
    reveal_strlit("\\t");
    reveal_strlit("\\0");
    let (ex, ey) = (escaped(x), escaped(y));
    let all = ex + a;
    assert(all[0] == ex[0] && all[0] == ey[0]);
    if ex.len() > 1 && ey.len() > 1 {
        assert(all[1] == ex[1] && all[1] == ey[1]);
        if ex.len() > 2 {
            assert(all[2] == ex[2] && all[2] == ey[2]);
            assert(all[3] == ex[3] && all[3] == ey[3]);
        }
    }
    assert(x == y);
    assert(a =~= all.subrange(ex.len() as int, all.len() as int));
    assert(b =~= (ey + b).subrange(ey.len() as int, (ey + b).len() as int));
}

proof fn escaped_tells_apart(a: Seq<char>, b: Seq<char>)
    requires
        escaped_all(a) == escaped_all(b),
    ensures
        a == b,
    decreases a.len(),
{
    if a.len() > 0 {
        escaped_from_the_front(a);
    }
    if b.len() > 0 {
        escaped_from_the_front(b);
    }
    if a.len() > 0 && b.len() > 0 {
        let (ra, rb) = (a.subrange(1, a.len() as int), b.subrange(1, b.len() as int));
        escapes_tell_apart(a[0], b[0], escaped_all(ra), escaped_all(rb));
        escaped_tells_apart(ra, rb);
        assert(a =~= seq![a[0]] + ra);
        assert(b =~= seq![b[0]] + rb);
    } else if a.len() > 0 {
        escape_is_something(a[0]);
        assert(escaped_all(a).len() > 0 && escaped_all(b).len() == 0);
    } else if b.len() > 0 {
        escape_is_something(b[0]);
        assert(escaped_all(b).len() > 0 && escaped_all(a).len() == 0);
    } else {
        assert(a =~= b);
    }
}

proof fn escape_is_something(c: char)
    ensures
        escaped(c).len() > 0,
{
    reveal_strlit("\\\"");
    reveal_strlit("\\\\");
    reveal_strlit("\\n");
    reveal_strlit("\\r");
    reveal_strlit("\\t");
}

/// Two texts are two short strings.
pub proof fn a_quoted_text_is_that_text(a: Seq<char>, b: Seq<char>)
    requires
        quoted(a) == quoted(b),
    ensures
        a == b,
{
    reveal_strlit("\"");
    let (qa, qb) = (quoted(a), quoted(b));
    assert(escaped_all(a) =~= qa.subrange(1, qa.len() - 1));
    assert(escaped_all(b) =~= qb.subrange(1, qb.len() - 1));
    escaped_tells_apart(a, b);
}

/// Whether the modules stand in the order of their names, each name once.
pub open spec fn in_name_order(ms: Seq<ModuleView>) -> bool {
    forall|i: int, j: int|
        0 <= i < j < ms.len() ==> text::before((#[trigger] ms[i]).name, (#[trigger] ms[j]).name)
}

proof fn named_is_place(ms: Seq<ModuleView>, name: Seq<char>, i: int)
    requires
        0 <= i <= ms.len(),
        named(ms, name, i) is None,
    ensures
        forall|k: int| i <= k < ms.len() ==> (#[trigger] ms[k]).name != name,
    decreases ms.len() - i,
{
    if i < ms.len() {
        named_is_place(ms, name, i + 1);
    }
}

proof fn ordered_holds(ms: Seq<ModuleView>, m: ModuleView)
    ensures
        ordered(ms, m).len() == ms.len() + 1,
        forall|k: int|
            0 <= k < ordered(ms, m).len() ==> (#[trigger] ordered(ms, m)[k]) == m || ms.contains(
                ordered(ms, m)[k],
            ),
    decreases ms.len(),
{
    if ms.len() > 0 && text::before(m.name, ms.last().name) {
        ordered_holds(ms.drop_last(), m);
        let o = ordered(ms, m);
        let p = ordered(ms.drop_last(), m);
        assert forall|k: int| 0 <= k < o.len() implies (#[trigger] o[k]) == m || ms.contains(
            o[k],
        ) by {
            if k < p.len() {
                assert(o[k] == p[k]);
                if p[k] != m {
                    let j = choose|j: int|
                        0 <= j < ms.drop_last().len() && ms.drop_last()[j] == p[k];
                    assert(ms[j] == p[k]);
                }
            } else {
                assert(ms[ms.len() - 1] == o[k]);
            }
        }
    } else {
        let o = ordered(ms, m);
        assert forall|k: int| 0 <= k < o.len() implies (#[trigger] o[k]) == m || ms.contains(
            o[k],
        ) by {
            if k < ms.len() {
                assert(ms[k] == o[k]);
            }
        }
    }
}

proof fn ordered_keeps_order(ms: Seq<ModuleView>, m: ModuleView)
    requires
        in_name_order(ms),
        forall|k: int| 0 <= k < ms.len() ==> (#[trigger] ms[k]).name != m.name,
    ensures
        in_name_order(ordered(ms, m)),
    decreases ms.len(),
{
    let o = ordered(ms, m);
    if ms.len() > 0 && text::before(m.name, ms.last().name) {
        let head = ms.drop_last();
        assert(forall|k: int| 0 <= k < head.len() ==> head[k] == ms[k]);
        ordered_keeps_order(head, m);
        ordered_holds(head, m);
        let p = ordered(head, m);
        assert forall|i: int, j: int| 0 <= i < j < o.len() implies text::before(
            (#[trigger] o[i]).name,
            (#[trigger] o[j]).name,
        ) by {
            if j < p.len() {
                assert(o[i] == p[i] && o[j] == p[j]);
            } else {
                assert(o[j] == ms.last());
                assert(o[i] == p[i]);
                if p[i] != m {
                    let k = choose|k: int| 0 <= k < head.len() && head[k] == p[i];
                    assert(ms[k] == p[i]);
                }
            }
        }
    } else {
        assert forall|i: int, j: int| 0 <= i < j < o.len() implies text::before(
            (#[trigger] o[i]).name,
            (#[trigger] o[j]).name,
        ) by {
            if j < ms.len() {
                assert(o[i] == ms[i] && o[j] == ms[j]);
            } else {
                let z = ms.last();
                text::before_total(m.name, z.name);
                if i < ms.len() - 1 {
                    assert(text::before(ms[i].name, ms[ms.len() - 1].name));
                    text::before_transitive(ms[i].name, z.name, m.name);
                }
            }
        }
    }
}

/// The modules that are found stand in the order of their names, whatever
/// the order of the directory, no name occurs twice, and there are no more
/// than one node carries.
pub proof fn found_modules_are_in_order(
    dir: Seq<char>,
    entry: Option<Seq<char>>,
    items: Seq<ItemView>,
)
    ensures
        collected(dir, entry, items, 0, Seq::empty(), 0) matches Ok(ms) ==> in_name_order(ms)
            && ms.len() <= MAX_MODULES,
{
    collected_in_order(dir, entry, items, 0, Seq::empty(), 0);
}

proof fn collected_in_order(
    dir: Seq<char>,
    entry: Option<Seq<char>>,
    items: Seq<ItemView>,
    i: int,
    found: Seq<ModuleView>,
    bytes: nat,
)
    requires
        0 <= i <= items.len(),
        in_name_order(found),
        found.len() <= MAX_MODULES,
    ensures
        collected(dir, entry, items, i, found, bytes) matches Ok(ms) ==> in_name_order(ms)
            && ms.len() <= MAX_MODULES,
    decreases items.len() - i,
{
    if i < items.len() {
        match meaning(dir, entry, items[i]) {
            Meaning::Nothing => {
                collected_in_order(dir, entry, items, i + 1, found, bytes);
            },
            Meaning::Refused(why) => {},
            Meaning::Module(m, n) => {
                if found.len() < MAX_MODULES && bytes + n <= MAX_BYTES && named(found, m.name, 0)
                    is None {
                    named_is_place(found, m.name, 0);
                    ordered_keeps_order(found, m);
                    ordered_holds(found, m);
                    collected_in_order(dir, entry, items, i + 1, ordered(found, m), bytes + n);
                }
            },
        }
    }
}

/// What a module may be called: letters, digits and underscores, in parts with
/// one dot between each two, and not of the part that is reserved.
pub proof fn what_a_module_may_be_called(name: Seq<char>)
    ensures
        refusal(name) is None <==> {
            &&& name.len() > 0
            &&& name[0] != '.'
            &&& name.last() != '.'
            &&& forall|i: int|
                0 <= i < name.len() ==> {
                    ||| 'a' <= (#[trigger] name[i]) && name[i] <= 'z'
                    ||| 'A' <= name[i] && name[i] <= 'Z'
                    ||| '0' <= name[i] && name[i] <= '9'
                    ||| name[i] == '_'
                    ||| name[i] == '.'
                }
            &&& !text::contains(name, ".."@)
            &&& first_part(name) != "stdlib"@
        },
{
    assert forall|i: int| 0 <= i < name.len() implies (name_char(#[trigger] name[i]) || name[i]
        == '.' <==> {
        ||| 'a' <= name[i] && name[i] <= 'z'
        ||| 'A' <= name[i] && name[i] <= 'Z'
        ||| '0' <= name[i] && name[i] <= '9'
        ||| name[i] == '_'
        ||| name[i] == '.'
    }) by {}
}

/// The first part of a name ends at its first dot.
pub proof fn a_first_part_ends_at_the_dot(part: Seq<char>, rest: Seq<char>)
    requires
        !part.contains('.'),
    ensures
        first_part(part) == part,
        first_part(part + seq!['.'] + rest) == part,
{
    text::first_is_earliest(part, '.', 0);
    let s = part + seq!['.'] + rest;
    let n = part.len() as int;
    text::first_is_earliest(s, '.', 0);
    assert(s[n] == '.');
    assert forall|k: int| 0 <= k < n implies s[k] != '.' by {
        assert(s[k] == part[k]);
        assert(part.contains(part[k]));
    }
    assert(s.subrange(0, n) =~= part);
}

proof fn parted_at_the_last_dot(p: Seq<char>, ext: Seq<char>)
    requires
        !ext.contains('.'),
    ensures
        text::rsplit_once(p + seq!['.'] + ext, '.') == Some((p, ext)),
{
    let s = p + seq!['.'] + ext;
    let n = p.len() as int;
    text::last_is_latest(s, '.');
    assert(s[n] == '.');
    assert forall|k: int| n < k < s.len() implies s[k] != '.' by {
        assert(s[k] == ext[k - n - 1]);
        assert(ext.contains(ext[k - n - 1]));
    }
    assert(s.subrange(0, n) =~= p);
    assert(s.subrange(n + 1, s.len() as int) =~= ext);
}

/// Exactly the files with one of three extensions are modules or would be.
pub proof fn an_extension_makes_a_module(p: Seq<char>, ext: Seq<char>)
    requires
        !ext.contains('.'),
    ensures
        extension(p + seq!['.'] + ext) == (if ext == "dlua"@ || ext == "lua"@ || ext == "dluac"@ {
            Some(ext)
        } else {
            None
        }),
        stem(p + seq!['.'] + ext) == p,
        !p.contains('.') ==> extension(p) is None && stem(p) == p,
{
    parted_at_the_last_dot(p, ext);
    text::a_cut_loses_the_character_alone(p, '.');
}

/// A module is called by its path: the parts with a dot between each two.
pub proof fn a_module_is_called_by_its_path(p: Seq<char>, ext: Seq<char>)
    requires
        !ext.contains('.'),
    ensures
        name_of(p + seq!['.'] + ext) matches Ok(name) ==> name == text::joined(paths::parts(p), "."@)
            && refusal(name) is None,
        plain_parts(paths::parts(p)) && refusal(text::joined(paths::parts(p), "."@)) is None
            ==> name_of(p + seq!['.'] + ext) is Ok,
        !plain_parts(paths::parts(p)) ==> name_of(p + seq!['.'] + ext) is Err,
{
    an_extension_makes_a_module(p, ext);
}

/// What a file means: the program itself and what is no module mean nothing;
/// compiled modules are refused; and a source is a module under its name, with
/// its text.
pub proof fn what_a_file_means(
    dir: Seq<char>,
    entry: Option<Seq<char>>,
    path: Seq<char>,
    source: Seq<char>,
)
    ensures
        ({
            let b = vstd::utf8::encode_utf8(source);
            let what = meaning(dir, entry, ItemView::File(path, b));
            let shown = paths::shown(path);
            if entry == Some(path) || extension(shown) is None {
                what is Nothing
            } else if extension(shown) == Some("dluac"@) {
                what is Refused
            } else {
                match name_of(shown) {
                    Ok(name) => what == Meaning::Module(
                        ModuleView { name, file: shown, source },
                        b.len(),
                    ),
                    Err(why) => what == Meaning::Refused(why),
                }
            }
        }),
        meaning(dir, entry, ItemView::Dir(path)) is Nothing,
        forall|why: Seq<char>| #[trigger]
            meaning(dir, entry, ItemView::Unlisted(path, why)) is Refused,
{
    reveal(meaning);
    vstd::utf8::encode_utf8_valid_utf8(source);
    vstd::utf8::encode_utf8_decode_utf8(source);
}

proof fn ordered_has(ms: Seq<ModuleView>, m: ModuleView, x: ModuleView)
    ensures
        ordered(ms, m).contains(x) <==> x == m || ms.contains(x),
    decreases ms.len(),
{
    let all = ordered(ms, m);
    if ms.len() > 0 && text::before(m.name, ms.last().name) {
        let less = ms.drop_last();
        ordered_has(less, m, x);
        let p = ordered(less, m);
        if p.contains(x) {
            let k = choose|k: int| 0 <= k < p.len() && p[k] == x;
            assert(all[k] == x);
        }
        assert(all[p.len() as int] == ms.last());
        if ms.contains(x) {
            let k = choose|k: int| 0 <= k < ms.len() && ms[k] == x;
            if k < less.len() {
                assert(less[k] == x);
            }
        }
        if less.contains(x) {
            let k = choose|k: int| 0 <= k < less.len() && less[k] == x;
            assert(ms[k] == x);
        }
        assert(ms[ms.len() - 1] == ms.last());
        if all.contains(x) {
            let k = choose|k: int| 0 <= k < all.len() && all[k] == x;
            if k < p.len() {
                assert(p[k] == x);
            }
        }
    } else {
        assert(all[ms.len() as int] == m);
        if ms.contains(x) {
            let k = choose|k: int| 0 <= k < ms.len() && ms[k] == x;
            assert(all[k] == x);
        }
        if all.contains(x) {
            let k = choose|k: int| 0 <= k < all.len() && all[k] == x;
            if k < ms.len() {
                assert(ms[k] == x);
            }
        }
    }
}

proof fn collected_holds(
    dir: Seq<char>,
    entry: Option<Seq<char>>,
    items: Seq<ItemView>,
    i: int,
    found: Seq<ModuleView>,
    bytes: nat,
    x: ModuleView,
)
    requires
        0 <= i <= items.len(),
    ensures
        collected(dir, entry, items, i, found, bytes) matches Ok(ms) ==> {
            &&& forall|k: int|
                i <= k < items.len() ==> !(meaning(dir, entry, #[trigger] items[k]) is Refused)
            &&& ms.contains(x) <==> found.contains(x) || exists|k: int|
                i <= k < items.len() && (meaning(dir, entry, #[trigger] items[k])
                    matches Meaning::Module(m, _) && m == x)
        },
    decreases items.len() - i,
{
    if i < items.len() {
        match meaning(dir, entry, items[i]) {
            Meaning::Nothing => {
                collected_holds(dir, entry, items, i + 1, found, bytes, x);
            },
            Meaning::Refused(_) => {},
            Meaning::Module(m, n) => {
                collected_holds(dir, entry, items, i + 1, ordered(found, m), bytes + n, x);
                ordered_has(found, m, x);
            },
        }
    }
}

/// The modules that are found are exactly those that lie beside the program,
/// and nothing that has to be refused lies there.
pub proof fn every_module_is_found(
    dir: Seq<char>,
    entry: Option<Seq<char>>,
    items: Seq<ItemView>,
    x: ModuleView,
)
    ensures
        collected(dir, entry, items, 0, Seq::empty(), 0) matches Ok(ms) ==> {
            &&& forall|k: int|
                0 <= k < items.len() ==> !(meaning(dir, entry, #[trigger] items[k]) is Refused)
            &&& ms.contains(x) <==> exists|k: int|
                0 <= k < items.len() && (meaning(dir, entry, #[trigger] items[k])
                    matches Meaning::Module(m, _) && m == x)
        },
{
    collected_holds(dir, entry, items, 0, Seq::empty(), 0, x);
}

/// Something that has to be refused beside a program refuses it all.
pub proof fn a_refused_file_refuses_the_rest(
    dir: Seq<char>,
    entry: Option<Seq<char>>,
    items: Seq<ItemView>,
    k: int,
)
    requires
        0 <= k < items.len(),
        meaning(dir, entry, items[k]) is Refused,
    ensures
        collected(dir, entry, items, 0, Seq::empty(), 0) is Err,
{
    let x = ModuleView { name: Seq::empty(), file: Seq::empty(), source: Seq::empty() };
    collected_holds(dir, entry, items, 0, Seq::empty(), 0, x);
}

/// How many bytes of source the modules among some items hold together.
pub open spec fn source_bytes(
    dir: Seq<char>,
    entry: Option<Seq<char>>,
    items: Seq<ItemView>,
) -> nat {
    items.fold_left(
        0nat,
        |n: nat, item: ItemView|
            match meaning(dir, entry, item) {
                Meaning::Module(_, k) => n + k,
                _ => n,
            },
    )
}

proof fn bytes_of_push(
    dir: Seq<char>,
    entry: Option<Seq<char>>,
    items: Seq<ItemView>,
    i: int,
)
    requires
        0 <= i < items.len(),
    ensures
        source_bytes(dir, entry, items.subrange(0, i + 1)) == (match meaning(dir, entry, items[i]) {
            Meaning::Module(_, k) => source_bytes(dir, entry, items.subrange(0, i)) + k,
            _ => source_bytes(dir, entry, items.subrange(0, i)),
        }),
{
    reveal_with_fuel(Seq::fold_left, 2);
    assert(items.subrange(0, i + 1).drop_last() =~= items.subrange(0, i));
    assert(items.subrange(0, i + 1).last() == items[i]);
}

proof fn collected_fits(
    dir: Seq<char>,
    entry: Option<Seq<char>>,
    items: Seq<ItemView>,
    i: int,
    found: Seq<ModuleView>,
    bytes: nat,
)
    requires
        0 <= i <= items.len(),
        bytes == source_bytes(dir, entry, items.subrange(0, i)),
        bytes <= 16_777_216,
    ensures
        collected(dir, entry, items, i, found, bytes) is Ok ==> source_bytes(dir, entry, items)
            <= 16_777_216,
    decreases items.len() - i,
{
    if i < items.len() {
        bytes_of_push(dir, entry, items, i);
        match meaning(dir, entry, items[i]) {
            Meaning::Nothing => {
                collected_fits(dir, entry, items, i + 1, found, bytes);
            },
            Meaning::Refused(_) => {},
            Meaning::Module(m, n) => {
                if bytes + n <= MAX_BYTES {
                    collected_fits(dir, entry, items, i + 1, ordered(found, m), bytes + n);
                }
            },
        }
    } else {
        assert(items.subrange(0, i) =~= items);
    }
}

/// A node carries no more than a thousand modules and sixteen mebibytes of
/// their source.
pub proof fn a_node_carries_so_much(
    dir: Seq<char>,
    entry: Option<Seq<char>>,
    items: Seq<ItemView>,
)
    ensures
        collected(dir, entry, items, 0, Seq::empty(), 0) matches Ok(ms) ==> ms.len() <= 1_000
            && source_bytes(dir, entry, items) <= 16 * 1024 * 1024,
{
    found_modules_are_in_order(dir, entry, items);
    reveal_with_fuel(Seq::fold_left, 1);
    assert(items.subrange(0, 0).len() == 0);
    collected_fits(dir, entry, items, 0, Seq::empty(), 0);
}

/// A program's modules lie where it does.
pub proof fn modules_lie_beside_their_program(dir: Seq<char>, name: Seq<char>)
    requires
        paths::is_name(name),
        dir.len() > 0,
        dir.last() != '/',
        !(dir.len() > 1 && dir.last() == '.' && dir[dir.len() - 2] == '/'),
    ensures
        node_dir(dir + "/"@ + name) == dir,
        node_dir(name) == "."@,
        own_name(dir + "/"@ + name) == name,
        own_name(name) == name,
{
    paths::a_name_is_the_last_part(dir, name);
}

/// A long bracket of a level is that many `=` between two of its brackets.
pub proof fn a_long_bracket_has_its_level(n: nat)
    ensures
        opening(n).len() == n + 2,
        closing(n).len() == n + 2,
        opening(n)[0] == '[' && opening(n).last() == '[',
        closing(n)[0] == ']' && closing(n).last() == ']',
        forall|i: int| 1 <= i <= n ==> (#[trigger] opening(n)[i]) == '=',
        forall|i: int| 1 <= i <= n ==> (#[trigger] closing(n)[i]) == '=',
{
    reveal_strlit("[");
    reveal_strlit("]");
}

/// Inside a short string every character stands for itself but for the quote,
/// the backslash and the control characters, which stand as their escapes.
pub proof fn a_character_stands_for_itself(c: char)
    ensures
        escaped('"') == seq!['\\', '"'],
        escaped('\\') == seq!['\\', '\\'],
        escaped('\n') == seq!['\\', 'n'],
        escaped('\r') == seq!['\\', 'r'],
        escaped('\t') == seq!['\\', 't'],
        c as u32 >= 0x20 && c != '"' && c != '\\' ==> escaped(c) == seq![c],
        (c as u32) < 0x20 && c != '\n' && c != '\r' && c != '\t' ==> escaped(c) == seq![
            '\\',
            '0',
            (48 + c as u32 / 10) as char,
            (48 + c as u32 % 10) as char,
        ],
{
    reveal_strlit("\\\"");
    reveal_strlit("\\\\");
    reveal_strlit("\\n");
    reveal_strlit("\\r");
    reveal_strlit("\\t");
    reveal_strlit("\\0");
    assert(escaped('"') =~= seq!['\\', '"']);
    assert(escaped('\\') =~= seq!['\\', '\\']);
    assert(escaped('\n') =~= seq!['\\', 'n']);
    assert(escaped('\r') =~= seq!['\\', 'r']);
    assert(escaped('\t') =~= seq!['\\', 't']);
    if (c as u32) < 0x20 && c != '\n' && c != '\r' && c != '\t' {
        assert(escaped(c) =~= seq![
            '\\',
            '0',
            (48 + c as u32 / 10) as char,
            (48 + c as u32 % 10) as char,
        ]);
    }
}

/// A short string is its characters, one behind the other, between quotes.
pub proof fn a_short_string_is_its_characters(s: Seq<char>, c: char)
    ensures
        quoted(Seq::empty()) == "\""@ + "\""@,
        escaped_all(s.push(c)) == escaped_all(s) + escaped(c),
        quoted(s) == "\""@ + escaped_all(s) + "\""@,
{
    assert(s.push(c).drop_last() =~= s);
    assert(quoted(Seq::empty()) =~= "\""@ + "\""@);
}

proof fn entries_hold(ms: Seq<ModuleView>, i: int)
    requires
        0 <= i < ms.len(),
        module_entries(ms) is Some,
    ensures
        level(ms[i].source, 0) is Some,
        text::contains(module_entries(ms)->0, module_entry(ms[i], level(ms[i].source, 0)->0)),
    decreases ms.len(),
{
    let less = ms.drop_last();
    let all = module_entries(ms)->0;
    let rest = module_entries(less)->0;
    if i < less.len() {
        entries_hold(less, i);
        assert(less[i] == ms[i]);
        let e = module_entry(ms[i], level(ms[i].source, 0)->0);
        let at = choose|at: int| text::stands_at(rest, e, at);
        assert(all.subrange(at, at + e.len()) =~= rest.subrange(at, at + e.len()));
        assert(text::stands_at(all, e, at));
    } else {
        let e = module_entry(ms[i], level(ms[i].source, 0)->0);
        assert(all.subrange(rest.len() as int, (rest.len() + e.len()) as int) =~= e);
        assert(text::stands_at(all, e, rest.len() as int));
    }
}

/// The chunk carries every module, under its name and its file, and the whole
/// of its source between brackets that it cannot end.
pub proof fn the_chunk_carries_every_module(
    dir: Seq<char>,
    ms: Seq<ModuleView>,
    source: Seq<char>,
    file: Seq<char>,
    i: int,
)
    requires
        0 <= i < ms.len(),
        chunk(dir, ms, source, file) is Ok,
    ensures
        level(ms[i].source, 0) is Some,
        ({
            let n = level(ms[i].source, 0)->0 as nat;
            text::contains(
                chunk(dir, ms, source, file)->Ok_0,
                "  { name = "@ + quoted(ms[i].name) + ", file = "@ + quoted(ms[i].file)
                    + ", src = "@ + (opening(n) + "\n"@ + ms[i].source + closing(n)) + " },\n"@,
            )
        }),
{
    entries_hold(ms, i);
    let all = chunk(dir, ms, source, file)->Ok_0;
    let head = preamble(ms.len(), dir);
    let mid = module_entries(ms)->0;
    let e = module_entry(ms[i], level(ms[i].source, 0)->0);
    let at = choose|at: int| text::stands_at(mid, e, at);
    assert(all.subrange(head.len() + at, head.len() + at + e.len()) =~= mid.subrange(
        at,
        at + e.len(),
    ));
    assert(text::stands_at(all, e, head.len() + at));
}

/// The chunk ends in the program: the whole of its source, loaded under its
/// own name and called.
pub proof fn the_chunk_ends_in_the_program(
    dir: Seq<char>,
    ms: Seq<ModuleView>,
    source: Seq<char>,
    file: Seq<char>,
)
    requires
        chunk(dir, ms, source, file) is Ok,
    ensures
        level(source, 0) is Some,
        ({
            let n = level(source, 0)->0 as nat;
            text::ends(
                chunk(dir, ms, source, file)->Ok_0,
                "\nlocal __entry, __entry_why = load("@ + (opening(n) + "\n"@ + source + closing(n))
                    + ", "@ + quoted(file)
                    + ")\nif not __entry then error(tostring(__entry_why), 0) end\nreturn __entry()\n"@,
            )
        }),
        text::begins(chunk(dir, ms, source, file)->Ok_0, preamble(ms.len(), dir)),
{
    let all = chunk(dir, ms, source, file)->Ok_0;
    let tail = program_entry(source, file, level(source, 0)->0);
    let head = preamble(ms.len(), dir);
    assert(all.subrange(all.len() - tail.len(), all.len() as int) =~= tail);
    assert(all.subrange(0, head.len() as int) =~= head);
}

/// A program without modules is loaded as it is, under its own name, and one
/// with modules as the chunk that carries them.
pub proof fn a_program_is_loaded_with_its_modules(
    program: Seq<char>,
    source: Seq<char>,
    dir: Seq<char>,
    ms: Seq<ModuleView>,
)
    ensures
        ms.len() == 0 ==> load_of(program, source, dir, ms) == Ok::<LoadedView, Seq<char>>(
            LoadedView { source, name: own_name(program), modules: 0 },
        ),
        ms.len() > 0 ==> (load_of(program, source, dir, ms) is Ok <==> chunk(
            dir,
            ms,
            source,
            own_name(program),
        ) is Ok),
        ms.len() > 0 && load_of(program, source, dir, ms) is Ok ==> load_of(
            program,
            source,
            dir,
            ms,
        )->Ok_0 == (LoadedView {
            source: chunk(dir, ms, source, own_name(program))->Ok_0,
            name: "=drt:modules"@,
            modules: ms.len(),
        }),
{
}

/// A load that is wanted has the wanted source, under the wanted name, with as
/// many modules; one that is not to be had says why.
pub proof fn a_load_is_the_one_wanted(
    r: Result<Loaded, String>,
    want: Result<LoadedView, Seq<char>>,
)
    requires
        loads(r, want),
    ensures
        r is Ok <==> want is Ok,
        r matches Ok(l) ==> want->Ok_0.source == l.source@ && want->Ok_0.name == l.name@
            && want->Ok_0.modules == l.modules,
        r matches Err(why) ==> want->Err_0 == why@,
{
}

proof fn no_level_is_free(source: Seq<char>, n: int)
    requires
        0 <= n <= 65,
    ensures
        level(source, n) is None <==> forall|k: int|
            n <= k <= 64 ==> #[trigger] ends_early(source, k as nat),
        level(source, n) matches Some(m) ==> n <= m <= 64 && !ends_early(source, m as nat)
            && forall|k: int| n <= k < m ==> #[trigger] ends_early(source, k as nat),
    decreases 65 - n,
{
    if n <= 64 && ends_early(source, n as nat) {
        no_level_is_free(source, n + 1);
    }
}

/// A source is embedded at the first level, up to the sixty-fourth, that it
/// does not close by itself, and cannot be embedded where it closes each.
pub proof fn a_source_is_embedded_at_the_first_free_level(source: Seq<char>)
    ensures
        level(source, 0) is None <==> forall|k: int|
            0 <= k <= 64 ==> #[trigger] ends_early(source, k as nat),
        level(source, 0) matches Some(m) ==> 0 <= m <= 64 && !ends_early(source, m as nat)
            && forall|k: int| 0 <= k < m ==> #[trigger] ends_early(source, k as nat),
{
    no_level_is_free(source, 0);
}

/// A name that no module may have is refused for the first thing that is wrong
/// with it.
pub proof fn a_refused_name_says_why(name: Seq<char>)
    ensures
        refusal(Seq::empty()) == Some("a module name may not be empty"@),
        name.len() > 0 && text::contains(name, ".."@) ==> refusal(name) == Some(
            "`..` is not a module name component"@,
        ),
        name.len() > 0 && !text::contains(name, ".."@) && (name[0] == '.' || name.last() == '.')
            ==> refusal(name) == Some("a module name may not begin or end with `.`"@),
        name.len() > 0 && !text::contains(name, ".."@) && name[0] != '.' && name.last() != '.'
            && !name_chars(name) ==> refusal(name) == Some(
            "a module name holds letters, digits, `_` and the `.` between components"@,
        ),
        name.len() > 0 && !text::contains(name, ".."@) && name[0] != '.' && name.last() != '.'
            && name_chars(name) && first_part(name) == "stdlib"@ ==> refusal(name) == Some(
            "`stdlib` is reserved -- a stdlib program is reached by the `stdlib:` entry spelling, never by require"@,
        ),
        unembeddable()
            == "this source cannot be embedded: it contains every long-bracket close from `]]` to 64 `=` deep"@,
{
}

} // verus!
