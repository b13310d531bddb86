//! Grants: what a ceiling allows and what it denies.

use vstd::prelude::*;

verus! {

/// Whether a grant allows or denies.
#[derive(Clone, Copy, Debug, PartialEq, Eq, Structural)]
pub enum Effect {
    Grant,
    Deny,
}

/// One line of a ceiling.
#[derive(Debug)]
pub struct Grant {
    pub effect: Effect,
    pub capability: String,
}

/// What a grant is.
#[verifier::ext_equal]
pub struct GrantView {
    pub effect: Effect,
    pub capability: Seq<char>,
}

impl Grant {
    /// The grant, as mathematics.
    pub open spec fn view(&self) -> GrantView {
        GrantView { effect: self.effect, capability: self.capability@ }
    }

    /// A grant that allows.
    pub fn grant(capability: &str) -> (r: Grant)
        ensures
            r@ == (GrantView { effect: Effect::Grant, capability: capability@ }),
    {
        Grant { effect: Effect::Grant, capability: capability.to_owned() }
    }

    /// A grant that denies.
    pub fn deny(capability: &str) -> (r: Grant)
        ensures
            r@ == (GrantView { effect: Effect::Deny, capability: capability@ }),
    {
        Grant { effect: Effect::Deny, capability: capability.to_owned() }
    }
}

/// The grants of a ceiling, as mathematics.
pub open spec fn views(gs: Seq<Grant>) -> Seq<GrantView> {
    gs.map_values(|g: Grant| g@)
}

/// The capabilities of the grants with an effect, in order.
pub open spec fn with_effect(gs: Seq<GrantView>, e: Effect) -> Seq<Seq<char>>
    decreases gs.len(),
{
    if gs.len() == 0 {
        Seq::empty()
    } else if gs.last().effect == e {
        with_effect(gs.drop_last(), e).push(gs.last().capability)
    } else {
        with_effect(gs.drop_last(), e)
    }
}

/// The capabilities of the grants with an effect, in order.
pub fn select(gs: &Vec<Grant>, e: Effect) -> (r: Vec<String>)
    ensures
        crate::text::texts(r@) == with_effect(views(gs@), e),
{
    let ghost all = views(gs@);
    let mut r: Vec<String> = Vec::new();
    let mut i: usize = 0;
    assert(crate::text::texts(r@) =~= with_effect(all.subrange(0, 0), e));
    while i < gs.len()
        invariant
            i <= gs.len(),
            all == views(gs@),
            crate::text::texts(r@) == with_effect(all.subrange(0, i as int), e),
        decreases gs.len() - i,
    {
        let ghost now = all.subrange(0, i + 1);
        let ghost before = r@;
        assert(now.drop_last() == all.subrange(0, i as int));
        assert(now.last() == gs@[i as int]@);
        if gs[i].effect == e {
            r.push(gs[i].capability.clone());
            assert(crate::text::texts(r@) =~= crate::text::texts(before).push(
                gs@[i as int].capability@,
            ));
        }
        i = i + 1;
    }
    assert(all.subrange(0, all.len() as int) == all);
    r
}

/// A copy of the grants.
pub fn copied(gs: &Vec<Grant>) -> (r: Vec<Grant>)
    ensures
        views(r@) == views(gs@),
{
    let mut r: Vec<Grant> = Vec::new();
    let mut i: usize = 0;
    while i < gs.len()
        invariant
            i <= gs.len(),
            r.len() == i,
            forall|k: int| 0 <= k < i ==> (#[trigger] r@[k])@ == gs@[k]@,
        decreases gs.len() - i,
    {
        r.push(Grant { effect: gs[i].effect, capability: gs[i].capability.clone() });
        i = i + 1;
    }
    assert(views(r@) =~= views(gs@));
    r
}

// ---- laws ----

/// The capabilities with an effect are those of exactly the grants that have
/// it, in their order.
pub proof fn an_effect_selects_its_grants(gs: Seq<GrantView>, e: Effect)
    ensures
        with_effect(gs, e) == gs.filter(|g: GrantView| g.effect == e).map_values(
            |g: GrantView| g.capability,
        ),
        with_effect(gs, Effect::Grant).len() + with_effect(gs, Effect::Deny).len() == gs.len(),
    decreases gs.len(),
{
    reveal(Seq::filter);
    let p = |g: GrantView| g.effect == e;
    let f = |g: GrantView| g.capability;
    if gs.len() > 0 {
        let rest = gs.drop_last();
        an_effect_selects_its_grants(rest, e);
        if gs.last().effect == e {
            assert(gs.filter(p).map_values(f) =~= rest.filter(p).map_values(f).push(
                gs.last().capability,
            ));
        }
    } else {
        assert(gs.filter(p).map_values(f) =~= Seq::empty());
    }
}

} // verus!
