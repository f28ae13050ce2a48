//! Facts that relate several calls on a [`OneToMany`], stated over the view
//! that the methods' own contracts use: `link` inserts into the view,
//! `unlink` removes from it, `unlink_source` removes every target of a source.
use crate::relation::OneToMany;
use vstd::prelude::*;

verus! {

/// The two directions of a relation agree: `t` is among the targets of `s`
/// exactly when `s` is the source of `t`, so no target is owned by two
/// sources.
pub proof fn lemma_views_agree<S, T>(r: OneToMany<S, T>, s: nat, s2: nat, t: nat)
    ensures
        r.targets_of(s).contains(t) <==> r.source_of(t) == Some(s),
        s != s2 ==> !(r.targets_of(s).contains(t) && r.targets_of(s2).contains(t)),
{
}

/// Linking a target to one source and then to another leaves it with the
/// second source only.
pub proof fn lemma_link_moves_target<S, T>(
    a: OneToMany<S, T>,
    b: OneToMany<S, T>,
    c: OneToMany<S, T>,
    s1: nat,
    s2: nat,
    t: nat,
)
    requires
        b@ == a@.insert(t, s1),
        c@ == b@.insert(t, s2),
        s1 != s2,
    ensures
        c.source_of(t) == Some(s2),
        !c.targets_of(s1).contains(t),
        c.targets_of(s2).contains(t),
{
}

/// Linking the same pair twice leaves the relation as one link did; on an
/// empty relation `s` then owns `t` alone.
pub proof fn lemma_relink_is_idempotent<S, T>(
    a: OneToMany<S, T>,
    b: OneToMany<S, T>,
    c: OneToMany<S, T>,
    s: nat,
    t: nat,
)
    requires
        b@ == a@.insert(t, s),
        c@ == b@.insert(t, s),
    ensures
        c@ == b@,
        c.source_of(t) == Some(s),
        c.targets_of(s) == a.targets_of(s).insert(t),
        a@ == Map::<nat, nat>::empty() ==> c.targets_of(s) == set![t],
{
    assert(b@.insert(t, s) =~= b@);
    assert(c.targets_of(s) =~= a.targets_of(s).insert(t));
    if a@ == Map::<nat, nat>::empty() {
        assert(a.targets_of(s) =~= Set::<nat>::empty());
        assert(c.targets_of(s) =~= set![t]);
    }
}

/// Unlinking a target that has no source changes nothing.
pub proof fn lemma_unlink_unknown_is_noop<S, T>(a: OneToMany<S, T>, b: OneToMany<S, T>, t: nat)
    requires
        a.source_of(t) is None,
        b@ == a@.remove(t),
    ensures
        b@ == a@,
{
    assert(b@ =~= a@);
}

/// Linking two targets to a source and then unlinking the source leaves the
/// source with no targets and both targets with no source.
pub proof fn lemma_cascade<S, T>(
    a: OneToMany<S, T>,
    b: OneToMany<S, T>,
    c: OneToMany<S, T>,
    d: OneToMany<S, T>,
    s0: nat,
    t0: nat,
    t1: nat,
)
    requires
        b@ == a@.insert(t0, s0),
        c@ == b@.insert(t1, s0),
        d@ == c@.remove_keys(c.targets_of(s0)),
    ensures
        d.source_of(t0) is None,
        d.source_of(t1) is None,
        d.targets_of(s0) == Set::<nat>::empty(),
{
    assert(c.targets_of(s0).contains(t0));
    assert(c.targets_of(s0).contains(t1));
    assert(d.targets_of(s0) =~= Set::<nat>::empty());
}

/// In a new relation no source owns a target and no target has a source.
pub proof fn lemma_fresh_is_empty<S, T>(r: OneToMany<S, T>, s: nat, t: nat)
    requires
        r@ == Map::<nat, nat>::empty(),
    ensures
        r.targets_of(s) == Set::<nat>::empty(),
        r.source_of(t) is None,
{
    assert(r.targets_of(s) =~= Set::<nat>::empty());
}

/// A step that names neither `s` nor `t` (a `link` of `src` and `tgt`, an
/// `unlink` of `tgt` or an `unlink_source` of `src`) leaves a source `s`
/// that owns nothing owning nothing, and a target `t` with no source
/// without one: ids that were never referenced stay empty.
pub proof fn lemma_unreferenced_stay_empty<S, T>(
    a: OneToMany<S, T>,
    b: OneToMany<S, T>,
    s: nat,
    t: nat,
    src: nat,
    tgt: nat,
)
    requires
        a.targets_of(s) == Set::<nat>::empty(),
        a.source_of(t) is None,
        src != s,
        tgt != t,
        b@ == a@.insert(tgt, src) || b@ == a@.remove(tgt) || b@ == a@.remove_keys(
            a.targets_of(src),
        ),
    ensures
        b.targets_of(s) == Set::<nat>::empty(),
        b.source_of(t) is None,
{
    assert forall|x: nat| !#[trigger] b.targets_of(s).contains(x) by {
        if b.targets_of(s).contains(x) {
            assert(a.targets_of(s).contains(x));
        }
    }
    assert(b.targets_of(s) =~= Set::<nat>::empty());
}

} // verus!
