//! What holds of the slots of a scope, whatever was resolved in it: no slot
//! reaches the count of slots, no two names share one, and every slot that
//! was taken from the scope around belongs to a name. While a comprehension
//! is open this holds of the scope as it will be once the comprehension is
//! closed.

use vstd::prelude::*;
use crate::eval::scope::{private_after, scoped_after, ScopeModel, Visibility};

verus! {

/// Some name of the scope lives in `slot`.
pub open spec fn named(s: ScopeModel, slot: usize) -> bool {
    exists|n: Seq<char>| s.mp.dom().contains(n) && #[trigger] s.mp[n] == slot
}

/// The slots of the scope are in order: every slot of a name is below the
/// count of slots, no two names share a slot, every slot that was taken
/// from the scope around is below the count and is the slot of a name, and
/// no two of them are the same.
pub open spec fn sound(s: ScopeModel) -> bool {
    &&& forall|n: Seq<char>| s.mp.dom().contains(n) ==> #[trigger] s.mp[n] < s.used
    &&& forall|a: Seq<char>, b: Seq<char>|
        s.mp.dom().contains(a) && s.mp.dom().contains(b) && a != b ==> #[trigger] s.mp[a]
            != #[trigger] s.mp[b]
    &&& forall|i: int|
        0 <= i < s.parent.len() ==> (#[trigger] s.parent[i]).1 < s.used && named(
            s,
            s.parent[i].1,
        )
    &&& forall|i: int, j: int|
        0 <= i < j < s.parent.len() ==> (#[trigger] s.parent[i]).1 != (#[trigger] s.parent[j]).1
}

/// The scope with a count of slots of `used`.
pub open spec fn with_used(s: ScopeModel, used: usize) -> ScopeModel {
    ScopeModel { used, mp: s.mp, parent: s.parent }
}

/// Each name of `undo` is bound at the time its record is put back, last
/// recorded first.
pub open spec fn bound_records(s: ScopeModel, undo: Seq<(Seq<char>, Option<usize>)>) -> bool
    decreases undo.len(),
{
    undo.len() == 0 || (s.mp.dom().contains(undo.last().0) && bound_records(
        s.restore(undo.last()),
        undo.drop_last(),
    ))
}

/// Once every open comprehension is closed, innermost first, every scope is
/// sound. `frames` are the records of the open comprehensions and `owners`
/// the index of the scope that each was entered in.
pub open spec fn settles(
    locals: Seq<ScopeModel>,
    frames: Seq<Seq<(Seq<char>, Option<usize>)>>,
    owners: Seq<int>,
) -> bool
    decreases frames.len(),
{
    owners.len() == frames.len() && if frames.len() == 0 {
        forall|j: int| 0 <= j < locals.len() ==> sound(#[trigger] locals[j])
    } else {
        let o = owners.last();
        0 <= o < locals.len() && bound_records(locals[o], frames.last()) && settles(
            locals.update(o, locals[o].unscope(frames.last())),
            frames.drop_last(),
            owners.drop_last(),
        )
    }
}

/// A sound scope stays sound when it gets more slots.
pub proof fn lemma_sound_with_used(s: ScopeModel, used: usize)
    requires
        sound(s),
        s.used <= used,
    ensures
        sound(with_used(s, used)),
{
    let t = with_used(s, used);
    assert forall|i: int| 0 <= i < t.parent.len() implies (#[trigger] t.parent[i]).1 < t.used
        && named(t, t.parent[i].1) by {
        assert(named(s, s.parent[i].1));
        let n = choose|n: Seq<char>| s.mp.dom().contains(n) && #[trigger] s.mp[n] == s.parent[i].1;
        assert(t.mp.dom().contains(n) && t.mp[n] == t.parent[i].1);
    }
}

/// A sound scope stays sound when a name that it does not bind takes the
/// next free slot, be it on its own or from the scope around.
pub proof fn lemma_sound_fresh(s: ScopeModel, name: Seq<char>, from: usize)
    requires
        sound(s),
        s.used < usize::MAX,
        !s.mp.dom().contains(name),
    ensures
        sound(s.bind_fresh(name)),
        sound(s.copy_parent(from, name)),
{
    let t = s.bind_fresh(name);
    let c = s.copy_parent(from, name);
    assert(t.mp.dom().contains(name) && t.mp[name] == s.used);
    assert forall|i: int| 0 <= i < t.parent.len() implies (#[trigger] t.parent[i]).1 < t.used
        && named(t, t.parent[i].1) by {
        assert(named(s, s.parent[i].1));
        let n = choose|n: Seq<char>| s.mp.dom().contains(n) && #[trigger] s.mp[n] == s.parent[i].1;
        assert(t.mp.dom().contains(n) && t.mp[n] == t.parent[i].1);
    }
    assert forall|i: int| 0 <= i < c.parent.len() implies (#[trigger] c.parent[i]).1 < c.used
        && named(c, c.parent[i].1) by {
        if i < s.parent.len() {
            assert(named(s, s.parent[i].1));
            let n = choose|n: Seq<char>|
                s.mp.dom().contains(n) && #[trigger] s.mp[n] == s.parent[i].1;
            assert(c.mp.dom().contains(n) && c.mp[n] == c.parent[i].1);
        } else {
            assert(c.mp.dom().contains(name) && c.mp[name] == c.parent[i].1);
        }
    }
    assert forall|i: int, j: int| 0 <= i < j < c.parent.len() implies (#[trigger] c.parent[i]).1 != (
    #[trigger] c.parent[j]).1 by {
        if j == s.parent.len() {
            assert(s.parent[i].1 < s.used);
        }
    }
}

/// A sound scope stays sound when names are added to it.
pub proof fn lemma_sound_add_names(s: ScopeModel, names: Seq<Seq<char>>)
    requires
        sound(s),
        s.used + names.len() <= usize::MAX,
    ensures
        sound(s.add_names(names)),
        s.add_names(names).used <= s.used + names.len(),
    decreases names.len(),
{
    if names.len() > 0 {
        lemma_sound_add_names(s, names.drop_last());
        let prev = s.add_names(names.drop_last());
        if !prev.mp.dom().contains(names.last()) {
            lemma_sound_fresh(prev, names.last(), 0);
        }
    }
}

/// A sound scope stays sound when the private names of a module are added
/// to it.
pub proof fn lemma_sound_private_after(s: ScopeModel, defines: Seq<(Seq<char>, Visibility)>)
    requires
        sound(s),
        s.used + defines.len() <= usize::MAX,
    ensures
        sound(private_after(s, defines)),
        private_after(s, defines).used <= s.used + defines.len(),
    decreases defines.len(),
{
    if defines.len() > 0 {
        lemma_sound_private_after(s, defines.drop_last());
        let prev = private_after(s, defines.drop_last());
        let d = defines.last();
        if d.1 == Visibility::Private && !prev.mp.dom().contains(d.0) {
            lemma_sound_fresh(prev, d.0, 0);
        }
    }
}

/// Putting records back does not look at the count of slots.
pub proof fn lemma_unscope_with_used(
    s: ScopeModel,
    undo: Seq<(Seq<char>, Option<usize>)>,
    used: usize,
)
    ensures
        with_used(s, used).unscope(undo) == with_used(s.unscope(undo), used),
        bound_records(with_used(s, used), undo) == bound_records(s, undo),
    decreases undo.len(),
{
    if undo.len() > 0 {
        assert(with_used(s, used).restore(undo.last()) == with_used(s.restore(undo.last()), used));
        lemma_unscope_with_used(s.restore(undo.last()), undo.drop_last(), used);
    }
}

/// A name that the scope does not bind, and takes from the scope around,
/// is in no record: putting the records back leaves it where it is.
pub proof fn lemma_copy_through(
    s: ScopeModel,
    undo: Seq<(Seq<char>, Option<usize>)>,
    from: usize,
    name: Seq<char>,
)
    requires
        bound_records(s, undo),
        !s.mp.dom().contains(name),
    ensures
        bound_records(s.copy_parent(from, name), undo),
        s.copy_parent(from, name).unscope(undo) == s.unscope(undo).copy_parent(from, name),
        !s.unscope(undo).mp.dom().contains(name),
        s.unscope(undo).used == s.used,
    decreases undo.len(),
{
    if undo.len() > 0 {
        let r = undo.last();
        let a = s.copy_parent(from, name).restore(r);
        let b = s.restore(r).copy_parent(from, name);
        assert(a.mp =~= b.mp);
        assert(a == b);
        lemma_copy_through(s.restore(r), undo.drop_last(), from, name);
    }
}

/// The variables of a comprehension are all in its record: putting the
/// record back gives the scope as it was, but for the slots that were
/// used up.
pub proof fn lemma_scoped_after(
    s: ScopeModel,
    undo: Seq<(Seq<char>, Option<usize>)>,
    vars: Seq<Seq<char>>,
)
    requires
        bound_records(s, undo),
    ensures
        bound_records(scoped_after(s, undo, vars).0, scoped_after(s, undo, vars).1),
        scoped_after(s, undo, vars).0.unscope(scoped_after(s, undo, vars).1) == with_used(
            s.unscope(undo),
            scoped_after(s, undo, vars).0.used,
        ),
    decreases vars.len(),
{
    if vars.len() == 0 {
        lemma_unscope_with_used(s, undo, s.used);
        assert(with_used(s, s.used) == s);
    } else {
        let prev = scoped_after(s, undo, vars.drop_last());
        let now = scoped_after(s, undo, vars);
        let name = vars.last();
        lemma_scoped_after(s, undo, vars.drop_last());
        let r = now.1.last();
        assert(now.1.drop_last() =~= prev.1);
        let back = now.0.restore(r);
        assert(back.mp =~= prev.0.mp);
        assert(back == with_used(prev.0, now.0.used));
        lemma_unscope_with_used(prev.0, prev.1, now.0.used);
        lemma_unscope_with_used(s.unscope(undo), Seq::empty(), now.0.used);
    }
}

/// Scopes that settle still do when one of them gets more slots.
pub proof fn lemma_settles_with_used(
    locals: Seq<ScopeModel>,
    frames: Seq<Seq<(Seq<char>, Option<usize>)>>,
    owners: Seq<int>,
    j: int,
    used: usize,
)
    requires
        settles(locals, frames, owners),
        0 <= j < locals.len(),
        locals[j].used <= used,
    ensures
        settles(locals.update(j, with_used(locals[j], used)), frames, owners),
    decreases frames.len(),
{
    let after = locals.update(j, with_used(locals[j], used));
    if frames.len() == 0 {
        lemma_sound_with_used(locals[j], used);
        assert forall|k: int| 0 <= k < after.len() implies sound(#[trigger] after[k]) by {
            if k != j {
                assert(after[k] == locals[k]);
            }
        }
    } else {
        let o = owners.last();
        let f = frames.last();
        let next = locals.update(o, locals[o].unscope(f));
        if o == j {
            lemma_unscope_with_used(locals[j], f, used);
            lemma_unscope_used(locals[j], f);
            lemma_settles_with_used(next, frames.drop_last(), owners.drop_last(), j, used);
            assert(after.update(o, after[o].unscope(f)) =~= next.update(
                j,
                with_used(next[j], used),
            ));
        } else {
            lemma_settles_with_used(next, frames.drop_last(), owners.drop_last(), j, used);
            assert(after.update(o, after[o].unscope(f)) =~= next.update(
                j,
                with_used(next[j], used),
            ));
        }
    }
}

/// Putting records back leaves the count of slots and the slots taken from
/// the scope around as they are.
pub proof fn lemma_unscope_used(s: ScopeModel, undo: Seq<(Seq<char>, Option<usize>)>)
    ensures
        s.unscope(undo).used == s.used,
        s.unscope(undo).parent == s.parent,
    decreases undo.len(),
{
    if undo.len() > 0 {
        lemma_unscope_used(s.restore(undo.last()), undo.drop_last());
    }
}

/// Scopes that settle still do when one of them takes a name that it does
/// not bind from the scope around.
pub proof fn lemma_settles_capture(
    locals: Seq<ScopeModel>,
    frames: Seq<Seq<(Seq<char>, Option<usize>)>>,
    owners: Seq<int>,
    j: int,
    from: usize,
    name: Seq<char>,
)
    requires
        settles(locals, frames, owners),
        0 <= j < locals.len(),
        locals[j].used < usize::MAX,
        !locals[j].mp.dom().contains(name),
    ensures
        settles(locals.update(j, locals[j].copy_parent(from, name)), frames, owners),
    decreases frames.len(),
{
    let after = locals.update(j, locals[j].copy_parent(from, name));
    if frames.len() == 0 {
        lemma_sound_fresh(locals[j], name, from);
        assert forall|k: int| 0 <= k < after.len() implies sound(#[trigger] after[k]) by {
            if k != j {
                assert(after[k] == locals[k]);
            }
        }
    } else {
        let o = owners.last();
        let f = frames.last();
        let next = locals.update(o, locals[o].unscope(f));
        if o == j {
            lemma_copy_through(locals[j], f, from, name);
        }
        lemma_settles_capture(next, frames.drop_last(), owners.drop_last(), j, from, name);
        assert(after.update(o, after[o].unscope(f)) =~= next.update(
            j,
            next[j].copy_parent(from, name),
        ));
    }
}

/// Scopes that settle still do with a sound scope inside them all.
pub proof fn lemma_settles_push(
    locals: Seq<ScopeModel>,
    frames: Seq<Seq<(Seq<char>, Option<usize>)>>,
    owners: Seq<int>,
    inner: ScopeModel,
)
    requires
        settles(locals, frames, owners),
        sound(inner),
    ensures
        settles(locals.push(inner), frames, owners),
    decreases frames.len(),
{
    let after = locals.push(inner);
    if frames.len() == 0 {
        assert forall|k: int| 0 <= k < after.len() implies sound(#[trigger] after[k]) by {
            if k < locals.len() {
                assert(after[k] == locals[k]);
            }
        }
    } else {
        let o = owners.last();
        let f = frames.last();
        let next = locals.update(o, locals[o].unscope(f));
        lemma_settles_push(next, frames.drop_last(), owners.drop_last(), inner);
        assert(after.update(o, after[o].unscope(f)) =~= next.push(inner));
    }
}

/// Scopes that settle still do without the innermost, where no open
/// comprehension was entered in it; and the innermost is sound.
pub proof fn lemma_settles_pop(
    locals: Seq<ScopeModel>,
    frames: Seq<Seq<(Seq<char>, Option<usize>)>>,
    owners: Seq<int>,
)
    requires
        settles(locals, frames, owners),
        locals.len() > 0,
        forall|i: int| 0 <= i < owners.len() ==> #[trigger] owners[i] != locals.len() - 1,
    ensures
        settles(locals.drop_last(), frames, owners),
        sound(locals.last()),
    decreases frames.len(),
{
    let after = locals.drop_last();
    if frames.len() == 0 {
        assert forall|k: int| 0 <= k < after.len() implies sound(#[trigger] after[k]) by {
            assert(after[k] == locals[k]);
        }
        assert(sound(locals[locals.len() - 1]));
    } else {
        let o = owners.last();
        let f = frames.last();
        assert(owners[owners.len() - 1] != locals.len() - 1);
        let next = locals.update(o, locals[o].unscope(f));
        assert forall|i: int| 0 <= i < owners.drop_last().len() implies #[trigger] owners.drop_last()[i]
            != next.len() - 1 by {
            assert(owners[i] != locals.len() - 1);
        }
        lemma_settles_pop(next, frames.drop_last(), owners.drop_last());
        assert(after.update(o, after[o].unscope(f)) =~= next.drop_last());
        assert(next.last() == locals.last());
    }
}

} // verus!
