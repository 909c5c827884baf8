//! Lists that were picked out of others.

use vstd::prelude::*;

verus! {

/// Whether a list was picked out of another at these places: they rise, `p` relates what stands at each
/// to what was made of it, and nothing that `p` relates to anything was passed over.
pub open spec fn picked_at<A, B>(list: Seq<A>, picked: Seq<B>, p: spec_fn(A, B) -> bool, at: Seq<int>) -> bool {
    &&& at.len() == picked.len()
    &&& forall|k: int| 0 <= k < at.len() ==> 0 <= #[trigger] at[k] < list.len() && p(list[at[k]], picked[k])
    &&& forall|j: int, k: int| 0 <= j < k < at.len() ==> #[trigger] at[j] < #[trigger] at[k]
    &&& forall|i: int, b: B| 0 <= i < list.len() && #[trigger] p(list[i], b) ==> at.contains(i)
}

/// Whether a list was picked out of another: what `p` relates to something, in order, each once, and
/// nothing else.
pub open spec fn picked_from<A, B>(list: Seq<A>, picked: Seq<B>, p: spec_fn(A, B) -> bool) -> bool {
    exists|at: Seq<int>| #[trigger] picked_at(list, picked, p, at)
}

/// Out of nothing, nothing is picked.
pub proof fn lemma_picked_none<A, B>(p: spec_fn(A, B) -> bool)
    ensures
        picked_from(Seq::<A>::empty(), Seq::<B>::empty(), p),
{
    assert(picked_at(Seq::<A>::empty(), Seq::<B>::empty(), p, Seq::empty()));
}

/// What is related to something is picked when it is added.
pub proof fn lemma_picked_one<A, B>(list: Seq<A>, picked: Seq<B>, p: spec_fn(A, B) -> bool, b: B)
    requires
        list.len() > 0,
        picked_from(list.drop_last(), picked, p),
        p(list.last(), b),
    ensures
        picked_from(list, picked.push(b), p),
{
    let before = list.drop_last();
    let was = choose|at: Seq<int>| #[trigger] picked_at(before, picked, p, at);
    let at = was.push(list.len() - 1);
    assert forall|k: int| 0 <= k < at.len() implies 0 <= #[trigger] at[k] < list.len() && p(
        list[at[k]],
        picked.push(b)[k],
    ) by {
        if k < was.len() {
            assert(at[k] == was[k]);
            assert(before[was[k]] == list[at[k]]);
        }
    }
    assert forall|i: int, c: B| 0 <= i < list.len() && #[trigger] p(list[i], c) implies at.contains(i) by {
        if i < before.len() {
            assert(p(before[i], c));
            let k = choose|k: int| 0 <= k < was.len() && was[k] == i;
            assert(at[k] == i);
        } else {
            assert(at[at.len() - 1] == i);
        }
    }
    assert(picked_at(list, picked.push(b), p, at));
}

/// What is related to nothing is passed over when it is added.
pub proof fn lemma_passed_over<A, B>(list: Seq<A>, picked: Seq<B>, p: spec_fn(A, B) -> bool)
    requires
        list.len() > 0,
        picked_from(list.drop_last(), picked, p),
        forall|b: B| !#[trigger] p(list.last(), b),
    ensures
        picked_from(list, picked, p),
{
    let before = list.drop_last();
    let at = choose|at: Seq<int>| #[trigger] picked_at(before, picked, p, at);
    assert forall|k: int| 0 <= k < at.len() implies 0 <= #[trigger] at[k] < list.len() && p(list[at[k]], picked[k]) by {
        assert(before[at[k]] == list[at[k]]);
    }
    assert forall|i: int, c: B| 0 <= i < list.len() && #[trigger] p(list[i], c) implies at.contains(i) by {
        if i < before.len() {
            assert(p(before[i], c));
        } else {
            assert(p(list.last(), c));
        }
    }
    assert(picked_at(list, picked, p, at));
}

/// What was picked is related to something that stands in the list.
pub proof fn lemma_picked_stands<A, B>(list: Seq<A>, picked: Seq<B>, p: spec_fn(A, B) -> bool, k: int)
    requires
        picked_from(list, picked, p),
        0 <= k < picked.len(),
    ensures
        exists|i: int| 0 <= i < list.len() && p(#[trigger] list[i], picked[k]),
{
    let at = choose|at: Seq<int>| #[trigger] picked_at(list, picked, p, at);
    assert(0 <= at[k] < list.len() && p(list[at[k]], picked[k]));
}

/// Whether these are the places of a list at which `p` holds: all of them, in order.
pub open spec fn places_where<A>(list: Seq<A>, at: Seq<int>, p: spec_fn(A) -> bool) -> bool {
    &&& forall|k: int| 0 <= k < at.len() ==> 0 <= #[trigger] at[k] < list.len() && p(list[at[k]])
    &&& forall|j: int, k: int| 0 <= j < k < at.len() ==> #[trigger] at[j] < #[trigger] at[k]
    &&& forall|i: int| 0 <= i < list.len() && #[trigger] p(list[i]) ==> at.contains(i)
}

/// The place of what is added, where `p` holds of it, is one more.
pub proof fn lemma_one_more_place<A>(list: Seq<A>, at: Seq<int>, p: spec_fn(A) -> bool)
    requires
        list.len() > 0,
        places_where(list.drop_last(), at, p),
    ensures
        p(list.last()) ==> places_where(list, at.push(list.len() - 1), p),
        !p(list.last()) ==> places_where(list, at, p),
{
    let before = list.drop_last();
    let n = list.len() - 1;
    let more = if p(list.last()) {
        at.push(n)
    } else {
        at
    };
    assert forall|k: int| 0 <= k < more.len() implies 0 <= #[trigger] more[k] < list.len() && p(list[more[k]]) by {
        if k < at.len() {
            assert(0 <= at[k] < before.len() && p(before[at[k]]));
        }
    }
    assert forall|j: int, k: int| 0 <= j < k < more.len() implies #[trigger] more[j] < #[trigger] more[k] by {
        assert(0 <= at[j] < before.len());
        if k < at.len() {
            assert(at[j] < at[k]);
        }
    }
    assert forall|i: int| 0 <= i < list.len() && #[trigger] p(list[i]) implies more.contains(i) by {
        if i < n {
            assert(p(before[i]));
            let k = choose|k: int| 0 <= k < at.len() && at[k] == i;
            assert(more[k] == i);
        } else {
            assert(more[more.len() - 1] == i);
        }
    }
}

/// Whether a place is the first of a list at which `p` holds.
pub open spec fn first_at<A>(list: Seq<A>, i: int, p: spec_fn(A) -> bool) -> bool {
    &&& 0 <= i < list.len()
    &&& p(list[i])
    &&& forall|k: int| 0 <= k < i ==> !p(#[trigger] list[k])
}

/// Whether `p` holds nowhere in a list.
pub open spec fn nowhere<A>(list: Seq<A>, p: spec_fn(A) -> bool) -> bool {
    forall|k: int| 0 <= k < list.len() ==> !p(#[trigger] list[k])
}

/// The first place in a list is the first in what follows its head, where `p` does not hold of the head.
pub proof fn lemma_first_behind<A>(list: Seq<A>, p: spec_fn(A) -> bool)
    requires
        list.len() > 0,
    ensures
        p(list[0]) ==> first_at(list, 0, p),
        forall|i: int| !p(list[0]) && #[trigger] first_at(list.skip(1), i, p) ==> first_at(list, i + 1, p),
        !p(list[0]) && nowhere(list.skip(1), p) ==> nowhere(list, p),
{
    let rest = list.skip(1);
    assert forall|i: int| !p(list[0]) && #[trigger] first_at(rest, i, p) implies first_at(list, i + 1, p) by {
        assert(list[i + 1] == rest[i]);
        assert forall|k: int| 0 <= k < i + 1 implies !p(#[trigger] list[k]) by {
            if k > 0 {
                assert(rest[k - 1] == list[k]);
            }
        }
    }
    if !p(list[0]) && nowhere(rest, p) {
        assert forall|k: int| 0 <= k < list.len() implies !p(#[trigger] list[k]) by {
            if k > 0 {
                assert(rest[k - 1] == list[k]);
            }
        }
    }
}

/// Whether a text of items is cut at places into what `g` makes of each entry of a list, in order.
pub open spec fn gathered_at<A, B>(list: Seq<A>, whole: Seq<B>, g: spec_fn(A) -> Seq<B>, cuts: Seq<int>) -> bool {
    &&& cuts.len() == list.len() + 1
    &&& cuts[0] == 0
    &&& cuts.last() == whole.len()
    &&& forall|i: int|
        0 <= i < list.len() ==> 0 <= #[trigger] cuts[i] <= cuts[i + 1] <= whole.len() && whole.subrange(
            cuts[i],
            cuts[i + 1],
        ) == g(list[i])
}

/// Whether a list was gathered from another: what `g` makes of each entry, one after the other, and nothing
/// else.
pub open spec fn gathered_from<A, B>(list: Seq<A>, whole: Seq<B>, g: spec_fn(A) -> Seq<B>) -> bool {
    exists|cuts: Seq<int>| #[trigger] gathered_at(list, whole, g, cuts)
}

/// From nothing, nothing is gathered.
pub proof fn lemma_gathered_none<A, B>(g: spec_fn(A) -> Seq<B>)
    ensures
        gathered_from(Seq::<A>::empty(), Seq::<B>::empty(), g),
{
    assert(gathered_at(Seq::<A>::empty(), Seq::<B>::empty(), g, seq![0]));
}

/// What is made of an entry that is added is gathered behind the rest.
pub proof fn lemma_gathered_more<A, B>(list: Seq<A>, whole: Seq<B>, g: spec_fn(A) -> Seq<B>)
    requires
        list.len() > 0,
        gathered_from(list.drop_last(), whole, g),
    ensures
        gathered_from(list, whole + g(list.last()), g),
{
    let before = list.drop_last();
    let was = choose|cuts: Seq<int>| #[trigger] gathered_at(before, whole, g, cuts);
    let all = whole + g(list.last());
    let cuts = was.push(all.len() as int);
    assert forall|i: int| 0 <= i < list.len() implies 0 <= #[trigger] cuts[i] <= cuts[i + 1] <= all.len() && all.subrange(
        cuts[i],
        cuts[i + 1],
    ) == g(list[i]) by {
        assert(cuts[i] == was[i]);
        if i < before.len() {
            assert(cuts[i + 1] == was[i + 1]);
            assert(all.subrange(cuts[i], cuts[i + 1]) =~= whole.subrange(was[i], was[i + 1]));
            assert(before[i] == list[i]);
        } else {
            assert(all.subrange(cuts[i], cuts[i + 1]) =~= g(list.last()));
        }
    }
    assert(gathered_at(list, all, g, cuts));
}

} // verus!
