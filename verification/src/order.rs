//! Putting a sequence in order and dropping repeated neighbours, for any
//! relation that says which of two values comes first and which two are alike.

use vstd::prelude::*;

verus! {

/// A type whose values are ranked by an executable comparison.
pub trait Ranked: Sized {
    /// `self` comes no later than `other`.
    spec fn precedes(&self, other: &Self) -> bool;

    fn comes_no_later(&self, other: &Self) -> (b: bool)
        ensures
            b == self.precedes(other),
    ;
}

/// A type with an executable test of two values being alike, by which
/// repeated neighbours are recognised.
pub trait Alike: Sized {
    spec fn alike(&self, other: &Self) -> bool;

    fn is_alike(&self, other: &Self) -> (b: bool)
        ensures
            b == self.alike(other),
    ;
}

/// Numbers are ranked by size.
impl Ranked for i32 {
    open spec fn precedes(&self, other: &Self) -> bool {
        *self <= *other
    }

    fn comes_no_later(&self, other: &Self) -> (b: bool) {
        *self <= *other
    }
}

/// Numbers are alike where they are equal.
impl Alike for i32 {
    open spec fn alike(&self, other: &Self) -> bool {
        *self == *other
    }

    fn is_alike(&self, other: &Self) -> (b: bool) {
        *self == *other
    }
}

/// The ranking of a ranked type, as a relation.
pub open spec fn ranking<T: Ranked>() -> spec_fn(T, T) -> bool {
    |a: T, b: T| a.precedes(&b)
}

/// The likeness of a type, as a relation.
pub open spec fn likeness<T: Alike>() -> spec_fn(T, T) -> bool {
    |a: T, b: T| a.alike(&b)
}

/// Of any two values one comes no later than the other.
pub open spec fn is_total<T>(le: spec_fn(T, T) -> bool) -> bool {
    forall|a: T, b: T| #[trigger] le(a, b) || #[trigger] le(b, a)
}

/// What comes no later than a value comes no later than all that this value
/// comes no later than.
pub open spec fn is_transitive<T>(le: spec_fn(T, T) -> bool) -> bool {
    forall|a: T, b: T, c: T| #[trigger] le(a, b) && #[trigger] le(b, c) ==> le(a, c)
}

/// Every element comes no later than each one behind it.
pub open spec fn in_order<T>(s: Seq<T>, le: spec_fn(T, T) -> bool) -> bool {
    forall|i: int, j: int| #![trigger s[i], s[j]] 0 <= i < j < s.len() ==> le(s[i], s[j])
}

/// Where a new element goes into a sequence: before the first element that it
/// comes no later than, and so in front of those it ties with.
pub open spec fn rank_position<T>(s: Seq<T>, x: T, le: spec_fn(T, T) -> bool) -> int
    decreases s.len(),
{
    if s.len() == 0 || le(x, s[0]) {
        0
    } else {
        1 + rank_position(s.drop_first(), x, le)
    }
}

/// The sequence in order, elements that tie kept in the order they had: each
/// element is put into what follows it, sorted, at its rank position.
pub open spec fn stable_sorted<T>(s: Seq<T>, le: spec_fn(T, T) -> bool) -> Seq<T>
    decreases s.len(),
{
    if s.len() == 0 {
        Seq::empty()
    } else {
        let rest = stable_sorted(s.drop_first(), le);
        rest.insert(rank_position(rest, s[0], le), s[0])
    }
}

/// The sequence without repeated neighbours: an element is dropped when it is
/// alike the last element kept before it.
pub open spec fn deduped<T>(s: Seq<T>, alike: spec_fn(T, T) -> bool) -> Seq<T>
    decreases s.len(),
{
    if s.len() == 0 {
        s
    } else {
        let kept = deduped(s.drop_last(), alike);
        if kept.len() > 0 && alike(s.last(), kept.last()) {
            kept
        } else {
            kept.push(s.last())
        }
    }
}

/// What the rank position is: the one place with only later elements before
/// it and an element that is no earlier at it.
pub proof fn lemma_rank_position<T>(s: Seq<T>, x: T, le: spec_fn(T, T) -> bool)
    ensures
        0 <= rank_position(s, x, le) <= s.len(),
        forall|j: int| 0 <= j < rank_position(s, x, le) ==> !le(x, #[trigger] s[j]),
        rank_position(s, x, le) < s.len() ==> le(x, s[rank_position(s, x, le)]),
    decreases s.len(),
{
    if s.len() == 0 || le(x, s[0]) {
    } else {
        let t = s.drop_first();
        lemma_rank_position(t, x, le);
        assert forall|j: int| 0 <= j < rank_position(s, x, le) implies !le(x, #[trigger] s[j]) by {
            if j > 0 {
                assert(s[j] == t[j - 1]);
            }
        }
    }
}

/// A place with only later elements before it and an element that is no
/// earlier at it is the rank position.
pub proof fn lemma_rank_position_unique<T>(s: Seq<T>, x: T, le: spec_fn(T, T) -> bool, p: int)
    requires
        0 <= p <= s.len(),
        forall|j: int| 0 <= j < p ==> !le(x, #[trigger] s[j]),
        p < s.len() ==> le(x, s[p]),
    ensures
        rank_position(s, x, le) == p,
    decreases s.len(),
{
    if s.len() == 0 {
    } else if p == 0 {
    } else {
        let t = s.drop_first();
        assert(!le(x, s[0]));
        assert forall|j: int| 0 <= j < p - 1 implies !le(x, #[trigger] t[j]) by {
            assert(t[j] == s[j + 1]);
        }
        lemma_rank_position_unique(t, x, le, p - 1);
    }
}

/// A sorted sequence has as many elements as the one it was sorted from.
pub proof fn lemma_stable_sorted_len<T>(s: Seq<T>, le: spec_fn(T, T) -> bool)
    ensures
        stable_sorted(s, le).len() == s.len(),
    decreases s.len(),
{
    if s.len() > 0 {
        let rest = stable_sorted(s.drop_first(), le);
        lemma_stable_sorted_len(s.drop_first(), le);
        lemma_rank_position(rest, s[0], le);
    }
}

/// Sorting by a total and transitive relation puts a sequence in order.
pub proof fn lemma_stable_sorted_in_order<T>(s: Seq<T>, le: spec_fn(T, T) -> bool)
    requires
        is_total(le),
        is_transitive(le),
    ensures
        in_order(stable_sorted(s, le), le),
    decreases s.len(),
{
    if s.len() > 0 {
        let rest = stable_sorted(s.drop_first(), le);
        let x = s[0];
        let p = rank_position(rest, x, le);
        let out = rest.insert(p, x);
        lemma_stable_sorted_in_order(s.drop_first(), le);
        lemma_rank_position(rest, x, le);
        assert forall|i: int, j: int| #![trigger out[i], out[j]] 0 <= i < j < out.len() implies le(
            out[i],
            out[j],
        ) by {
            if j < p {
                assert(out[i] == rest[i] && out[j] == rest[j]);
            } else if j == p {
                assert(out[i] == rest[i]);
                assert(le(x, rest[i]) || le(rest[i], x));
            } else if i < p {
                assert(out[i] == rest[i] && out[j] == rest[j - 1]);
            } else if i == p {
                assert(out[j] == rest[j - 1]);
                if j - 1 > p {
                    assert(le(x, rest[p]) && le(rest[p], rest[j - 1]));
                }
            } else {
                assert(out[i] == rest[i - 1] && out[j] == rest[j - 1]);
            }
        }
    }
}

/// Sorting keeps every element, as often as it occurred.
pub proof fn lemma_stable_sorted_permutes<T>(s: Seq<T>, le: spec_fn(T, T) -> bool)
    ensures
        stable_sorted(s, le).to_multiset() == s.to_multiset(),
    decreases s.len(),
{
    broadcast use vstd::seq_lib::group_to_multiset_ensures;

    if s.len() == 0 {
        assert(stable_sorted(s, le) =~= s);
    } else {
        let rest = stable_sorted(s.drop_first(), le);
        let x = s[0];
        let p = rank_position(rest, x, le);
        let out = rest.insert(p, x);
        lemma_stable_sorted_permutes(s.drop_first(), le);
        lemma_rank_position(rest, x, le);
        assert(out.remove(p) =~= rest);
        assert(out[p] == x);
        assert(rest.to_multiset() == out.to_multiset().remove(x));
        assert(out.contains(x));
        assert(out.to_multiset() =~= rest.to_multiset().insert(x));
        assert(s.remove(0) =~= s.drop_first());
        assert(s.drop_first().to_multiset() == s.to_multiset().remove(x));
        assert(s.contains(x));
        assert(s.to_multiset() =~= s.drop_first().to_multiset().insert(x));
    }
}

/// Sorting and then taking a view of each element gives what sorting the
/// views gives, where the views are ranked as the elements are.
pub proof fn lemma_stable_sorted_views<T, U>(
    s: Seq<T>,
    view: spec_fn(T) -> U,
    le: spec_fn(T, T) -> bool,
    le_view: spec_fn(U, U) -> bool,
)
    requires
        forall|a: T, b: T| #[trigger] le(a, b) == le_view(view(a), view(b)),
    ensures
        stable_sorted(s, le).map_values(view) == stable_sorted(s.map_values(view), le_view),
    decreases s.len(),
{
    if s.len() == 0 {
        assert(stable_sorted(s, le).map_values(view) =~= Seq::<U>::empty());
        assert(s.map_values(view) =~= Seq::<U>::empty());
    } else {
        let rest = stable_sorted(s.drop_first(), le);
        let x = s[0];
        let views = s.map_values(view);
        assert(views.drop_first() =~= s.drop_first().map_values(view));
        lemma_stable_sorted_views(s.drop_first(), view, le, le_view);
        let rest_views = stable_sorted(views.drop_first(), le_view);
        assert(rest_views == rest.map_values(view));
        lemma_rank_position(rest, x, le);
        let p = rank_position(rest, x, le);
        assert forall|j: int| 0 <= j < p implies !le_view(view(x), #[trigger] rest_views[j]) by {
            assert(!le(x, rest[j]));
        }
        if p < rest.len() {
            assert(le(x, rest[p]));
        }
        lemma_rank_position_unique(rest_views, view(x), le_view, p);
        assert(rest.insert(p, x).map_values(view) =~= rest_views.insert(p, view(x)));
    }
}

/// Dropping repeated neighbours and then taking a view of each element gives
/// what dropping them among the views gives, where views are alike as the
/// elements are.
pub proof fn lemma_deduped_views<T, U>(
    s: Seq<T>,
    view: spec_fn(T) -> U,
    alike: spec_fn(T, T) -> bool,
    alike_view: spec_fn(U, U) -> bool,
)
    requires
        forall|a: T, b: T| #[trigger] alike(a, b) == alike_view(view(a), view(b)),
    ensures
        deduped(s, alike).map_values(view) == deduped(s.map_values(view), alike_view),
    decreases s.len(),
{
    if s.len() == 0 {
        assert(deduped(s, alike).map_values(view) =~= Seq::<U>::empty());
        assert(s.map_values(view) =~= Seq::<U>::empty());
    } else {
        let views = s.map_values(view);
        assert(views.drop_last() =~= s.drop_last().map_values(view));
        lemma_deduped_views(s.drop_last(), view, alike, alike_view);
        let kept = deduped(s.drop_last(), alike);
        let kept_views = deduped(views.drop_last(), alike_view);
        assert(kept_views == kept.map_values(view));
        if kept.len() > 0 {
            assert(kept_views.last() == view(kept.last()));
            assert(alike(s.last(), kept.last()) == alike_view(views.last(), kept_views.last()));
        }
        assert(kept.push(s.last()).map_values(view) =~= kept_views.push(view(s.last())));
    }
}

/// Every element that is kept when repeated neighbours are dropped was there
/// before, and what is kept last is alike the last element, or is it.
pub proof fn lemma_deduped_elements<T>(s: Seq<T>, alike: spec_fn(T, T) -> bool)
    ensures
        deduped(s, alike).len() <= s.len(),
        s.len() > 0 ==> deduped(s, alike).len() > 0,
        forall|i: int|
            0 <= i < deduped(s, alike).len() ==> s.contains(#[trigger] deduped(s, alike)[i]),
        s.len() > 0 ==> (deduped(s, alike).last() == s.last() || alike(
            s.last(),
            deduped(s, alike).last(),
        )),
    decreases s.len(),
{
    if s.len() > 0 {
        let kept = deduped(s.drop_last(), alike);
        lemma_deduped_elements(s.drop_last(), alike);
        let out = deduped(s, alike);
        assert forall|i: int| 0 <= i < out.len() implies s.contains(#[trigger] out[i]) by {
            if i < kept.len() {
                assert(s.drop_last().contains(kept[i]));
                let j = choose|j: int| 0 <= j < s.drop_last().len() && s.drop_last()[j] == kept[i];
                assert(s[j] == kept[i]);
            } else {
                assert(out[i] == s[s.len() - 1]);
            }
        }
    }
}

/// Dropping repeated neighbours keeps a sequence in order.
pub proof fn lemma_deduped_in_order<T>(
    s: Seq<T>,
    le: spec_fn(T, T) -> bool,
    alike: spec_fn(T, T) -> bool,
)
    requires
        in_order(s, le),
    ensures
        in_order(deduped(s, alike), le),
    decreases s.len(),
{
    if s.len() > 0 {
        let front = s.drop_last();
        let kept = deduped(front, alike);
        lemma_front_in_order(s, le);
        lemma_deduped_in_order(front, le, alike);
        lemma_deduped_elements(front, alike);
        let out = deduped(s, alike);
        assert forall|i: int, j: int| #![trigger out[i], out[j]] 0 <= i < j < out.len() implies le(
            out[i],
            out[j],
        ) by {
            if j < kept.len() {
                assert(out[i] == kept[i] && out[j] == kept[j]);
            } else {
                assert(out[i] == kept[i]);
                assert(front.contains(kept[i]));
                let k = choose|k: int| 0 <= k < front.len() && front[k] == kept[i];
                assert(s[k] == kept[i]);
                assert(out[j] == s[s.len() - 1]);
            }
        }
    }
}

/// Being equal, as a relation.
pub open spec fn equality<T>() -> spec_fn(T, T) -> bool {
    |a: T, b: T| a == b
}

/// No two elements are alike.
pub open spec fn no_two_alike<T>(s: Seq<T>, alike: spec_fn(T, T) -> bool) -> bool {
    forall|i: int, j: int|
        #![trigger s[i], s[j]]
        0 <= i < j < s.len() ==> !alike(s[i], s[j]) && !alike(s[j], s[i])
}

/// Every element of `s` has one in `d` that it is alike.
pub open spec fn covers<T>(d: Seq<T>, s: Seq<T>, alike: spec_fn(T, T) -> bool) -> bool {
    forall|k: int|
        0 <= k < s.len() ==> exists|i: int| 0 <= i < d.len() && alike(#[trigger] s[k], #[trigger] d[i])
}

/// A sequence without its last element is in order where the sequence is.
pub proof fn lemma_front_in_order<T>(s: Seq<T>, le: spec_fn(T, T) -> bool)
    requires
        in_order(s, le),
        s.len() > 0,
    ensures
        in_order(s.drop_last(), le),
{
    let front = s.drop_last();
    assert forall|i: int, j: int| #![trigger front[i], front[j]] 0 <= i < j < front.len() implies le(
        front[i],
        front[j],
    ) by {
        assert(front[i] == s[i] && front[j] == s[j]);
    }
}

/// In a sequence in order from which repeated neighbours were dropped no two
/// elements are alike, where two elements are alike exactly if each comes no
/// later than the other: what is alike stands together, so dropping
/// neighbours drops every repeat.
pub proof fn lemma_deduped_no_two_alike<T>(
    s: Seq<T>,
    le: spec_fn(T, T) -> bool,
    alike: spec_fn(T, T) -> bool,
)
    requires
        in_order(s, le),
        is_transitive(le),
        forall|a: T, b: T| #[trigger] alike(a, b) <==> le(a, b) && le(b, a),
    ensures
        no_two_alike(deduped(s, alike), alike),
    decreases s.len(),
{
    if s.len() > 0 {
        let front = s.drop_last();
        let kept = deduped(front, alike);
        lemma_front_in_order(s, le);
        lemma_deduped_no_two_alike(front, le, alike);
        lemma_deduped_in_order(front, le, alike);
        lemma_deduped_elements(front, alike);
        let out = deduped(s, alike);
        assert forall|i: int, j: int| #![trigger out[i], out[j]] 0 <= i < j < out.len() implies !alike(
            out[i],
            out[j],
        ) && !alike(out[j], out[i]) by {
            if j < kept.len() {
                assert(out[i] == kept[i] && out[j] == kept[j]);
            } else {
                assert(out[j] == s[s.len() - 1]);
                assert(out[i] == kept[i]);
                assert(!alike(s.last(), kept.last()));
                assert(kept.last() == kept[kept.len() - 1]);
                assert(front.contains(kept.last()));
                let k = choose|k: int| 0 <= k < front.len() && front[k] == kept.last();
                assert(s[k] == kept.last());
                assert(le(kept.last(), s.last()));
                if i < kept.len() - 1 {
                    assert(le(kept[i], kept[kept.len() - 1]));
                    if alike(kept[i], s.last()) || alike(s.last(), kept[i]) {
                        assert(le(s.last(), kept[i]));
                        assert(le(s.last(), kept.last()));
                    }
                }
            }
        }
    }
}

/// Every element has, among what is kept when repeated neighbours are
/// dropped, one that it is alike, where every element is alike itself.
pub proof fn lemma_deduped_covers<T>(s: Seq<T>, alike: spec_fn(T, T) -> bool)
    requires
        forall|a: T| #[trigger] alike(a, a),
    ensures
        covers(deduped(s, alike), s, alike),
    decreases s.len(),
{
    if s.len() > 0 {
        let front = s.drop_last();
        let kept = deduped(front, alike);
        let out = deduped(s, alike);
        lemma_deduped_covers(front, alike);
        lemma_deduped_elements(s, alike);
        assert forall|k: int| 0 <= k < s.len() implies exists|i: int|
            0 <= i < out.len() && alike(#[trigger] s[k], #[trigger] out[i]) by {
            if k < front.len() {
                assert(front[k] == s[k]);
                let i = choose|i: int| 0 <= i < kept.len() && alike(front[k], kept[i]);
                assert(out[i] == kept[i]);
                assert(alike(s[k], out[i]));
            } else if kept.len() > 0 && alike(s.last(), kept.last()) {
                assert(alike(s[k], out[out.len() - 1]));
            } else {
                assert(out[out.len() - 1] == s[k]);
                assert(alike(s[k], out[out.len() - 1]));
            }
        }
    }
}

/// A sorted sequence holds what the one it was sorted from holds.
pub proof fn lemma_stable_sorted_same_elements<T>(s: Seq<T>, le: spec_fn(T, T) -> bool)
    ensures
        forall|x: T| stable_sorted(s, le).contains(x) <==> s.contains(x),
{
    broadcast use vstd::seq_lib::group_to_multiset_ensures;

    lemma_stable_sorted_permutes(s, le);
    assert forall|x: T| stable_sorted(s, le).contains(x) <==> s.contains(x) by {
        assert(stable_sorted(s, le).contains(x) <==> stable_sorted(s, le).to_multiset().count(x) > 0);
        assert(s.contains(x) <==> s.to_multiset().count(x) > 0);
    }
}

/// A sequence sorted and then freed of repeated neighbours: the sequence in
/// order, each element once among those that are alike.
pub open spec fn sorted_unique<T>(
    s: Seq<T>,
    le: spec_fn(T, T) -> bool,
    alike: spec_fn(T, T) -> bool,
) -> Seq<T> {
    deduped(stable_sorted(s, le), alike)
}

/// What sorting and then dropping repeated neighbours comes to, where two
/// elements are alike exactly if each comes no later than the other: the
/// outcome is in order, no two of its elements are alike, each of them was in
/// the sequence, and every element of the sequence has one among them that it
/// is alike.
pub proof fn lemma_sorted_unique<T>(
    s: Seq<T>,
    le: spec_fn(T, T) -> bool,
    alike: spec_fn(T, T) -> bool,
)
    requires
        is_total(le),
        is_transitive(le),
        forall|a: T, b: T| #[trigger] alike(a, b) <==> le(a, b) && le(b, a),
    ensures
        in_order(sorted_unique(s, le, alike), le),
        no_two_alike(sorted_unique(s, le, alike), alike),
        forall|i: int|
            0 <= i < sorted_unique(s, le, alike).len() ==> s.contains(
                #[trigger] sorted_unique(s, le, alike)[i],
            ),
        covers(sorted_unique(s, le, alike), s, alike),
{
    let sorted = stable_sorted(s, le);
    let out = sorted_unique(s, le, alike);
    lemma_stable_sorted_in_order(s, le);
    lemma_stable_sorted_same_elements(s, le);
    lemma_deduped_in_order(sorted, le, alike);
    lemma_deduped_no_two_alike(sorted, le, alike);
    lemma_deduped_elements(sorted, alike);
    assert forall|a: T| #[trigger] alike(a, a) by {
        assert(le(a, a) || le(a, a));
    }
    lemma_deduped_covers(sorted, alike);
    assert forall|i: int| 0 <= i < out.len() implies s.contains(#[trigger] out[i]) by {
        assert(sorted.contains(out[i]));
    }
    assert forall|k: int| 0 <= k < s.len() implies exists|i: int|
        0 <= i < out.len() && alike(#[trigger] s[k], #[trigger] out[i]) by {
        assert(s.contains(s[k]));
        assert(sorted.contains(s[k]));
        let m = choose|m: int| 0 <= m < sorted.len() && sorted[m] == s[k];
        let i = choose|i: int| 0 <= i < out.len() && alike(sorted[m], out[i]);
        assert(alike(s[k], out[i]));
    }
}

/// Sorts a vector by the ranking of its type; elements that tie keep their
/// order.
pub fn sort_stable<T: Ranked>(v: Vec<T>) -> (out: Vec<T>)
    ensures
        out@ == stable_sorted(v@, ranking::<T>()),
{
    let ghost orig = v@;
    let ghost le = ranking::<T>();
    let mut v = v;
    let mut out: Vec<T> = Vec::new();
    assert(orig.skip(orig.len() as int) =~= Seq::<T>::empty());
    while v.len() > 0
        invariant
            le == ranking::<T>(),
            v@ == orig.take(v@.len() as int),
            v@.len() <= orig.len(),
            out@ == stable_sorted(orig.skip(v@.len() as int), le),
        decreases v@.len(),
    {
        let ghost k = v@.len() as int;
        let x = v.pop().unwrap();
        proof {
            assert(x == orig[k - 1]);
            assert(orig.skip(k - 1).drop_first() =~= orig.skip(k));
            assert(orig.skip(k - 1)[0] == x);
            assert(v@ =~= orig.take(k - 1));
            lemma_stable_sorted_len(orig.skip(k), le);
        }
        let mut p: usize = 0;
        while p < out.len() && !x.comes_no_later(&out[p])
            invariant
                le == ranking::<T>(),
                p <= out@.len(),
                forall|j: int| 0 <= j < p ==> !le(x, #[trigger] out@[j]),
            decreases out@.len() - p,
        {
            p += 1;
        }
        proof {
            lemma_rank_position_unique(out@, x, le, p as int);
        }
        out.insert(p, x);
    }
    assert(orig.skip(0) =~= orig);
    out
}

/// The elements of a vector in reverse.
pub fn reversed<T>(v: Vec<T>) -> (out: Vec<T>)
    ensures
        out@ == v@.reverse(),
{
    let ghost orig = v@;
    let mut v = v;
    let mut out: Vec<T> = Vec::new();
    while v.len() > 0
        invariant
            v@ == orig.take(v@.len() as int),
            v@.len() <= orig.len(),
            out@.len() == orig.len() - v@.len(),
            forall|i: int| 0 <= i < out@.len() ==> out@[i] == orig[orig.len() - 1 - i],
        decreases v@.len(),
    {
        let ghost k = v@.len() as int;
        let x = v.pop().unwrap();
        assert(v@ =~= orig.take(k - 1));
        out.push(x);
    }
    assert(out@ =~= orig.reverse());
    out
}

/// Drops repeated neighbours: of each run of elements alike the first of
/// them, only that first one stays.
pub fn dedup<T: Alike>(v: Vec<T>) -> (out: Vec<T>)
    ensures
        out@ == deduped(v@, likeness::<T>()),
{
    let ghost orig = v@;
    let ghost alike = likeness::<T>();
    let mut back = reversed(v);
    let mut out: Vec<T> = Vec::new();
    assert(orig.take(0) =~= Seq::<T>::empty());
    while back.len() > 0
        invariant
            alike == likeness::<T>(),
            back@.len() <= orig.len(),
            forall|i: int| 0 <= i < back@.len() ==> back@[i] == orig[orig.len() - 1 - i],
            out@ == deduped(orig.take(orig.len() - back@.len()), alike),
        decreases back@.len(),
    {
        let ghost k = orig.len() - back@.len();
        let x = back.pop().unwrap();
        proof {
            assert(x == orig[k]);
            assert(orig.take(k + 1).drop_last() =~= orig.take(k));
            assert(orig.take(k + 1).last() == x);
        }
        let n = out.len();
        if n > 0 && x.is_alike(&out[n - 1]) {
        } else {
            out.push(x);
        }
    }
    assert(orig.take(orig.len() as int) =~= orig);
    out
}

} // verus!
