//! What simplifying a set of ranges keeps and what it brings about.
use crate::precedence::Precedence;
use crate::precedence_laws::{
    lemma_precedence_antisymmetric, lemma_precedence_strict, lemma_precedence_transitive,
};
use crate::range_set::{
    insert_position, merged, merged_with, simplify_spec, sorted_by_start, start_precedence,
    starts_in_order, touches,
};
use crate::semantic_version::{at_most, precedence, precedes, VersionModel};
use crate::version_range::{range_contains, RangeModel};
use vstd::prelude::*;

verus! {

/// No range starts after one that follows it.
pub open spec fn ordered_by_start(ranges: Seq<RangeModel>) -> bool {
    forall|i: int, j: int| 0 <= i < j < ranges.len() ==> starts_in_order(ranges[i], ranges[j])
}

/// Each range starts after the end of the one before it: no two neighbours
/// overlap or touch.
pub open spec fn apart(ranges: Seq<RangeModel>) -> bool {
    forall|i: int| 0 <= i < ranges.len() - 1 ==> !touches(#[trigger] ranges[i], ranges[i + 1])
}

/// One of the ranges holds `v`.
pub open spec fn covers(ranges: Seq<RangeModel>, v: VersionModel) -> bool {
    exists|i: int| 0 <= i < ranges.len() && range_contains(#[trigger] ranges[i], v)
}

/// Every range of `part` starts where some range of `whole` starts.
pub open spec fn starts_among(part: Seq<RangeModel>, whole: Seq<RangeModel>) -> bool {
    forall|k: int|
        0 <= k < part.len() ==> exists|i: int|
            0 <= i < whole.len() && (#[trigger] part[k]).start == (#[trigger] whole[i]).start
}

/// Seen from the other side, the order of two starts turns round.
pub proof fn lemma_starts_antisymmetric(a: Option<VersionModel>, b: Option<VersionModel>)
    ensures
        start_precedence(b, a) == start_precedence(a, b).flip(),
{
    if let (Some(x), Some(y)) = (a, b) {
        lemma_precedence_antisymmetric(x, y);
    }
}

/// Starting in order is transitive.
pub proof fn lemma_starts_transitive(a: RangeModel, b: RangeModel, c: RangeModel)
    requires
        starts_in_order(a, b),
        starts_in_order(b, c),
    ensures
        starts_in_order(a, c),
{
    if let (Some(x), Some(y), Some(z)) = (a.start, b.start, c.start) {
        lemma_precedence_transitive(x, y, z);
    }
}

/// Where `x` is put, every range behind it starts later and the range
/// before it does not.
pub proof fn lemma_insert_position(ordered: Seq<RangeModel>, x: RangeModel)
    ensures
        0 <= insert_position(ordered, x) <= ordered.len(),
        forall|i: int|
            insert_position(ordered, x) <= i < ordered.len() ==> !starts_in_order(
                #[trigger] ordered[i],
                x,
            ),
        insert_position(ordered, x) > 0 ==> starts_in_order(
            ordered[insert_position(ordered, x) - 1],
            x,
        ),
    decreases ordered.len(),
{
    if ordered.len() == 0 || starts_in_order(ordered.last(), x) {
    } else {
        lemma_insert_position(ordered.drop_last(), x);
        let p = insert_position(ordered, x);
        assert forall|i: int| p <= i < ordered.len() implies !starts_in_order(
            #[trigger] ordered[i],
            x,
        ) by {
            if i < ordered.len() - 1 {
                assert(ordered.drop_last()[i] == ordered[i]);
            }
        }
        if p > 0 {
            assert(ordered.drop_last()[p - 1] == ordered[p - 1]);
        }
    }
}

/// Putting a range in its place keeps a list ordered.
pub proof fn lemma_insert_keeps_order(ordered: Seq<RangeModel>, x: RangeModel)
    requires
        ordered_by_start(ordered),
    ensures
        ordered_by_start(ordered.insert(insert_position(ordered, x), x)),
{
    let p = insert_position(ordered, x);
    lemma_insert_position(ordered, x);
    let out = ordered.insert(p, x);
    assert forall|i: int, j: int| 0 <= i < j < out.len() implies starts_in_order(
        out[i],
        out[j],
    ) by {
        if j == p {
            assert(out[i] == ordered[i]);
            if i < p - 1 {
                assert(starts_in_order(ordered[i], ordered[p - 1]));
                lemma_starts_transitive(ordered[i], ordered[p - 1], x);
            }
        } else if i == p {
            assert(out[j] == ordered[j - 1]);
            assert(!starts_in_order(ordered[j - 1], x));
            lemma_starts_antisymmetric(x.start, ordered[j - 1].start);
        } else {
            let a = if i < p {
                i
            } else {
                i - 1
            };
            let b = if j < p {
                j
            } else {
                j - 1
            };
            assert(out[i] == ordered[a] && out[j] == ordered[b]);
            assert(starts_in_order(ordered[a], ordered[b]));
        }
    }
}

/// Sorting orders the ranges by start.
pub proof fn lemma_sorted_is_ordered(ranges: Seq<RangeModel>)
    ensures
        ordered_by_start(sorted_by_start(ranges)),
        sorted_by_start(ranges).len() == ranges.len(),
    decreases ranges.len(),
{
    if ranges.len() > 0 {
        let ordered = sorted_by_start(ranges.drop_last());
        lemma_sorted_is_ordered(ranges.drop_last());
        lemma_insert_position(ordered, ranges.last());
        lemma_insert_keeps_order(ordered, ranges.last());
    }
}

/// Sorting neither adds nor loses a range.
pub proof fn lemma_sorted_is_permutation(ranges: Seq<RangeModel>)
    ensures
        sorted_by_start(ranges).to_multiset() == ranges.to_multiset(),
    decreases ranges.len(),
{
    broadcast use vstd::seq_lib::group_to_multiset_ensures;

    if ranges.len() > 0 {
        let ordered = sorted_by_start(ranges.drop_last());
        let x = ranges.last();
        lemma_sorted_is_permutation(ranges.drop_last());
        lemma_insert_position(ordered, x);
        assert(ranges =~= ranges.drop_last().push(x));
        assert(ordered.insert(insert_position(ordered, x), x).to_multiset()
            =~= ordered.to_multiset().insert(x));
        assert(ranges.drop_last().push(x).to_multiset() =~= ranges.drop_last().to_multiset().insert(
            x,
        ));
    }
}

/// Sorting keeps the versions that the ranges hold.
pub proof fn lemma_sorted_covers_the_same(ranges: Seq<RangeModel>, v: VersionModel)
    ensures
        covers(sorted_by_start(ranges), v) == covers(ranges, v),
    decreases ranges.len(),
{
    if ranges.len() > 0 {
        let rest = ranges.drop_last();
        let ordered = sorted_by_start(rest);
        let x = ranges.last();
        let p = insert_position(ordered, x);
        let out = ordered.insert(p, x);
        lemma_sorted_covers_the_same(rest, v);
        lemma_insert_position(ordered, x);
        if covers(out, v) {
            let i = choose|i: int| 0 <= i < out.len() && range_contains(#[trigger] out[i], v);
            if i == p {
                assert(range_contains(ranges[ranges.len() - 1], v));
            } else {
                let k = if i < p {
                    i
                } else {
                    i - 1
                };
                assert(range_contains(ordered[k], v));
                let j = choose|j: int| 0 <= j < rest.len() && range_contains(#[trigger] rest[j], v);
                assert(range_contains(ranges[j], v));
            }
        }
        if covers(ranges, v) {
            let j = choose|j: int| 0 <= j < ranges.len() && range_contains(#[trigger] ranges[j], v);
            if j == ranges.len() - 1 {
                assert(range_contains(out[p], v));
            } else {
                assert(range_contains(rest[j], v));
                let i = choose|i: int|
                    0 <= i < ordered.len() && range_contains(#[trigger] ordered[i], v);
                let k = if i < p {
                    i
                } else {
                    i + 1
                };
                assert(range_contains(out[k], v));
            }
        }
    }
}

/// Sorting leaves a list that is ordered as it is.
pub proof fn lemma_sorting_ordered_changes_nothing(ranges: Seq<RangeModel>)
    requires
        ordered_by_start(ranges),
    ensures
        sorted_by_start(ranges) == ranges,
    decreases ranges.len(),
{
    if ranges.len() > 0 {
        let rest = ranges.drop_last();
        assert(ordered_by_start(rest)) by {
            assert forall|i: int, j: int| 0 <= i < j < rest.len() implies starts_in_order(
                rest[i],
                rest[j],
            ) by {
                assert(starts_in_order(ranges[i], ranges[j]));
            }
        }
        lemma_sorting_ordered_changes_nothing(rest);
        if rest.len() > 0 {
            assert(starts_in_order(ranges[rest.len() - 1], ranges[ranges.len() - 1]));
            assert(rest.last() == ranges[rest.len() - 1]);
        }
        assert(insert_position(rest, ranges.last()) == rest.len());
        assert(rest.insert(rest.len() as int, ranges.last()) =~= ranges);
    }
}

/// Two ranges that touch, the first starting no later than the second, hold
/// together what the merged range holds.
pub proof fn lemma_merged_with_holds_both(current: RangeModel, next: RangeModel, v: VersionModel)
    requires
        starts_in_order(current, next),
        touches(current, next),
    ensures
        range_contains(merged_with(current, next), v) == (range_contains(current, v)
            || range_contains(next, v)),
{
    let both = merged_with(current, next);
    // the later end is at least either end
    if let (Some(h), Some(n)) = (current.end, next.end) {
        lemma_precedence_antisymmetric(n, h);
        lemma_precedence_antisymmetric(v, h);
        lemma_precedence_antisymmetric(v, n);
        if precedence(n, h) == Precedence::Higher {
            // both ends at n
            if precedes(v, h) {
                lemma_precedence_strict(v, h, n);
            }
        } else {
            if precedes(v, n) {
                lemma_precedence_strict(v, n, h);
            }
        }
    }
    // a version in `next` is not before the start of `current`
    if let (Some(cs), Some(ns)) = (current.start, next.start) {
        if at_most(ns, v) {
            lemma_precedence_transitive(cs, ns, v);
        }
    }
    // a version of the merged range that is not in `current` is in `next`
    if let (Some(ns), Some(ce)) = (next.start, current.end) {
        lemma_precedence_antisymmetric(v, ce);
        if !precedes(v, ce) {
            lemma_precedence_transitive(ns, ce, v);
        }
    }
}

/// A list with one more range holds what the list holds and what the
/// range holds.
pub proof fn lemma_covers_one_more(ranges: Seq<RangeModel>, x: RangeModel, v: VersionModel)
    ensures
        covers(ranges.push(x), v) == (covers(ranges, v) || range_contains(x, v)),
{
    let more = ranges.push(x);
    if covers(more, v) {
        let i = choose|i: int| 0 <= i < more.len() && range_contains(#[trigger] more[i], v);
        if i < ranges.len() {
            assert(range_contains(ranges[i], v));
        }
    }
    if covers(ranges, v) {
        let i = choose|i: int| 0 <= i < ranges.len() && range_contains(#[trigger] ranges[i], v);
        assert(range_contains(more[i], v));
    }
    if range_contains(x, v) {
        assert(range_contains(more[ranges.len() as int], v));
    }
}

/// A part of an ordered list is ordered.
pub proof fn lemma_prefix_is_ordered(ranges: Seq<RangeModel>)
    requires
        ordered_by_start(ranges),
        ranges.len() > 0,
    ensures
        ordered_by_start(ranges.drop_last()),
{
    let rest = ranges.drop_last();
    assert forall|i: int, j: int| 0 <= i < j < rest.len() implies starts_in_order(
        rest[i],
        rest[j],
    ) by {
        assert(starts_in_order(ranges[i], ranges[j]));
    }
}

/// Merging makes a list no longer, and each range it gives starts where one
/// of the list starts.
pub proof fn lemma_merged_shape(ranges: Seq<RangeModel>)
    ensures
        merged(ranges).len() <= ranges.len(),
        ranges.len() > 0 ==> merged(ranges).len() > 0,
        starts_among(merged(ranges), ranges),
    decreases ranges.len(),
{
    if ranges.len() > 0 {
        let rest = ranges.drop_last();
        let next = ranges.last();
        lemma_merged_shape(rest);
        let done = merged(rest);
        let out = merged(ranges);
        let merging = done.len() > 0 && touches(done.last(), next);
        assert forall|k: int| 0 <= k < out.len() implies exists|i: int|
            0 <= i < ranges.len() && (#[trigger] out[k]).start == (#[trigger] ranges[i]).start by {
            if !merging && k == out.len() - 1 {
                assert(out[k].start == ranges[ranges.len() - 1].start);
            } else {
                assert(out[k].start == done[k].start);
                let i = choose|i: int|
                    0 <= i < rest.len() && (#[trigger] done[k]).start == (#[trigger] rest[i]).start;
                assert(out[k].start == ranges[i].start);
            }
        }
    }
}

/// The ranges that merging gives stand apart.
pub proof fn lemma_merged_is_apart(ranges: Seq<RangeModel>)
    ensures
        apart(merged(ranges)),
    decreases ranges.len(),
{
    if ranges.len() > 0 {
        let rest = ranges.drop_last();
        let next = ranges.last();
        lemma_merged_is_apart(rest);
        let done = merged(rest);
        let out = merged(ranges);
        let merging = done.len() > 0 && touches(done.last(), next);
        assert forall|i: int| 0 <= i < out.len() - 1 implies !touches(
            #[trigger] out[i],
            out[i + 1],
        ) by {
            if merging {
                assert(!touches(done[i], done[i + 1]));
                assert(out[i] == done[i]);
                assert(out[i + 1].start == done[i + 1].start);
            } else if i == out.len() - 2 {
                assert(out[i] == done.last());
                assert(out[i + 1] == next);
            } else {
                assert(!touches(done[i], done[i + 1]));
                assert(out[i] == done[i] && out[i + 1] == done[i + 1]);
            }
        }
    }
}

/// In an ordered list no range that merging has given so far starts after
/// the range that comes next.
proof fn lemma_merged_before_next(ranges: Seq<RangeModel>, k: int)
    requires
        ordered_by_start(ranges),
        ranges.len() > 0,
        0 <= k < merged(ranges.drop_last()).len(),
    ensures
        starts_in_order(merged(ranges.drop_last())[k], ranges.last()),
{
    let rest = ranges.drop_last();
    let done = merged(rest);
    lemma_merged_shape(rest);
    let i = choose|i: int|
        0 <= i < rest.len() && (#[trigger] done[k]).start == (#[trigger] rest[i]).start;
    assert(starts_in_order(ranges[i], ranges[ranges.len() - 1]));
}

/// Merging keeps an ordered list ordered.
pub proof fn lemma_merged_is_ordered(ranges: Seq<RangeModel>)
    requires
        ordered_by_start(ranges),
    ensures
        ordered_by_start(merged(ranges)),
    decreases ranges.len(),
{
    if ranges.len() > 0 {
        let rest = ranges.drop_last();
        let next = ranges.last();
        lemma_prefix_is_ordered(ranges);
        lemma_merged_is_ordered(rest);
        let done = merged(rest);
        let out = merged(ranges);
        let merging = done.len() > 0 && touches(done.last(), next);
        assert forall|i: int, j: int| 0 <= i < j < out.len() implies starts_in_order(
            out[i],
            out[j],
        ) by {
            if merging {
                assert(out[i].start == done[i].start && out[j].start == done[j].start);
                assert(starts_in_order(done[i], done[j]));
            } else if j == out.len() - 1 {
                lemma_merged_before_next(ranges, i);
                assert(out[i] == done[i] && out[j] == next);
            } else {
                assert(starts_in_order(done[i], done[j]));
                assert(out[i] == done[i] && out[j] == done[j]);
            }
        }
    }
}

/// Merging an ordered list keeps the versions that its ranges hold.
pub proof fn lemma_merged_covers_the_same(ranges: Seq<RangeModel>, v: VersionModel)
    requires
        ordered_by_start(ranges),
    ensures
        covers(merged(ranges), v) == covers(ranges, v),
    decreases ranges.len(),
{
    if ranges.len() > 0 {
        let rest = ranges.drop_last();
        let next = ranges.last();
        lemma_prefix_is_ordered(ranges);
        lemma_merged_covers_the_same(rest, v);
        let done = merged(rest);
        assert(ranges =~= rest.push(next));
        lemma_covers_one_more(rest, next, v);
        if done.len() > 0 && touches(done.last(), next) {
            let current = done.last();
            lemma_merged_before_next(ranges, done.len() - 1);
            lemma_merged_with_holds_both(current, next, v);
            assert(done =~= done.drop_last().push(current));
            lemma_covers_one_more(done.drop_last(), current, v);
            lemma_covers_one_more(done.drop_last(), merged_with(current, next), v);
        } else {
            lemma_covers_one_more(done, next, v);
        }
    } else {
        assert(merged(ranges) =~= ranges);
    }
}

/// Merging leaves a list whose ranges stand apart as it is.
pub proof fn lemma_merging_apart_changes_nothing(ranges: Seq<RangeModel>)
    requires
        apart(ranges),
    ensures
        merged(ranges) == ranges,
    decreases ranges.len(),
{
    if ranges.len() > 0 {
        let rest = ranges.drop_last();
        assert(apart(rest)) by {
            assert forall|i: int| 0 <= i < rest.len() - 1 implies !touches(
                #[trigger] rest[i],
                rest[i + 1],
            ) by {
                assert(!touches(ranges[i], ranges[i + 1]));
            }
        }
        lemma_merging_apart_changes_nothing(rest);
        if rest.len() > 0 {
            assert(!touches(ranges[rest.len() - 1], ranges[rest.len() - 1 + 1]));
        }
        assert(rest.push(ranges.last()) =~= ranges);
    }
}

/// In a list that is ordered by start and whose ranges stand apart, no
/// version lies in two ranges.
pub proof fn lemma_apart_ranges_share_nothing(
    ranges: Seq<RangeModel>,
    i: int,
    j: int,
    v: VersionModel,
)
    requires
        ordered_by_start(ranges),
        apart(ranges),
        0 <= i < j < ranges.len(),
        range_contains(ranges[i], v),
    ensures
        !range_contains(ranges[j], v),
{
    // `v` lies before the end of the one range, which lies before the
    // start of the next, which is not after the start of the other
    assert(!touches(ranges[i], ranges[i + 1]));
    let end = ranges[i].end->0;
    let next_start = ranges[i + 1].start->0;
    lemma_precedence_antisymmetric(next_start, end);
    lemma_precedence_strict(v, end, next_start);
    if j > i + 1 {
        assert(starts_in_order(ranges[i + 1], ranges[j]));
    }
    let start = ranges[j].start->0;
    lemma_precedence_antisymmetric(v, start);
    if j > i + 1 {
        lemma_precedence_strict(v, next_start, start);
    }
}

/// No version lies in two ranges of a simplified set.
pub proof fn lemma_simplified_ranges_share_nothing(
    ranges: Seq<RangeModel>,
    i: int,
    j: int,
    v: VersionModel,
)
    requires
        0 <= i < j < simplify_spec(ranges).len(),
        range_contains(simplify_spec(ranges)[i], v),
    ensures
        !range_contains(simplify_spec(ranges)[j], v),
{
    lemma_simplified_is_ordered_and_apart(ranges);
    lemma_apart_ranges_share_nothing(simplify_spec(ranges), i, j, v);
}

/// A simplified set is ordered by start, its ranges stand apart, and it is
/// no longer than the set it was made from.
pub proof fn lemma_simplified_is_ordered_and_apart(ranges: Seq<RangeModel>)
    ensures
        ordered_by_start(simplify_spec(ranges)),
        apart(simplify_spec(ranges)),
        simplify_spec(ranges).len() <= ranges.len(),
        ranges.len() > 0 ==> simplify_spec(ranges).len() > 0,
{
    lemma_sorted_is_ordered(ranges);
    lemma_merged_shape(sorted_by_start(ranges));
    lemma_merged_is_apart(sorted_by_start(ranges));
    lemma_merged_is_ordered(sorted_by_start(ranges));
}

/// A simplified set holds the versions that the set it was made from holds,
/// and no others.
pub proof fn lemma_simplified_covers_the_same(ranges: Seq<RangeModel>, v: VersionModel)
    ensures
        covers(simplify_spec(ranges), v) == covers(ranges, v),
{
    lemma_sorted_is_ordered(ranges);
    lemma_merged_covers_the_same(sorted_by_start(ranges), v);
    lemma_sorted_covers_the_same(ranges, v);
}

/// Simplifying a simplified set gives it back unchanged.
pub proof fn lemma_simplify_is_idempotent(ranges: Seq<RangeModel>)
    ensures
        simplify_spec(simplify_spec(ranges)) == simplify_spec(ranges),
{
    lemma_simplified_is_ordered_and_apart(ranges);
    lemma_sorting_ordered_changes_nothing(simplify_spec(ranges));
    lemma_merging_apart_changes_nothing(simplify_spec(ranges));
}

/// Any set that is ordered by start and whose ranges stand apart is its own
/// simplest form.
pub proof fn lemma_simplest_form_is_kept(ranges: Seq<RangeModel>)
    requires
        ordered_by_start(ranges),
        apart(ranges),
    ensures
        simplify_spec(ranges) == ranges,
{
    lemma_sorting_ordered_changes_nothing(ranges);
    lemma_merging_apart_changes_nothing(ranges);
}

/// The empty set and a set of one range are in their simplest form.
pub proof fn lemma_simplify_small(ranges: Seq<RangeModel>)
    requires
        ranges.len() <= 1,
    ensures
        simplify_spec(ranges) == ranges,
{
    lemma_simplest_form_is_kept(ranges);
}

} // verus!
