//! Sets of ranges in their simplest form: ordered by start, with ranges that
//! overlap or touch merged into one.
use crate::precedence::Precedence;
use crate::range_set_laws::{
    apart, covers, lemma_simplified_covers_the_same, lemma_simplified_is_ordered_and_apart,
    lemma_simplified_ranges_share_nothing, lemma_simplify_small, ordered_by_start,
};
use crate::semantic_version::{at_most, precedence, SemanticVersion, VersionModel};
use crate::version_range::{bound_of, range_contains, RangeModel, SemanticVersionRange};
use vstd::prelude::*;

verus! {

/// The models of a list of ranges.
pub open spec fn models(ranges: Seq<SemanticVersionRange>) -> Seq<RangeModel> {
    Seq::new(ranges.len(), |i: int| ranges[i]@)
}

/// Precedence of two lower bounds: an absent one is the lowest of all.
pub open spec fn start_precedence(a: Option<VersionModel>, b: Option<VersionModel>) -> Precedence {
    match (a, b) {
        (None, None) => Precedence::Same,
        (None, Some(_)) => Precedence::Lower,
        (Some(_), None) => Precedence::Higher,
        (Some(x), Some(y)) => precedence(x, y),
    }
}

/// `a` does not start after `b`.
pub open spec fn starts_in_order(a: RangeModel, b: RangeModel) -> bool {
    start_precedence(a.start, b.start) != Precedence::Higher
}

/// Where `x` goes in a list ordered by start: behind the last range that
/// does not start after it.
pub open spec fn insert_position(ordered: Seq<RangeModel>, x: RangeModel) -> int
    decreases ordered.len(),
{
    if ordered.len() == 0 || starts_in_order(ordered.last(), x) {
        ordered.len() as int
    } else {
        insert_position(ordered.drop_last(), x)
    }
}

/// The ranges ordered by start. Ranges that start level keep the order
/// in which they came.
pub open spec fn sorted_by_start(ranges: Seq<RangeModel>) -> Seq<RangeModel>
    decreases ranges.len(),
{
    if ranges.len() == 0 {
        Seq::<RangeModel>::empty()
    } else {
        let ordered = sorted_by_start(ranges.drop_last());
        ordered.insert(insert_position(ordered, ranges.last()), ranges.last())
    }
}

/// `next` starts within `current` or right at its end, so that the two make
/// one interval. An absent end is above every start, an absent start below
/// every end.
pub open spec fn touches(current: RangeModel, next: RangeModel) -> bool {
    match (next.start, current.end) {
        (Some(start), Some(end)) => at_most(start, end),
        _ => true,
    }
}

/// The later of two upper bounds; `held` where they are level. An absent
/// bound is the latest of all.
pub open spec fn later_end(held: Option<VersionModel>, new: Option<VersionModel>) -> Option<VersionModel> {
    match (held, new) {
        (Some(h), Some(n)) => if precedence(n, h) == Precedence::Higher {
            new
        } else {
            held
        },
        _ => None,
    }
}

/// `current` extended to take in `next`.
pub open spec fn merged_with(current: RangeModel, next: RangeModel) -> RangeModel {
    RangeModel { start: current.start, end: later_end(current.end, next.end) }
}

/// Goes through ranges ordered by start and merges each into the one before
/// it where the two touch.
pub open spec fn merged(ordered: Seq<RangeModel>) -> Seq<RangeModel>
    decreases ordered.len(),
{
    if ordered.len() == 0 {
        Seq::<RangeModel>::empty()
    } else {
        let done = merged(ordered.drop_last());
        let next = ordered.last();
        if done.len() > 0 && touches(done.last(), next) {
            done.drop_last().push(merged_with(done.last(), next))
        } else {
            done.push(next)
        }
    }
}

/// The simplest set of ranges that holds the same versions as `ranges`.
pub open spec fn simplify_spec(ranges: Seq<RangeModel>) -> Seq<RangeModel> {
    merged(sorted_by_start(ranges))
}

fn compare_starts(a: &SemanticVersionRange, b: &SemanticVersionRange) -> (r: Precedence)
    ensures
        r == start_precedence(a@.start, b@.start),
{
    match (&a.start, &b.start) {
        (None, None) => Precedence::Same,
        (None, Some(_)) => Precedence::Lower,
        (Some(_), None) => Precedence::Higher,
        (Some(x), Some(y)) => x.compare(y),
    }
}

fn touching(current: &SemanticVersionRange, next: &SemanticVersionRange) -> (r: bool)
    ensures
        r == touches(current@, next@),
{
    match (&next.start, &current.end) {
        (Some(start), Some(end)) => match start.compare(end) {
            Precedence::Higher => false,
            _ => true,
        },
        _ => true,
    }
}

fn merge_end(held: Option<SemanticVersion>, new: Option<SemanticVersion>) -> (r: Option<
    SemanticVersion,
>)
    ensures
        bound_of(r) == later_end(
            bound_of(held),
            bound_of(new),
        ),
{
    match (held, new) {
        (Some(h), Some(n)) => match n.compare(&h) {
            Precedence::Higher => Some(n),
            _ => Some(h),
        },
        _ => None,
    }
}

/// Orders ranges by start, keeping the order of those that start level.
pub fn sort_by_start(ranges: Vec<SemanticVersionRange>) -> (r: Vec<SemanticVersionRange>)
    ensures
        models(r@) == sorted_by_start(models(ranges@)),
{
    let ghost input = models(ranges@);
    let mut ordered: Vec<SemanticVersionRange> = Vec::new();
    assert(input.take(0) =~= Seq::<RangeModel>::empty());
    assert(models(ordered@) =~= Seq::<RangeModel>::empty());
    for range in it: ranges.into_iter()
        invariant
            it.seq() == ranges@,
            input == models(ranges@),
            models(ordered@) == sorted_by_start(input.take(it.index() as int)),
    {
        let ghost before = models(ordered@);
        let ghost prefix = input.take(it.index() + 1);
        proof {
            assert(prefix.drop_last() =~= input.take(it.index() as int));
            assert(prefix.last() == range@);
        }
        let mut p: usize = ordered.len();
        assert(before.take(p as int) =~= before);
        while p > 0 && compare_starts(&ordered[p - 1], &range) == Precedence::Higher
            invariant
                p <= ordered.len(),
                before == models(ordered@),
                insert_position(before, range@) == insert_position(before.take(p as int), range@),
            decreases p,
        {
            proof {
                let part = before.take(p as int);
                assert(part.last() == ordered@[p - 1]@);
                assert(part.drop_last() =~= before.take(p - 1));
            }
            p -= 1;
        }
        proof {
            assert(before.take(ordered.len() as int) =~= before);
            let part = before.take(p as int);
            if p > 0 {
                assert(part.last() == ordered@[p - 1]@);
            }
            assert(insert_position(part, range@) == p);
        }
        ordered.insert(p, range);
        assert(models(ordered@) =~= before.insert(p as int, range@));
    }
    assert(input.take(ranges@.len() as int) =~= input);
    ordered
}

/// Merges ranges that touch, in a list ordered by start.
pub fn merge_touching(ordered: Vec<SemanticVersionRange>) -> (r: Vec<SemanticVersionRange>)
    ensures
        models(r@) == merged(models(ordered@)),
{
    let ghost input = models(ordered@);
    let mut done: Vec<SemanticVersionRange> = Vec::new();
    assert(input.take(0) =~= Seq::<RangeModel>::empty());
    assert(models(done@) =~= Seq::<RangeModel>::empty());
    for next in it: ordered.into_iter()
        invariant
            it.seq() == ordered@,
            input == models(ordered@),
            models(done@) == merged(input.take(it.index() as int)),
    {
        let ghost before = models(done@);
        let ghost prefix = input.take(it.index() + 1);
        proof {
            assert(prefix.drop_last() =~= input.take(it.index() as int));
            assert(prefix.last() == next@);
        }
        let n = done.len();
        if n > 0 && touching(&done[n - 1], &next) {
            let current = done.pop().unwrap();
            let SemanticVersionRange { start, end } = current;
            let widened = SemanticVersionRange { start, end: merge_end(end, next.end) };
            assert(widened@ == merged_with(before.last(), next@));
            done.push(widened);
            assert(models(done@) =~= before.drop_last().push(merged_with(before.last(), next@)));
        } else {
            if n > 0 {
                assert(before.last() == done@[n - 1]@);
            }
            done.push(next);
            assert(models(done@) =~= before.push(next@));
        }
    }
    assert(input.take(ordered@.len() as int) =~= input);
    done
}

/// Sorts the ranges by start and merges those that overlap or touch. The
/// result is ordered, its ranges stand apart and share no version, and it
/// holds the versions that `ranges` hold and no others. A set of at most
/// one range comes back as it is.
pub fn simplify_range_set(ranges: Vec<SemanticVersionRange>) -> (r: Vec<SemanticVersionRange>)
    ensures
        models(r@) == simplify_spec(models(ranges@)),
        ordered_by_start(models(r@)),
        apart(models(r@)),
        forall|v: VersionModel| covers(models(r@), v) == covers(models(ranges@), v),
        forall|i: int, j: int, v: VersionModel|
            0 <= i < j < r.len() && range_contains(models(r@)[i], v) ==> !range_contains(
                models(r@)[j],
                v,
            ),
        r.len() <= ranges.len(),
        ranges.len() <= 1 ==> models(r@) == models(ranges@),
{
    proof {
        let input = models(ranges@);
        lemma_simplified_is_ordered_and_apart(input);
        assert forall|v: VersionModel| covers(simplify_spec(input), v) == covers(input, v) by {
            lemma_simplified_covers_the_same(input, v);
        }
        if ranges.len() <= 1 {
            lemma_simplify_small(input);
        }
        let out = simplify_spec(input);
        assert forall|i: int, j: int, v: VersionModel|
            0 <= i < j < out.len() && range_contains(out[i], v) implies !range_contains(
            out[j],
            v,
        ) by {
            lemma_simplified_ranges_share_nothing(input, i, j, v);
        }
    }
    merge_touching(sort_by_start(ranges))
}

} // verus!
