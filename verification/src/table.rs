//! Table layout: natural column widths and shrinking the widest columns to fit.

use vstd::prelude::*;
use vstd::string::StringSliceAdditionalSpecFns;

use crate::ast::{Inline, Table};
use crate::bytes::spaces;

verus! {

/// Columns never shrink below this content width, even when the table then
/// overflows the available width.
pub const MIN_COLUMN_WIDTH: usize = 3;

/// The sum of the column widths.
pub open spec fn sum_widths(widths: Seq<usize>) -> int
    decreases widths.len(),
{
    if widths.len() == 0 {
        0
    } else {
        sum_widths(widths.drop_last()) + widths.last()
    }
}

/// Total display width of a table whose columns have the given content widths: per
/// column one leading border and two padding spaces, plus the closing border.
pub open spec fn table_total_spec(widths: Seq<usize>) -> int {
    sum_widths(widths) + 3 * widths.len() + 1
}

/// The largest width, or `floor` when every width is at most `floor`.
pub open spec fn max_over(widths: Seq<usize>, floor: int) -> int
    decreases widths.len(),
{
    if widths.len() == 0 {
        floor
    } else {
        let m = max_over(widths.drop_last(), floor);
        if widths.last() > m {
            widths.last() as int
        } else {
            m
        }
    }
}

/// The largest width below `bound`, or 0 when there is none.
pub open spec fn max_under(widths: Seq<usize>, bound: int) -> int
    decreases widths.len(),
{
    if widths.len() == 0 {
        0
    } else {
        let m = max_under(widths.drop_last(), bound);
        if widths.last() < bound && widths.last() > m {
            widths.last() as int
        } else {
            m
        }
    }
}

/// The number of columns of width `v`.
pub open spec fn count_eq(widths: Seq<usize>, v: int) -> nat
    decreases widths.len(),
{
    if widths.len() == 0 {
        0
    } else {
        count_eq(widths.drop_last(), v) + if widths.last() == v {
            1nat
        } else {
            0nat
        }
    }
}

/// One shrinking step, described by the tallest width, the level it is lowered
/// toward, how many columns share the tallest width, and how much is taken off in
/// total (`batch`, split as `base` from every tallest column plus one more from the
/// first `extra` of them).
pub struct ShrinkPlan {
    /// The tallest width.
    pub max: int,
    /// The next-tallest width, but never below the minimum.
    pub next_level: int,
    /// How many columns have the tallest width.
    pub tallest: int,
    /// Total columns removed in this step.
    pub batch: int,
    /// Columns removed from every tallest column.
    pub base: int,
    /// How many tallest columns (in order) lose one column more.
    pub extra: int,
}

/// The plan of the next shrinking step: lower the tallest columns toward the
/// next-tallest level by at most the overflow.
pub open spec fn shrink_plan(widths: Seq<usize>, available: int) -> ShrinkPlan {
    let max = max_over(widths, MIN_COLUMN_WIDTH as int);
    let under = max_under(widths, max);
    let next_level = if under > MIN_COLUMN_WIDTH {
        under
    } else {
        MIN_COLUMN_WIDTH as int
    };
    let tallest = count_eq(widths, max) as int;
    let overflow = table_total_spec(widths) - available;
    let room = tallest * (max - next_level);
    let batch = if overflow < room {
        overflow
    } else {
        room
    };
    ShrinkPlan {
        max,
        next_level,
        tallest,
        batch,
        base: batch / tallest,
        extra: batch % tallest,
    }
}

/// A column's width after a step, given how many tallest columns precede it.
pub open spec fn step_width(width: usize, plan: ShrinkPlan, rank: nat) -> usize {
    if width == plan.max {
        (width - plan.base - if rank < plan.extra {
            1int
        } else {
            0int
        }) as usize
    } else {
        width
    }
}

/// The widths after one shrinking step.
pub open spec fn shrink_step(widths: Seq<usize>, available: int) -> Seq<usize> {
    let plan = shrink_plan(widths, available);
    Seq::new(
        widths.len(),
        |i: int| step_width(widths[i], plan, count_eq(widths.take(i), plan.max)),
    )
}

/// Whether the table overflows `available` while some column is still above the
/// minimum width.
pub open spec fn needs_shrink(widths: Seq<usize>, available: int) -> bool {
    table_total_spec(widths) > available && max_over(widths, MIN_COLUMN_WIDTH as int)
        > MIN_COLUMN_WIDTH
}

/// The column widths after shrinking the tallest columns toward the next-tallest
/// level, step by step, until the table fits in `available` or every column sits at
/// the minimum width.
pub open spec fn shrink_spec(widths: Seq<usize>, available: int) -> Seq<usize>
    decreases sum_widths(widths),
{
    if needs_shrink(widths, available) {
        proof {
            lemma_shrink_step(widths, available);
        }
        shrink_spec(shrink_step(widths, available), available)
    } else {
        widths
    }
}

/// Sums of widths are never negative.
pub proof fn lemma_sum_nonneg(widths: Seq<usize>)
    ensures
        sum_widths(widths) >= 0,
    decreases widths.len(),
{
    if widths.len() > 0 {
        lemma_sum_nonneg(widths.drop_last());
    }
}

proof fn lemma_max_over(widths: Seq<usize>, floor: int)
    ensures
        max_over(widths, floor) >= floor,
        forall|i: int| 0 <= i < widths.len() ==> widths[i] <= max_over(widths, floor),
        max_over(widths, floor) > floor ==> exists|i: int|
            0 <= i < widths.len() && widths[i] == max_over(widths, floor),
    decreases widths.len(),
{
    if widths.len() > 0 {
        lemma_max_over(widths.drop_last(), floor);
        let m = max_over(widths.drop_last(), floor);
        assert forall|i: int| 0 <= i < widths.len() implies widths[i] <= max_over(widths, floor) by {
            if i < widths.len() - 1 {
                assert(widths.drop_last()[i] == widths[i]);
            }
        }
        if max_over(widths, floor) > floor {
            if widths.last() > m {
                assert(widths[widths.len() - 1] == max_over(widths, floor));
            } else {
                let k = choose|k: int| 0 <= k < widths.drop_last().len() && widths.drop_last()[k] == m;
                assert(widths[k] == max_over(widths, floor));
            }
        }
    }
}

proof fn lemma_max_under(widths: Seq<usize>, bound: int)
    ensures
        max_under(widths, bound) >= 0,
        max_under(widths, bound) < bound || max_under(widths, bound) == 0,
        forall|i: int| 0 <= i < widths.len() && widths[i] < bound ==> widths[i] <= max_under(widths, bound),
    decreases widths.len(),
{
    if widths.len() > 0 {
        lemma_max_under(widths.drop_last(), bound);
        assert forall|i: int| 0 <= i < widths.len() && widths[i] < bound implies widths[i] <= max_under(widths, bound) by {
            if i < widths.len() - 1 {
                assert(widths.drop_last()[i] == widths[i]);
            }
        }
    }
}

proof fn lemma_count_eq_positive(widths: Seq<usize>, v: int, k: int)
    requires
        0 <= k < widths.len(),
        widths[k] == v,
    ensures
        count_eq(widths, v) >= 1,
        count_eq(widths, v) <= widths.len(),
    decreases widths.len(),
{
    lemma_count_eq_bound(widths, v);
    if k < widths.len() - 1 {
        assert(widths.drop_last()[k] == v);
        lemma_count_eq_positive(widths.drop_last(), v, k);
    }
}

proof fn lemma_count_eq_bound(widths: Seq<usize>, v: int)
    ensures
        count_eq(widths, v) <= widths.len(),
    decreases widths.len(),
{
    if widths.len() > 0 {
        lemma_count_eq_bound(widths.drop_last(), v);
    }
}

/// Facts about a needed shrinking step: it is well defined and takes off exactly
/// `batch` columns in total, at least one, and no more than the overflow.
proof fn lemma_shrink_plan(widths: Seq<usize>, available: int)
    requires
        needs_shrink(widths, available),
    ensures
        ({
            let p = shrink_plan(widths, available);
            &&& p.max > MIN_COLUMN_WIDTH
            &&& MIN_COLUMN_WIDTH <= p.next_level < p.max
            &&& 1 <= p.tallest <= widths.len()
            &&& 1 <= p.batch <= table_total_spec(widths) - available
            &&& p.batch <= p.tallest * (p.max - p.next_level)
            &&& p.batch == p.base * p.tallest + p.extra
            &&& 0 <= p.extra < p.tallest
            &&& 0 <= p.base <= p.max - p.next_level
            &&& (p.base == p.max - p.next_level ==> p.extra == 0)
            &&& forall|i: int| 0 <= i < widths.len() && widths[i] != p.max ==> widths[i] <= p.next_level
        }),
{
    let p = shrink_plan(widths, available);
    lemma_max_over(widths, MIN_COLUMN_WIDTH as int);
    lemma_max_under(widths, p.max);
    let k = choose|k: int| 0 <= k < widths.len() && widths[k] == p.max;
    lemma_count_eq_positive(widths, p.max, k);
    let headroom = p.max - p.next_level;
    assert(headroom >= 1);
    assert(p.tallest * headroom >= 1) by (nonlinear_arith)
        requires p.tallest >= 1, headroom >= 1;
    assert(p.batch == p.base * p.tallest + p.extra && 0 <= p.extra < p.tallest) by (nonlinear_arith)
        requires p.tallest >= 1, p.base == p.batch / p.tallest, p.extra == p.batch % p.tallest;
    assert(0 <= p.base <= headroom) by (nonlinear_arith)
        requires p.tallest >= 1, p.base == p.batch / p.tallest, 0 <= p.batch <= p.tallest * headroom;
    if p.base == headroom {
        assert(p.extra == 0) by (nonlinear_arith)
            requires p.batch == p.base * p.tallest + p.extra, p.extra >= 0, p.batch <= p.tallest * headroom, p.base == headroom;
    }
}

/// The total decrease over a prefix of the columns after a step.
proof fn lemma_step_prefix_sum(widths: Seq<usize>, available: int, n: int)
    requires
        needs_shrink(widths, available),
        0 <= n <= widths.len(),
    ensures
        ({
            let p = shrink_plan(widths, available);
            let c = count_eq(widths.take(n), p.max) as int;
            sum_widths(shrink_step(widths, available).take(n)) == sum_widths(widths.take(n)) - (
            c * p.base + if c < p.extra {
                c
            } else {
                p.extra
            })
        }),
    decreases n,
{
    let p = shrink_plan(widths, available);
    let s = shrink_step(widths, available);
    lemma_shrink_plan(widths, available);
    if n == 0 {
        assert(s.take(0) =~= Seq::<usize>::empty());
        assert(widths.take(0) =~= Seq::<usize>::empty());
        assert(count_eq(widths.take(0), p.max) == 0);
    } else {
        lemma_step_prefix_sum(widths, available, n - 1);
        assert(s.take(n).drop_last() =~= s.take(n - 1));
        assert(widths.take(n).drop_last() =~= widths.take(n - 1));
        let c0 = count_eq(widths.take(n - 1), p.max) as int;
        assert(s[n - 1] == step_width(widths[n - 1], p, count_eq(widths.take(n - 1), p.max)));
        if widths[n - 1] == p.max {
            assert(c0 * p.base + p.base == (c0 + 1) * p.base) by (nonlinear_arith);
        }
    }
}

/// A needed step takes exactly `batch` columns off the table, at least one.
pub proof fn lemma_shrink_step(widths: Seq<usize>, available: int)
    requires
        needs_shrink(widths, available),
    ensures
        shrink_step(widths, available).len() == widths.len(),
        sum_widths(shrink_step(widths, available)) == sum_widths(widths) - shrink_plan(widths, available).batch,
        sum_widths(shrink_step(widths, available)) < sum_widths(widths),
        sum_widths(shrink_step(widths, available)) >= 0,
{
    lemma_sum_nonneg(shrink_step(widths, available));
    let p = shrink_plan(widths, available);
    lemma_shrink_plan(widths, available);
    lemma_step_prefix_sum(widths, available, widths.len() as int);
    assert(widths.take(widths.len() as int) =~= widths);
    assert(shrink_step(widths, available).take(widths.len() as int) =~= shrink_step(widths, available));
    let c = count_eq(widths, p.max) as int;
    assert(c == p.tallest);
    assert(c * p.base == p.base * p.tallest) by (nonlinear_arith)
        requires c == p.tallest;
}

/// What shrinking keeps true of the current widths relative to the given ones.
/// The narrowest a column of natural width `width` is shrunk to: the minimum width,
/// or its natural width when that is already narrower.
pub open spec fn floor_width(width: usize) -> int {
    if width < MIN_COLUMN_WIDTH {
        width as int
    } else {
        MIN_COLUMN_WIDTH as int
    }
}

/// The total width of a table whose every column sits at its floor.
pub open spec fn floor_total(widths: Seq<usize>) -> int {
    table_total_spec(Seq::new(widths.len(), |i: int| floor_width(widths[i]) as usize))
}

pub open spec fn shrink_invariant(current: Seq<usize>, given: Seq<usize>, available: int) -> bool {
    &&& current.len() == given.len()
    &&& forall|i: int|
        0 <= i < current.len() ==> floor_width(given[i]) <= #[trigger] current[i] <= given[i]
    &&& table_total_spec(given) >= available ==> table_total_spec(current) >= available
    &&& forall|i: int, j: int|
        0 <= i < current.len() && 0 <= j < current.len() && current[i] < given[i] ==> current[j]
            <= current[i] + 1
}

proof fn lemma_step_keeps_invariant(current: Seq<usize>, given: Seq<usize>, available: int)
    requires
        shrink_invariant(current, given, available),
        needs_shrink(current, available),
    ensures
        shrink_invariant(shrink_step(current, available), given, available),
{
    let p = shrink_plan(current, available);
    let next = shrink_step(current, available);
    lemma_shrink_plan(current, available);
    lemma_shrink_step(current, available);
    assert forall|i: int| 0 <= i < next.len() implies floor_width(given[i]) <= #[trigger] next[i] <= given[i]
        && (current[i] == p.max ==> next[i] >= p.next_level && next[i] <= p.max - p.base && next[i]
        + 1 >= p.max - p.base) && (current[i] != p.max ==> next[i] == current[i]) by {
        let rank = count_eq(current.take(i), p.max);
        assert(next[i] == step_width(current[i], p, rank));
    }
    assert forall|i: int, j: int|
        0 <= i < next.len() && 0 <= j < next.len() && next[i] < given[i] implies next[j] <= next[i]
        + 1 by {
        if current[i] == p.max {
            if current[j] != p.max {
                assert(current[j] <= p.next_level);
            }
        } else {
            assert(current[j] <= current[i] + 1);
        }
    }
}

proof fn lemma_shrink_keeps_invariant(current: Seq<usize>, given: Seq<usize>, available: int)
    requires
        shrink_invariant(current, given, available),
    ensures
        shrink_invariant(shrink_spec(current, available), given, available),
        table_total_spec(shrink_spec(current, available)) <= available || forall|i: int|
            0 <= i < current.len() ==> #[trigger] shrink_spec(current, available)[i]
                == floor_width(given[i]),
    decreases sum_widths(current),
{
    if needs_shrink(current, available) {
        lemma_step_keeps_invariant(current, given, available);
        lemma_shrink_step(current, available);
        lemma_shrink_keeps_invariant(shrink_step(current, available), given, available);
    } else {
        lemma_max_over(current, MIN_COLUMN_WIDTH as int);
    }
}

/// Sums of widths grow with each width.
proof fn lemma_sum_le(low: Seq<usize>, high: Seq<usize>)
    requires
        low.len() == high.len(),
        forall|i: int| 0 <= i < low.len() ==> low[i] <= high[i],
    ensures
        sum_widths(low) <= sum_widths(high),
    decreases low.len(),
{
    if low.len() > 0 {
        lemma_sum_le(low.drop_last(), high.drop_last());
    }
}

/// The laws of shrinking a table to fit: the column count is kept; every column
/// stays between its floor (the minimum width, or its natural width when that is
/// narrower) and its natural width; the table then fits, or every column sits at
/// its floor; a table that already fits is left unchanged; an overflowing table
/// ends exactly at the available width, or at the total of the floors when that is
/// wider; and only the widest columns are narrowed (a narrowed column is at most
/// one column narrower than any other).
pub proof fn lemma_shrink_to_fit_laws(widths: Seq<usize>, available: int)
    ensures
        shrink_spec(widths, available).len() == widths.len(),
        forall|i: int|
            0 <= i < widths.len() ==> floor_width(widths[i]) <= #[trigger] shrink_spec(widths, available)[i]
                <= widths[i],
        table_total_spec(shrink_spec(widths, available)) <= available || forall|i: int|
            0 <= i < widths.len() ==> #[trigger] shrink_spec(widths, available)[i] == floor_width(widths[i]),
        table_total_spec(widths) <= available ==> shrink_spec(widths, available) == widths,
        table_total_spec(widths) >= available ==> table_total_spec(shrink_spec(widths, available))
            >= available,
        table_total_spec(widths) > available ==> table_total_spec(shrink_spec(widths, available)) == if available
            >= floor_total(widths) {
            available
        } else {
            floor_total(widths)
        },
        forall|i: int, j: int|
            0 <= i < widths.len() && 0 <= j < widths.len() && shrink_spec(widths, available)[i]
                < widths[i] ==> shrink_spec(widths, available)[j] <= shrink_spec(widths, available)[i]
                + 1,
{
    lemma_shrink_keeps_invariant(widths, widths, available);
    let r = shrink_spec(widths, available);
    let floors = Seq::new(widths.len(), |i: int| floor_width(widths[i]) as usize);
    assert forall|i: int| 0 <= i < widths.len() implies floor_width(widths[i]) <= #[trigger] r[i] <= widths[i] by {
        assert(floor_width(widths[i]) <= r[i] <= widths[i]);
    }
    if table_total_spec(widths) > available {
        lemma_sum_le(floors, r);
        if !(table_total_spec(r) <= available) {
            assert(r =~= floors);
        }
    }
}

proof fn lemma_sum_take_le(widths: Seq<usize>, n: int)
    requires
        0 <= n <= widths.len(),
    ensures
        sum_widths(widths.take(n)) <= sum_widths(widths),
        sum_widths(widths.take(n)) >= 0,
    decreases widths.len() - n,
{
    lemma_sum_nonneg(widths.take(n));
    if n < widths.len() {
        lemma_sum_take_le(widths, n + 1);
        assert(widths.take(n + 1).drop_last() =~= widths.take(n));
    } else {
        assert(widths.take(n) =~= widths);
    }
}

/// Total display width of a table whose columns have the given content widths.
pub fn table_total_width(widths: &[usize]) -> (r: usize)
    requires
        table_total_spec(widths@) <= usize::MAX,
    ensures
        r == table_total_spec(widths@),
{
    let mut sum: usize = 0;
    let mut index: usize = 0;
    while index < widths.len()
        invariant
            index <= widths@.len(),
            table_total_spec(widths@) <= usize::MAX,
            sum == sum_widths(widths@.take(index as int)),
        decreases widths@.len() - index,
    {
        proof {
            lemma_sum_take_le(widths@, index + 1);
            assert(widths@.take(index + 1).drop_last() =~= widths@.take(index as int));
        }
        sum = sum + widths[index];
        index += 1;
    }
    assert(widths@.take(index as int) =~= widths@);
    sum + 3 * widths.len() + 1
}

fn max_width_over(widths: &[usize], floor: usize) -> (r: usize)
    ensures
        r == max_over(widths@, floor as int),
{
    let mut best = floor;
    let mut index: usize = 0;
    while index < widths.len()
        invariant
            index <= widths@.len(),
            best == max_over(widths@.take(index as int), floor as int),
        decreases widths@.len() - index,
    {
        assert(widths@.take(index + 1).drop_last() =~= widths@.take(index as int));
        if widths[index] > best {
            best = widths[index];
        }
        index += 1;
    }
    assert(widths@.take(index as int) =~= widths@);
    best
}

fn max_width_under(widths: &[usize], bound: usize) -> (r: usize)
    ensures
        r == max_under(widths@, bound as int),
{
    let mut best: usize = 0;
    let mut index: usize = 0;
    while index < widths.len()
        invariant
            index <= widths@.len(),
            best == max_under(widths@.take(index as int), bound as int),
        decreases widths@.len() - index,
    {
        assert(widths@.take(index + 1).drop_last() =~= widths@.take(index as int));
        if widths[index] < bound && widths[index] > best {
            best = widths[index];
        }
        index += 1;
    }
    assert(widths@.take(index as int) =~= widths@);
    best
}

fn count_width(widths: &[usize], value: usize) -> (r: usize)
    ensures
        r == count_eq(widths@, value as int),
{
    let mut count: usize = 0;
    let mut index: usize = 0;
    while index < widths.len()
        invariant
            index <= widths@.len(),
            count == count_eq(widths@.take(index as int), value as int),
        decreases widths@.len() - index,
    {
        proof {
            lemma_count_eq_bound(widths@.take(index + 1), value as int);
        }
        assert(widths@.take(index + 1).drop_last() =~= widths@.take(index as int));
        if widths[index] == value {
            count = count + 1;
        }
        index += 1;
    }
    assert(widths@.take(index as int) =~= widths@);
    count
}

/// Shrinks the tallest columns toward the next-tallest level until the table fits in
/// `available`, never dropping a column below the minimum width.
///
/// Each step lowers a whole front of equally-tall columns at once, so the loop runs
/// in time proportional to the number of columns rather than to the amount of
/// overflow.
pub fn shrink_to_fit(widths: &mut Vec<usize>, available: usize)
    requires
        table_total_spec(old(widths)@) <= usize::MAX,
    ensures
        final(widths)@ == shrink_spec(old(widths)@, available as int),
{
    loop
        invariant
            table_total_spec(widths@) <= usize::MAX,
            shrink_spec(widths@, available as int) == shrink_spec(old(widths)@, available as int),
        decreases sum_widths(widths@),
    {
        let total = table_total_width(widths.as_slice());
        if total <= available {
            return;
        }
        let max = max_width_over(widths.as_slice(), MIN_COLUMN_WIDTH);
        if max <= MIN_COLUMN_WIDTH {
            return;
        }
        let ghost before = widths@;
        let ghost plan = shrink_plan(before, available as int);
        proof {
            lemma_shrink_plan(before, available as int);
            lemma_shrink_step(before, available as int);
            lemma_sum_nonneg(before);
        }
        let under = max_width_under(widths.as_slice(), max);
        let next_level = if under > MIN_COLUMN_WIDTH {
            under
        } else {
            MIN_COLUMN_WIDTH
        };
        let tallest = count_width(widths.as_slice(), max);
        let overflow = total - available;
        let headroom = max - next_level;
        let room = match tallest.checked_mul(headroom) {
            Some(product) => product,
            None => usize::MAX,
        };
        let batch = if overflow < room {
            overflow
        } else {
            room
        };
        assert(batch == plan.batch);
        let base = batch / tallest;
        let mut extra_steps = batch % tallest;
        let mut index: usize = 0;
        while index < widths.len()
            invariant
                widths@.len() == before.len(),
                index <= before.len(),
                plan == shrink_plan(before, available as int),
                max == plan.max,
                base == plan.base,
                forall|k: int| 0 <= k < index ==> widths@[k] == shrink_step(before, available as int)[k],
                forall|k: int| index <= k < before.len() ==> widths@[k] == before[k],
                extra_steps == if count_eq(before.take(index as int), plan.max) < plan.extra {
                    plan.extra - count_eq(before.take(index as int), plan.max)
                } else {
                    0
                },
                0 <= plan.extra < plan.tallest,
                0 <= plan.base <= plan.max - plan.next_level,
                plan.base == plan.max - plan.next_level ==> plan.extra == 0,
                plan.next_level >= MIN_COLUMN_WIDTH,
            decreases before.len() - index,
        {
            assert(before.take(index + 1).drop_last() =~= before.take(index as int));
            let ghost rank = count_eq(before.take(index as int), plan.max);
            assert(shrink_step(before, available as int)[index as int] == step_width(before[index as int], plan, rank));
            if widths[index] == max {
                let step = if extra_steps > 0 {
                    extra_steps = extra_steps - 1;
                    1
                } else {
                    0
                };
                assert(step == (if rank < plan.extra { 1int } else { 0int }));
                let new_width = widths[index] - (base + step);
                widths.set(index, new_width);
            }
            assert(widths@[index as int] == shrink_step(before, available as int)[index as int]);
            index += 1;
        }
        assert(widths@ =~= shrink_step(before, available as int));
    }
}

/// The number of columns of a table: the wider of the header and the alignment row.
pub open spec fn column_count(table: &Table) -> int {
    if table.alignments@.len() > table.header@.len() {
        table.alignments@.len() as int
    } else {
        table.header@.len() as int
    }
}

/// Widens each column to the measured width of its cell in `row`, if wider.
pub open spec fn widen(widths: Seq<usize>, row: Seq<usize>) -> Seq<usize> {
    Seq::new(
        widths.len(),
        |c: int|
            if c < row.len() && row[c] > widths[c] {
                row[c]
            } else {
                widths[c]
            },
    )
}

/// The natural column widths: the minimum width widened by each measured row
/// (header first).
pub open spec fn natural_widths(count: nat, measured: Seq<Seq<usize>>) -> Seq<usize>
    decreases measured.len(),
{
    if measured.len() == 0 {
        Seq::new(count, |_c: int| MIN_COLUMN_WIDTH)
    } else {
        widen(natural_widths(count, measured.drop_last()), measured.last())
    }
}

/// The natural width of each column is the widest measured cell of that column,
/// header included, and never below the minimum width; cells beyond the column
/// count play no part.
pub proof fn lemma_natural_widths(count: nat, measured: Seq<Seq<usize>>)
    ensures
        natural_widths(count, measured).len() == count,
        forall|c: int| 0 <= c < count ==> #[trigger] natural_widths(count, measured)[c] >= MIN_COLUMN_WIDTH,
        forall|r: int, c: int|
            0 <= r < measured.len() && 0 <= c < measured[r].len() && c < count ==> #[trigger] measured[r][c]
                <= natural_widths(count, measured)[c],
        forall|c: int|
            0 <= c < count ==> #[trigger] natural_widths(count, measured)[c] == MIN_COLUMN_WIDTH || exists|r: int|
                0 <= r < measured.len() && c < measured[r].len() && natural_widths(count, measured)[c]
                    == #[trigger] measured[r][c],
    decreases measured.len(),
{
    if measured.len() > 0 {
        let before = measured.drop_last();
        lemma_natural_widths(count, before);
        let w = natural_widths(count, measured);
        let v = natural_widths(count, before);
        let last = measured.last();
        assert forall|r: int, c: int|
            0 <= r < measured.len() && 0 <= c < measured[r].len() && c < count implies #[trigger] measured[r][c]
                <= w[c] by {
            if r < measured.len() - 1 {
                assert(measured[r] == before[r]);
            }
        }
        assert forall|c: int| 0 <= c < count implies #[trigger] w[c] == MIN_COLUMN_WIDTH || exists|r: int|
            0 <= r < measured.len() && c < measured[r].len() && w[c] == #[trigger] measured[r][c] by {
            if c < last.len() && last[c] > v[c] {
                assert(w[c] == measured[measured.len() - 1][c]);
            } else if v[c] != MIN_COLUMN_WIDTH {
                let r = choose|r: int| 0 <= r < before.len() && c < before[r].len() && v[c] == #[trigger] before[r][c];
                assert(measured[r] == before[r]);
                assert(w[c] == measured[r][c]);
            }
        }
    }
}

/// The column widths of a table with the given cell measurements: the natural widths,
/// shrunk to fit when an available width is given (and the total width is
/// representable).
pub open spec fn layout_spec(count: nat, measured: Seq<Seq<usize>>, available: Option<usize>) -> Seq<usize> {
    let natural = natural_widths(count, measured);
    match available {
        Some(limit) => if table_total_spec(natural) <= usize::MAX {
            shrink_spec(natural, limit as int)
        } else {
            natural
        },
        None => natural,
    }
}

/// The cells of the table's measured rows, header first: every row's cells within
/// the column count.
pub open spec fn measured_row_len(table: &Table, count: int, r: int) -> int {
    let cells = if r == 0 {
        table.header@.len() as int
    } else {
        table.rows@[r - 1]@.len() as int
    };
    if cells < count {
        cells
    } else {
        count
    }
}

/// The cell at column `c` of measured row `r` (header first).
pub open spec fn measured_cell<'a>(table: &Table<'a>, r: int, c: int) -> &'a Vec<Inline<'a>> {
    if r == 0 {
        &table.header@[c]
    } else {
        &table.rows@[r - 1]@[c]
    }
}

/// `measured` holds, for every row (header first) and every cell within the column
/// count, a width that `measure` can return for that cell.
pub open spec fn measured_by<'a, F: Fn(&Vec<Inline<'a>>) -> usize>(
    measure: F,
    table: &Table<'a>,
    measured: Seq<Seq<usize>>,
) -> bool {
    &&& measured.len() == table.rows@.len() + 1
    &&& forall|r: int|
        0 <= r < measured.len() ==> #[trigger] measured[r].len() == measured_row_len(
            table,
            column_count(table),
            r,
        )
    &&& forall|r: int, c: int|
        0 <= r < measured.len() && 0 <= c < measured[r].len() ==> call_ensures(
            measure,
            (measured_cell(table, r, c),),
            #[trigger] measured[r][c],
        )
}

fn measure_row<'a, F: Fn(&Vec<Inline<'a>>) -> usize>(
    row: &Vec<Vec<Inline<'a>>>,
    count: usize,
    measure: &F,
) -> (r: Vec<usize>)
    requires
        forall|cell: &Vec<Inline<'a>>| call_requires(*measure, (cell,)),
    ensures
        r@.len() == if row@.len() < count { row@.len() } else { count as nat },
        forall|c: int| 0 <= c < r@.len() ==> call_ensures(*measure, (&row@[c],), #[trigger] r@[c]),
{
    let mut measured: Vec<usize> = Vec::new();
    let mut index: usize = 0;
    while index < row.len() && index < count
        invariant
            forall|cell: &Vec<Inline<'a>>| call_requires(*measure, (cell,)),
            index <= row@.len(),
            index <= count,
            measured@.len() == index,
            forall|c: int| 0 <= c < index ==> call_ensures(*measure, (&row@[c],), #[trigger] measured@[c]),
        decreases row@.len() - index,
    {
        let width = measure(&row[index]);
        measured.push(width);
        index += 1;
    }
    measured
}

/// Returns the columns' natural widths widened by `row`.
fn widen_widths(widths: &mut Vec<usize>, row: &Vec<usize>)
    ensures
        final(widths)@ == widen(old(widths)@, row@),
{
    let mut index: usize = 0;
    while index < widths.len() && index < row.len()
        invariant
            widths@.len() == old(widths)@.len(),
            index <= widths@.len(),
            forall|c: int| 0 <= c < index ==> widths@[c] == widen(old(widths)@, row@)[c],
            forall|c: int| index <= c < widths@.len() ==> widths@[c] == old(widths)@[c],
        decreases widths@.len() - index,
    {
        if row[index] > widths[index] {
            widths.set(index, row[index]);
        }
        index += 1;
    }
    assert(widths@ =~= widen(old(widths)@, row@));
}

/// Computes the column widths of `table`: each column as wide as its widest measured
/// cell (but at least the minimum width), then shrunk to fit `available` when given.
/// The wider of the header and the alignment row decides the column count; cells
/// beyond it are ignored.
pub fn table_layout<'a, F: Fn(&Vec<Inline<'a>>) -> usize>(
    table: &Table<'a>,
    measure: F,
    available: Option<usize>,
) -> (r: Vec<usize>)
    requires
        forall|cell: &Vec<Inline<'a>>| call_requires(measure, (cell,)),
    ensures
        exists|measured: Seq<Seq<usize>>|
            measured_by(measure, table, measured) && r@ == layout_spec(
                column_count(table) as nat,
                measured,
                available,
            ),
{
    let count = if table.alignments.len() > table.header.len() {
        table.alignments.len()
    } else {
        table.header.len()
    };
    let mut measured: Vec<Vec<usize>> = Vec::new();
    let header = measure_row(&table.header, count, &measure);
    measured.push(header);
    let mut index: usize = 0;
    while index < table.rows.len()
        invariant
            forall|cell: &Vec<Inline<'a>>| call_requires(measure, (cell,)),
            count == column_count(table),
            index <= table.rows@.len(),
            measured@.len() == index + 1,
            forall|r: int|
                0 <= r < measured@.len() ==> #[trigger] measured@[r]@.len() == measured_row_len(
                    table,
                    count as int,
                    r,
                ),
            forall|r: int, c: int|
                0 <= r < measured@.len() && 0 <= c < measured@[r]@.len() ==> call_ensures(
                    measure,
                    (measured_cell(table, r, c),),
                    #[trigger] measured@[r]@[c],
                ),
        decreases table.rows@.len() - index,
    {
        let row = measure_row(&table.rows[index], count, &measure);
        measured.push(row);
        index += 1;
    }
    let ghost rows_view = measured@.map_values(|row: Vec<usize>| row@);
    assert(measured_by(measure, table, rows_view));
    let mut widths: Vec<usize> = Vec::new();
    let mut filled: usize = 0;
    while filled < count
        invariant
            filled <= count,
            widths@ == Seq::new(filled as nat, |_c: int| MIN_COLUMN_WIDTH),
        decreases count - filled,
    {
        widths.push(MIN_COLUMN_WIDTH);
        filled += 1;
        assert(widths@ =~= Seq::new(filled as nat, |_c: int| MIN_COLUMN_WIDTH));
    }
    let mut row_index: usize = 0;
    assert(rows_view.take(0) =~= Seq::<Seq<usize>>::empty());
    while row_index < measured.len()
        invariant
            row_index <= measured@.len(),
            rows_view == measured@.map_values(|row: Vec<usize>| row@),
            widths@ == natural_widths(count as nat, rows_view.take(row_index as int)),
        decreases measured@.len() - row_index,
    {
        widen_widths(&mut widths, &measured[row_index]);
        assert(rows_view.take(row_index + 1).drop_last() =~= rows_view.take(row_index as int));
        row_index += 1;
    }
    assert(rows_view.take(row_index as int) =~= rows_view);
    if let Some(limit) = available {
        if fits_total(widths.as_slice()) {
            shrink_to_fit(&mut widths, limit);
        }
    }
    widths
}

/// Whether the total width of a table with these column widths is representable.
fn fits_total(widths: &[usize]) -> (r: bool)
    ensures
        r == (table_total_spec(widths@) <= usize::MAX),
{
    let mut sum: usize = 0;
    let mut index: usize = 0;
    while index < widths.len()
        invariant
            index <= widths@.len(),
            sum == sum_widths(widths@.take(index as int)),
        decreases widths@.len() - index,
    {
        assert(widths@.take(index + 1).drop_last() =~= widths@.take(index as int));
        match sum.checked_add(widths[index]) {
            Some(next) => sum = next,
            None => {
                proof {
                    lemma_sum_take_le(widths@, index + 1);
                }
                return false;
            },
        }
        index += 1;
    }
    assert(widths@.take(index as int) =~= widths@);
    match widths.len().checked_mul(3) {
        Some(borders) => match sum.checked_add(borders) {
            Some(partial) => partial < usize::MAX,
            None => false,
        },
        None => {
            proof {
                lemma_sum_nonneg(widths@);
            }
            false
        },
    }
}

} // verus!
