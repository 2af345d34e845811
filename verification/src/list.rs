//! List markers: bullets by nesting depth, generated ordinals and task checkboxes.

use vstd::prelude::*;
use vstd::string::StringSliceAdditionalSpecFns;

use crate::ast::{List, ListKind, TaskState};
use crate::bytes::{append_bytes, decimal, lemma_decimal_len};
use crate::wrap::{display_width, spec_display_width};

verus! {

/// A list item's marker as displayed.
#[derive(Debug, Clone, Copy)]
pub enum ListMarkerDisplay<'a> {
    /// A literal bullet.
    Text(&'a str),
    /// A generated ordinal, written as `N.`.
    OrderedGenerated(u64),
}

/// The bullet for an unordered list at the given nesting depth: `•`, `◦` and `▪`
/// in turn.
pub open spec fn spec_unordered_marker(depth: int) -> Seq<char> {
    if depth % 3 == 0 {
        "•"@
    } else if depth % 3 == 1 {
        "◦"@
    } else {
        "▪"@
    }
}

/// Bullets cycle through three distinct one-character glyphs by depth: `•` at the
/// top level, `◦` one level down, `▪` two levels down, then again from `•`; so
/// two lists nested directly in each other, or two levels apart, never share a
/// bullet.
pub proof fn lemma_bullets_cycle_by_depth(depth: int)
    requires
        depth >= 0,
    ensures
        spec_unordered_marker(0) == seq!['•'],
        spec_unordered_marker(1) == seq!['◦'],
        spec_unordered_marker(2) == seq!['▪'],
        spec_unordered_marker(depth).len() == 1,
        spec_unordered_marker(depth + 3) == spec_unordered_marker(depth),
        spec_unordered_marker(depth + 1) != spec_unordered_marker(depth),
        spec_unordered_marker(depth + 2) != spec_unordered_marker(depth),
{
    reveal_strlit("•");
    reveal_strlit("◦");
    reveal_strlit("▪");
    assert("•"@ =~= seq!['•']);
    assert("◦"@ =~= seq!['◦']);
    assert("▪"@ =~= seq!['▪']);
    assert((depth + 3) % 3 == depth % 3);
    assert(spec_unordered_marker(depth + 1)[0] != spec_unordered_marker(depth)[0]);
    assert(spec_unordered_marker(depth + 2)[0] != spec_unordered_marker(depth)[0]);
}

/// The number of an ordered list's item at `index`, saturating at `u64::MAX`.
pub open spec fn spec_ordinal(start: u64, index: int) -> u64 {
    if start + index <= u64::MAX {
        (start + index) as u64
    } else {
        u64::MAX
    }
}

/// The marker of the list item at `index` of a list nested `depth` levels deep.
pub open spec fn marker_matches(marker: ListMarkerDisplay, list_kind: ListKind, index: int, depth: int) -> bool {
    match list_kind {
        ListKind::Ordered { start } => marker == ListMarkerDisplay::OrderedGenerated(
            spec_ordinal(start, index),
        ),
        ListKind::Unordered => marker matches ListMarkerDisplay::Text(text) && text@
            == spec_unordered_marker(depth),
    }
}

/// Returns the marker of the list item at `index` of a list nested `depth` levels
/// deep. Ordinals saturate at `u64::MAX` rather than failing (CommonMark caps starts
/// at nine digits, so this is unobservable for parsed lists).
pub fn list_marker(list: &List<'_>, index: usize, depth: usize) -> (r: ListMarkerDisplay<'static>)
    ensures
        marker_matches(r, list.kind, index as int, depth as int),
{
    match list.kind {
        ListKind::Ordered { start } => {
            let offset = index as u64;
            ListMarkerDisplay::OrderedGenerated(start.saturating_add(offset))
        },
        ListKind::Unordered => ListMarkerDisplay::Text(unordered_marker(depth)),
    }
}

/// The checkbox glyph of a task-list item: `☑` when checked, `☐` when not.
pub open spec fn spec_task_marker(task: TaskState) -> Seq<char> {
    match task {
        TaskState::Checked => "☑"@,
        TaskState::Unchecked => "☐"@,
    }
}

/// Returns the checkbox glyph of a task-list item.
pub fn task_marker(task: TaskState) -> (r: &'static str)
    ensures
        r@ == spec_task_marker(task),
{
    match task {
        TaskState::Checked => "☑",
        TaskState::Unchecked => "☐",
    }
}

fn unordered_marker(depth: usize) -> (r: &'static str)
    ensures
        r@ == spec_unordered_marker(depth as int),
{
    let cycle = depth % 3;
    if cycle == 0 {
        "•"
    } else if cycle == 1 {
        "◦"
    } else {
        "▪"
    }
}

/// The bytes of a marker as written: the bullet, or the ordinal's digits and a period.
pub open spec fn marker_bytes(marker: ListMarkerDisplay) -> Seq<u8> {
    match marker {
        ListMarkerDisplay::Text(text) => text.spec_bytes(),
        ListMarkerDisplay::OrderedGenerated(value) => decimal(value as nat).push(46u8),
    }
}

/// Writes a list marker.
pub fn write_list_marker(out: &mut Vec<u8>, marker: ListMarkerDisplay<'_>)
    ensures
        final(out)@ == old(out)@ + marker_bytes(marker),
{
    match marker {
        ListMarkerDisplay::Text(text) => append_bytes(out, text.as_bytes()),
        ListMarkerDisplay::OrderedGenerated(value) => {
            push_decimal_u64(out, value);
            out.push(46);
        },
    }
}

/// Writes the decimal digits of `value`.
pub fn push_decimal_u64(out: &mut Vec<u8>, value: u64)
    ensures
        final(out)@ == old(out)@ + decimal(value as nat),
    decreases value,
{
    if value >= 10 {
        push_decimal_u64(out, value / 10);
    }
    out.push((48 + value % 10) as u8);
}

/// The display width of a marker's text.
pub open spec fn spec_marker_text_width(marker: ListMarkerDisplay) -> int {
    match marker {
        ListMarkerDisplay::Text(text) => spec_display_width(text@) as int,
        ListMarkerDisplay::OrderedGenerated(value) => decimal(value as nat).len() + 1int,
    }
}

/// The width of the marker column: the marker, a space, and for a task item the
/// checkbox and another space.
pub open spec fn spec_marker_width(marker: ListMarkerDisplay, task: Option<TaskState>) -> int {
    let task_width = match task {
        Some(state) => spec_display_width(spec_task_marker(state)) + 1,
        None => 0,
    };
    spec_marker_text_width(marker) + 1 + task_width
}

/// Returns the width of the marker column before an item's content, saturating at
/// the largest `usize`.
pub fn marker_width(marker: ListMarkerDisplay<'_>, task: Option<TaskState>) -> (r: usize)
    ensures
        r == (if spec_marker_width(marker, task) <= usize::MAX {
            spec_marker_width(marker, task)
        } else {
            usize::MAX as int
        }),
{
    let task_width: usize = match task {
        Some(state) => display_width(task_marker(state)).saturating_add(1),
        None => 0,
    };
    marker_text_width(marker).saturating_add(1).saturating_add(task_width)
}

/// Returns the display width of a marker's text: the bullet's width, or the
/// ordinal's digits and its period.
pub fn marker_text_width(marker: ListMarkerDisplay<'_>) -> (r: usize)
    ensures
        r == spec_marker_text_width(marker),
{
    match marker {
        ListMarkerDisplay::Text(text) => display_width(text),
        ListMarkerDisplay::OrderedGenerated(value) => decimal_width(value) + 1,
    }
}

/// Returns the number of decimal digits of `value`.
pub fn decimal_width(value: u64) -> (r: usize)
    ensures
        r == decimal(value as nat).len(),
        1 <= r <= 20,
{
    let mut digits: usize = 1;
    let mut rest = value;
    proof {
        lemma_decimal_len(value as nat);
    }
    while rest >= 10
        invariant
            1 <= digits <= 20,
            digits + decimal(rest as nat).len() == decimal(value as nat).len() + 1,
            rest <= value,
            rest < 10 ==> decimal(rest as nat).len() == 1,
            value <= u64::MAX,
            digits <= 1 + decimal(value as nat).len() - decimal(rest as nat).len(),
        decreases rest,
    {
        proof {
            lemma_decimal_len(rest as nat);
            lemma_decimal_len((rest / 10) as nat);
            lemma_decimal_bound(value as nat);
        }
        rest = rest / 10;
        digits = digits + 1;
    }
    proof {
        lemma_decimal_bound(value as nat);
    }
    digits
}

proof fn lemma_decimal_bound(v: nat)
    requires
        v <= u64::MAX,
    ensures
        decimal(v).len() <= 20,
{
    reveal_with_fuel(ten_pow, 21);
    assert(ten_pow(20) == 100000000000000000000nat);
    lemma_decimal_len_below(v, 20);
}

/// Ten to the power `n`.
pub open spec fn ten_pow(n: nat) -> nat
    decreases n,
{
    if n == 0 {
        1
    } else {
        10 * ten_pow((n - 1) as nat)
    }
}

proof fn lemma_decimal_len_below(v: nat, n: nat)
    requires
        n >= 1,
        v < ten_pow(n),
    ensures
        decimal(v).len() <= n,
    decreases n,
{
    lemma_decimal_len(v);
    if v >= 10 {
        assert(n >= 2) by {
            if n == 1 {
                assert(ten_pow(1) == 10 * ten_pow(0));
            }
        }
        assert(v / 10 < ten_pow((n - 1) as nat)) by (nonlinear_arith)
            requires v < ten_pow(n), ten_pow(n) == 10 * ten_pow((n - 1) as nat);
        lemma_decimal_len_below(v / 10, (n - 1) as nat);
    }
}

/// An ordinal marker's measured width is the number of bytes written for it, so
/// measurement and emission agree.
pub proof fn lemma_ordered_marker_width_matches_written(value: u64)
    ensures
        spec_marker_text_width(ListMarkerDisplay::OrderedGenerated(value)) == marker_bytes(
            ListMarkerDisplay::OrderedGenerated(value),
        ).len(),
{
}

} // verus!
