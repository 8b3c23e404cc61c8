//! Geometry of the detailed chart: one horizontal bar per language, each as
//! wide as its byte count is in proportion to the first entry's.

use vstd::prelude::*;
use crate::proportion::{lemma_rounded_ratio_bounded, lemma_rounded_ratio_of_multiple, round_ratio, rounded_ratio};

verus! {

/// Width of the detailed chart's canvas.
pub const BARS_WIDTH: u128 = 700;

/// Height of one bar.
pub const BAR_HEIGHT: u128 = 12;

/// Vertical gap above the first bar, between bars and below the last.
pub const BAR_GAP: u128 = 20;

/// Left edge of the language labels.
pub const LABEL_LEFT: u128 = 10;

/// Left edge of every bar.
pub const BAR_LEFT: u128 = 120;

/// Room kept free right of the longest bar.
pub const BAR_RIGHT_PADDING: u128 = 20;

/// Width of the longest bar: the canvas less the labels' column and the
/// padding on the right.
pub const MAX_BAR_WIDTH: u128 = 560;

/// Gap between the end of a bar and its byte count.
pub const COUNT_GAP: u128 = 5;

/// Height of the canvas for `count` bars; a gap alone where there is none.
pub open spec fn spec_bars_height(count: nat) -> nat {
    (BAR_HEIGHT as nat + BAR_GAP as nat) * count + BAR_GAP as nat
}

/// Top edge of bar `index`, counted from 0.
pub open spec fn spec_bar_top(index: nat) -> nat {
    BAR_GAP as nat + index * (BAR_HEIGHT as nat + BAR_GAP as nat)
}

/// The byte count that the longest bar stands for: that of the first entry,
/// or 1 where there is no first entry or its count is zero, so that every
/// proportion has a divisor.
pub open spec fn spec_reference_bytes(entries: Seq<(Seq<char>, u64)>) -> nat {
    if entries.len() == 0 || entries[0].1 == 0 {
        1
    } else {
        entries[0].1 as nat
    }
}

/// Width of the bar for `bytes`: `bytes / reference` of the longest bar's
/// width, rounded to the nearest integer. Meant for `reference > 0`.
pub open spec fn spec_bar_width(bytes: nat, reference: nat) -> nat {
    rounded_ratio((bytes * MAX_BAR_WIDTH as nat) as int, reference as int) as nat
}

/// Left edge of the byte count written right of a bar of width `width`.
pub open spec fn spec_count_left(width: nat) -> nat {
    BAR_LEFT as nat + width + COUNT_GAP as nat
}

/// Height at which the byte count of the bar at `top` is centred.
pub open spec fn spec_count_middle(top: nat) -> nat {
    top + BAR_HEIGHT as nat / 2
}

/// The bar of the first entry has the full width, unless its count is zero.
pub proof fn lemma_first_bar_is_longest(entries: Seq<(Seq<char>, u64)>)
    requires
        entries.len() > 0,
        entries[0].1 > 0,
    ensures
        spec_bar_width(entries[0].1 as nat, spec_reference_bytes(entries)) == MAX_BAR_WIDTH,
{
    let bytes = entries[0].1 as int;
    assert(bytes * 560 == 560 * bytes) by (nonlinear_arith);
    lemma_rounded_ratio_of_multiple(560, bytes);
}

/// Where the counts never rise from one entry to the next, no bar is wider
/// than the longest bar.
pub proof fn lemma_bars_within_track(entries: Seq<(Seq<char>, u64)>, index: int)
    requires
        forall|i: int, j: int|
            0 <= i < j < entries.len() ==> (#[trigger] entries[i]).1 >= (#[trigger] entries[j]).1,
        0 <= index < entries.len(),
    ensures
        spec_bar_width(entries[index].1 as nat, spec_reference_bytes(entries)) <= MAX_BAR_WIDTH,
{
    let bytes = entries[index].1 as nat;
    let reference = spec_reference_bytes(entries);
    if index > 0 {
        assert(entries[0].1 >= entries[index].1);
    }
    assert(bytes <= reference);
    assert(bytes * 560 <= 560 * reference) by (nonlinear_arith)
        requires
            bytes <= reference,
    ;
    lemma_rounded_ratio_bounded((bytes * 560) as int, reference as int, 560);
}

/// Height of the canvas for `count` bars.
pub fn bars_height(count: usize) -> (height: u128)
    ensures
        height == spec_bars_height(count as nat),
{
    let pitch: u128 = BAR_HEIGHT + BAR_GAP;
    assert(pitch == 32);
    pitch * (count as u128) + BAR_GAP
}

/// Top edge of bar `index`.
pub fn bar_top(index: usize) -> (top: u128)
    ensures
        top == spec_bar_top(index as nat),
{
    let pitch: u128 = BAR_HEIGHT + BAR_GAP;
    assert(pitch == 32);
    BAR_GAP + (index as u128) * pitch
}

/// The byte count that the longest bar stands for.
pub fn reference_bytes(entries: &Vec<(String, u64)>) -> (reference: u64)
    ensures
        reference == spec_reference_bytes(entries.deep_view()),
        reference > 0,
{
    if entries.len() == 0 {
        1
    } else {
        assert(entries.deep_view()[0] == entries[0].deep_view());
        let first: u64 = entries[0].1;
        if first == 0 {
            1
        } else {
            first
        }
    }
}

/// Width of the bar for `bytes` where the longest bar stands for `reference`.
pub fn bar_width(bytes: u64, reference: u64) -> (width: u128)
    requires
        reference > 0,
    ensures
        width == spec_bar_width(bytes as nat, reference as nat),
        width <= bytes * MAX_BAR_WIDTH,
{
    proof {
        assert(bytes * 560 <= (bytes * 560) * reference) by (nonlinear_arith)
            requires
                reference >= 1,
                bytes >= 0,
        ;
        lemma_rounded_ratio_bounded((bytes * 560) as int, reference as int, (bytes * 560) as int);
        crate::proportion::lemma_rounded_ratio_is_nearest((bytes * 560) as int, reference as int);
    }
    round_ratio(bytes as u128 * MAX_BAR_WIDTH, reference as u128)
}

} // verus!
