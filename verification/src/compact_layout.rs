//! Geometry of the compact chart: one stacked bar whose segments share its
//! width in proportion to the byte counts, and a legend in two columns that
//! gives each language its percentage.

use vstd::prelude::*;
use crate::proportion::{lemma_rounded_ratio_bounded, lemma_rounded_ratio_is_nearest, round_ratio, rounded_ratio};

verus! {

/// Width of the compact chart's canvas.
pub const COMPACT_WIDTH: u128 = 400;

/// Left edge of the stacked bar, and of the legend's first column.
pub const STACK_LEFT: u128 = 20;

/// Top edge of the stacked bar.
pub const STACK_TOP: u128 = 50;

/// Width of the whole stacked bar: the canvas less a margin on both sides.
pub const STACK_WIDTH: u128 = 360;

/// Top of the legend's first row.
pub const LEGEND_TOP: u128 = 90;

/// Height of one legend row.
pub const LEGEND_ROW_HEIGHT: u128 = 24;

/// Distance between the left edges of the legend's two columns.
pub const LEGEND_COLUMN_WIDTH: u128 = 190;

/// Radius of the coloured dot of a legend entry.
pub const LEGEND_DOT_RADIUS: u128 = 6;

/// Percentages are computed in hundredths of a percent of the whole.
pub const PERCENT_SCALE: u128 = 10000;

/// The sum of the byte counts of all entries.
pub open spec fn total_bytes(entries: Seq<(Seq<char>, u64)>) -> nat
    decreases entries.len(),
{
    if entries.len() == 0 {
        0
    } else {
        total_bytes(entries.drop_last()) + entries.last().1 as nat
    }
}

/// The share of `bytes` in `total`, on a scale on which the whole is
/// `scale`, rounded to the nearest integer. Meant for `total > 0`.
pub open spec fn spec_share(bytes: nat, total: nat, scale: nat) -> nat {
    rounded_ratio((bytes * scale) as int, total as int) as nat
}

/// The sum of the rounded shares of the first `count` entries.
pub open spec fn share_sum(entries: Seq<(Seq<char>, u64)>, total: nat, scale: nat, count: nat) -> nat
    decreases count,
{
    if count == 0 {
        0
    } else {
        share_sum(entries, total, scale, (count - 1) as nat) + spec_share(
            entries[count - 1].1 as nat,
            total,
            scale,
        )
    }
}

/// The sum of `bytes * scale` over the first `count` entries: the numerators
/// of their exact shares over the common denominator `total`.
pub open spec fn exact_numerators(entries: Seq<(Seq<char>, u64)>, scale: nat, count: nat) -> nat
    decreases count,
{
    if count == 0 {
        0
    } else {
        exact_numerators(entries, scale, (count - 1) as nat) + entries[count - 1].1 as nat * scale
    }
}

/// Width of the segment that stands for `bytes` out of `total`.
pub open spec fn spec_segment_width(bytes: nat, total: nat) -> nat {
    spec_share(bytes, total, STACK_WIDTH as nat)
}

/// Left edge of the segment of entry `index`: the segments follow each other
/// without a gap, the first at the bar's left edge.
pub open spec fn segment_left(entries: Seq<(Seq<char>, u64)>, index: nat) -> nat {
    STACK_LEFT as nat + share_sum(entries, total_bytes(entries), STACK_WIDTH as nat, index)
}

/// The percentage of `bytes` in `total`, in hundredths of a percent.
pub open spec fn spec_percent_hundredths(bytes: nat, total: nat) -> nat {
    spec_share(bytes, total, PERCENT_SCALE as nat)
}

/// Number of legend rows for `count` entries, two to a row.
pub open spec fn legend_rows(count: nat) -> nat {
    (count + 1) / 2
}

/// Height of the compact chart's canvas for `count` entries: what lies above
/// the legend, and one row height for each legend row.
pub open spec fn spec_compact_height(count: nat) -> nat {
    LEGEND_TOP as nat + legend_rows(count) * LEGEND_ROW_HEIGHT as nat
}

/// Left edge of the legend entry `index`: even entries in the first column,
/// odd ones in the second.
pub open spec fn spec_legend_left(index: nat) -> nat {
    STACK_LEFT as nat + (index % 2) * LEGEND_COLUMN_WIDTH as nat
}

/// Vertical position of the legend entry `index`: entries 0 and 1 in the
/// first row, 2 and 3 in the second, and so on.
pub open spec fn spec_legend_top(index: nat) -> nat {
    LEGEND_TOP as nat + (index / 2) * LEGEND_ROW_HEIGHT as nat
}

/// The total of a prefix grows with the prefix, by one count at a time.
pub proof fn lemma_total_bytes_step(entries: Seq<(Seq<char>, u64)>, count: int)
    requires
        0 <= count < entries.len(),
    ensures
        total_bytes(entries.take(count + 1)) == total_bytes(entries.take(count))
            + entries[count].1 as nat,
{
    assert(entries.take(count + 1).drop_last() =~= entries.take(count));
}

/// No prefix weighs more than the whole, and no single entry does.
pub proof fn lemma_total_bytes_bounds(entries: Seq<(Seq<char>, u64)>, count: int)
    requires
        0 <= count <= entries.len(),
    ensures
        total_bytes(entries.take(count)) <= total_bytes(entries),
        total_bytes(entries.take(count)) <= count * u64::MAX,
        count < entries.len() ==> total_bytes(entries.take(count)) + entries[count].1
            <= total_bytes(entries),
    decreases entries.len() - count,
{
    if count == entries.len() {
        assert(entries.take(count) =~= entries);
    } else {
        lemma_total_bytes_bounds(entries, count + 1);
        lemma_total_bytes_step(entries, count);
    }
    lemma_total_bytes_prefix_limit(entries, count);
}

proof fn lemma_total_bytes_prefix_limit(entries: Seq<(Seq<char>, u64)>, count: int)
    requires
        0 <= count <= entries.len(),
    ensures
        total_bytes(entries.take(count)) <= count * u64::MAX,
    decreases count,
{
    if count > 0 {
        lemma_total_bytes_prefix_limit(entries, count - 1);
        lemma_total_bytes_step(entries, count - 1);
    }
}

/// Before rounding, the shares add up to the whole scale exactly: the share
/// of an entry is `bytes * scale / total`, and the numerators of all entries
/// add up to `scale * total`.
pub proof fn lemma_exact_shares_fill_scale(entries: Seq<(Seq<char>, u64)>, scale: nat)
    ensures
        exact_numerators(entries, scale, entries.len()) == scale * total_bytes(entries),
{
    lemma_exact_numerators(entries, scale, entries.len());
    assert(entries.take(entries.len() as int) =~= entries);
}

proof fn lemma_exact_numerators(entries: Seq<(Seq<char>, u64)>, scale: nat, count: nat)
    requires
        count <= entries.len(),
    ensures
        exact_numerators(entries, scale, count) == scale * total_bytes(entries.take(count as int)),
    decreases count,
{
    if count > 0 {
        lemma_exact_numerators(entries, scale, (count - 1) as nat);
        lemma_total_bytes_step(entries, count - 1);
        let before = total_bytes(entries.take(count - 1));
        let bytes = entries[count - 1].1 as nat;
        assert(scale * (before + bytes) == scale * before + bytes * scale) by (nonlinear_arith);
    } else {
        assert(total_bytes(entries.take(0)) == 0);
        assert(scale * 0 == 0) by (nonlinear_arith);
    }
}

proof fn lemma_share_sum_error(entries: Seq<(Seq<char>, u64)>, total: nat, scale: nat, count: nat)
    requires
        total > 0,
        count <= entries.len(),
    ensures
        2 * total * share_sum(entries, total, scale, count) - 2 * scale * total_bytes(
            entries.take(count as int),
        ) <= count * total,
        2 * scale * total_bytes(entries.take(count as int)) - 2 * total * share_sum(
            entries,
            total,
            scale,
            count,
        ) <= count * total,
    decreases count,
{
    if count > 0 {
        let before = (count - 1) as nat;
        lemma_share_sum_error(entries, total, scale, before);
        lemma_total_bytes_step(entries, count - 1);
        let bytes = entries[count - 1].1 as nat;
        let rounded = rounded_ratio((bytes * scale) as int, total as int);
        lemma_rounded_ratio_is_nearest((bytes * scale) as int, total as int);
        let sum_before = share_sum(entries, total, scale, before) as int;
        let bytes_before = total_bytes(entries.take(before as int)) as int;
        assert(share_sum(entries, total, scale, count) == sum_before + rounded);
        assert(total_bytes(entries.take(count as int)) == bytes_before + bytes);
        let t = total as int;
        let s = scale as int;
        let b = bytes as int;
        let c = count as int;
        assert(2 * t * (sum_before + rounded) - 2 * s * (bytes_before + b) <= c * t
            && 2 * s * (bytes_before + b) - 2 * t * (sum_before + rounded) <= c * t)
            by (nonlinear_arith)
            requires
                2 * t * sum_before - 2 * s * bytes_before <= (c - 1) * t,
                2 * s * bytes_before - 2 * t * sum_before <= (c - 1) * t,
                2 * (b * s) - t < 2 * t * rounded,
                2 * t * rounded <= 2 * (b * s) + t,
        ;
    } else {
        assert(total_bytes(entries.take(0)) == 0);
        assert(2 * scale * 0 == 0) by (nonlinear_arith);
        assert(2 * total * 0 == 0) by (nonlinear_arith);
        assert(count * total == 0) by (nonlinear_arith)
            requires
                count == 0,
        ;
    }
}

/// After rounding, the shares of all entries together miss the whole scale
/// by at most one unit per entry (in fact by at most half a unit per entry).
pub proof fn lemma_rounded_shares_near_scale(entries: Seq<(Seq<char>, u64)>, scale: nat)
    requires
        total_bytes(entries) > 0,
    ensures
        2 * (share_sum(entries, total_bytes(entries), scale, entries.len()) - scale)
            <= entries.len(),
        2 * (scale - share_sum(entries, total_bytes(entries), scale, entries.len()))
            <= entries.len(),
        share_sum(entries, total_bytes(entries), scale, entries.len()) - scale <= entries.len(),
        scale - share_sum(entries, total_bytes(entries), scale, entries.len()) <= entries.len(),
{
    let total = total_bytes(entries);
    let count = entries.len();
    lemma_share_sum_error(entries, total, scale, count);
    assert(entries.take(count as int) =~= entries);
    let sum = share_sum(entries, total, scale, count) as int;
    let t = total as int;
    let s = scale as int;
    let c = count as int;
    assert(2 * (sum - s) <= c && 2 * (s - sum) <= c) by (nonlinear_arith)
        requires
            2 * t * sum - 2 * s * t <= c * t,
            2 * s * t - 2 * t * sum <= c * t,
            t > 0,
    ;
}

/// The segments of the stacked bar share out its width. Before rounding they
/// fill it exactly: the exact widths `bytes * STACK_WIDTH / total` have
/// numerators that add up to `STACK_WIDTH * total`. After rounding, the
/// segments together end within one pixel per entry of the bar's right end.
pub proof fn lemma_segments_fill_the_bar(entries: Seq<(Seq<char>, u64)>)
    requires
        total_bytes(entries) > 0,
    ensures
        exact_numerators(entries, STACK_WIDTH as nat, entries.len()) == STACK_WIDTH
            * total_bytes(entries),
        segment_left(entries, entries.len()) - (STACK_LEFT + STACK_WIDTH) <= entries.len(),
        (STACK_LEFT + STACK_WIDTH) - segment_left(entries, entries.len()) <= entries.len(),
{
    lemma_exact_shares_fill_scale(entries, STACK_WIDTH as nat);
    lemma_rounded_shares_near_scale(entries, STACK_WIDTH as nat);
}

/// The sum of the percentages of the first `count` entries, in hundredths of
/// a percent.
pub open spec fn percent_sum(entries: Seq<(Seq<char>, u64)>, count: nat) -> nat {
    share_sum(entries, total_bytes(entries), PERCENT_SCALE as nat, count)
}

/// The percentages of the legend add up to 100.00 but for rounding: they
/// miss it by at most 0.01 per entry.
pub proof fn lemma_percentages_sum_to_hundred(entries: Seq<(Seq<char>, u64)>)
    requires
        total_bytes(entries) > 0,
    ensures
        percent_sum(entries, entries.len()) - 10000 <= entries.len(),
        10000 - percent_sum(entries, entries.len()) <= entries.len(),
{
    lemma_rounded_shares_near_scale(entries, PERCENT_SCALE as nat);
}

/// A share of a part in a whole that holds it is at most the whole scale.
pub proof fn lemma_share_within_scale(bytes: nat, total: nat, scale: nat)
    requires
        0 < total,
        bytes <= total,
    ensures
        spec_share(bytes, total, scale) <= scale,
{
    assert(bytes * scale <= scale * total) by (nonlinear_arith)
        requires
            bytes <= total,
    ;
    lemma_rounded_ratio_is_nearest((bytes * scale) as int, total as int);
    lemma_rounded_ratio_bounded((bytes * scale) as int, total as int, scale as int);
}

/// The rounded shares of the first `count` entries add up to at most the
/// whole scale for each of them.
pub proof fn lemma_share_sum_bounded(entries: Seq<(Seq<char>, u64)>, scale: nat, count: nat)
    requires
        total_bytes(entries) > 0,
        count <= entries.len(),
    ensures
        share_sum(entries, total_bytes(entries), scale, count) <= count * scale,
    decreases count,
{
    if count > 0 {
        lemma_share_sum_bounded(entries, scale, (count - 1) as nat);
        lemma_total_bytes_bounds(entries, count - 1);
        lemma_share_within_scale(entries[count - 1].1 as nat, total_bytes(entries), scale);
        assert((count - 1) * scale + scale == count * scale) by (nonlinear_arith);
    }
}

/// Adds up the byte counts of all entries.
pub fn sum_bytes(entries: &Vec<(String, u64)>) -> (total: u128)
    ensures
        total == total_bytes(entries.deep_view()),
{
    let ghost model = entries.deep_view();
    let mut total: u128 = 0;
    for index in 0..entries.len()
        invariant
            model == entries.deep_view(),
            total == total_bytes(model.take(index as int)),
    {
        proof {
            lemma_total_bytes_step(model, index as int);
            lemma_total_bytes_bounds(model, index as int + 1);
            assert((index + 1) * u64::MAX <= usize::MAX * u64::MAX) by (nonlinear_arith)
                requires
                    index + 1 <= usize::MAX,
            ;
        }
        total = total + entries[index].1 as u128;
    }
    proof {
        assert(model.take(entries.len() as int) =~= model);
    }
    total
}

/// Computes the rounded share of `bytes` in `total` on the given scale.
pub fn share(bytes: u64, total: u128, scale: u64) -> (rounded: u128)
    requires
        total > 0,
    ensures
        rounded == spec_share(bytes as nat, total as nat, scale as nat),
        rounded <= bytes * scale,
{
    proof {
        assert(bytes * scale <= u64::MAX * u64::MAX) by (nonlinear_arith)
            requires
                bytes <= u64::MAX,
                scale <= u64::MAX,
        ;
        assert((bytes * scale) * 1 <= (bytes * scale) * total) by (nonlinear_arith)
            requires
                total >= 1,
                bytes * scale >= 0,
        ;
        lemma_rounded_ratio_is_nearest((bytes * scale) as int, total as int);
        lemma_rounded_ratio_bounded((bytes * scale) as int, total as int, (bytes * scale) as int);
    }
    round_ratio(bytes as u128 * scale as u128, total)
}

/// Width of the stacked bar's segment for `bytes` out of `total`.
pub fn segment_width(bytes: u64, total: u128) -> (width: u128)
    requires
        total > 0,
    ensures
        width == spec_segment_width(bytes as nat, total as nat),
{
    share(bytes, total, 360)
}

/// The percentage of `bytes` in `total`, in hundredths of a percent.
pub fn percent_hundredths(bytes: u64, total: u128) -> (hundredths: u128)
    requires
        total > 0,
    ensures
        hundredths == spec_percent_hundredths(bytes as nat, total as nat),
{
    share(bytes, total, 10000)
}

/// Height of the compact chart's canvas for `count` entries.
pub fn compact_height(count: usize) -> (height: u128)
    ensures
        height == spec_compact_height(count as nat),
{
    let rows: u128 = (count as u128 + 1) / 2;
    LEGEND_TOP + rows * LEGEND_ROW_HEIGHT
}

/// Left edge of the legend entry `index`.
pub fn legend_left(index: usize) -> (left: u128)
    ensures
        left == spec_legend_left(index as nat),
{
    STACK_LEFT + (index as u128 % 2) * LEGEND_COLUMN_WIDTH
}

/// Vertical position of the legend entry `index`.
pub fn legend_top(index: usize) -> (top: u128)
    ensures
        top == spec_legend_top(index as nat),
{
    LEGEND_TOP + (index as u128 / 2) * LEGEND_ROW_HEIGHT
}

} // verus!
