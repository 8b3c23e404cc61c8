use self_reposcope::bar_layout::{
    bar_top, bar_width, bars_height, reference_bytes, BARS_WIDTH, BAR_LEFT, BAR_RIGHT_PADDING,
    MAX_BAR_WIDTH,
};
use self_reposcope::compact_layout::{
    compact_height, legend_left, legend_top, percent_hundredths, segment_width, share, sum_bytes,
    COMPACT_WIDTH, STACK_LEFT, STACK_WIDTH,
};
use self_reposcope::proportion::round_ratio;

fn pair(language: &str, bytes: u64) -> (String, u64) {
    (language.to_string(), bytes)
}

#[test]
fn round_ratio_rounds_to_the_nearest_integer() {
    assert_eq!(round_ratio(0, 7), 0);
    assert_eq!(round_ratio(7, 7), 1);
    assert_eq!(round_ratio(10, 4), 3); // 2.5 goes up
    assert_eq!(round_ratio(9, 4), 2); // 2.25
    assert_eq!(round_ratio(11, 4), 3); // 2.75
    assert_eq!(round_ratio(1, 3), 0);
    assert_eq!(round_ratio(2, 3), 1);
    assert_eq!(round_ratio(1, 2), 1);
}

#[test]
fn round_ratio_works_at_the_limits() {
    assert_eq!(round_ratio(u128::MAX, 1), u128::MAX);
    assert_eq!(round_ratio(u128::MAX, u128::MAX), 1);
    assert_eq!(round_ratio(u128::MAX, 2), 1u128 << 127);
    assert_eq!(round_ratio(u128::MAX - 1, u128::MAX), 1);
    assert_eq!(round_ratio(u128::MAX / 2, u128::MAX), 0);
    assert_eq!(round_ratio(u128::MAX / 2 + 1, u128::MAX), 1);
}

#[test]
fn the_longest_bar_fills_the_room_between_labels_and_padding() {
    assert_eq!(MAX_BAR_WIDTH, BARS_WIDTH - BAR_LEFT - BAR_RIGHT_PADDING);
    assert_eq!(MAX_BAR_WIDTH, 560);
}

#[test]
fn the_first_entry_has_the_longest_bar() {
    for first in [1u64, 2, 3, 150, 999_983, u64::MAX] {
        let entries = vec![pair("Top", first), pair("Other", first / 2)];
        let reference = reference_bytes(&entries);
        assert_eq!(reference, first);
        assert_eq!(bar_width(entries[0].1, reference), MAX_BAR_WIDTH);
    }
}

#[test]
fn bar_widths_are_rounded_proportions() {
    assert_eq!(bar_width(150, 200), 420);
    assert_eq!(bar_width(1, 3), 187); // 186.67
    assert_eq!(bar_width(1, 1120), 1); // 0.5 goes up
    assert_eq!(bar_width(1, 1121), 0);
    assert_eq!(bar_width(0, 5), 0);
    assert_eq!(bar_width(100, 300), 187);
    assert_eq!(bar_width(u64::MAX, u64::MAX), 560);
}

#[test]
fn a_count_above_the_reference_has_a_bar_beyond_the_track() {
    assert_eq!(bar_width(400, 200), 1120);
    assert_eq!(bar_width(u64::MAX, 1), u64::MAX as u128 * 560);
}

#[test]
fn the_reference_is_one_without_a_first_count() {
    assert_eq!(reference_bytes(&Vec::new()), 1);
    assert_eq!(reference_bytes(&vec![pair("Make", 0), pair("C", 0)]), 1);
    assert_eq!(reference_bytes(&vec![pair("C", 9), pair("Make", 12)]), 9);
}

#[test]
fn bars_stand_one_pitch_apart() {
    assert_eq!(bars_height(0), 20);
    assert_eq!(bars_height(1), 52);
    assert_eq!(bars_height(3), 116);
    assert_eq!(bar_top(0), 20);
    assert_eq!(bar_top(1), 52);
    assert_eq!(bar_top(2), 84);
    assert_eq!(bars_height(usize::MAX), 32 * (usize::MAX as u128) + 20);
    assert_eq!(bar_top(usize::MAX), 32 * (usize::MAX as u128) + 20);
}

#[test]
fn sum_bytes_adds_all_counts() {
    assert_eq!(sum_bytes(&Vec::new()), 0);
    assert_eq!(sum_bytes(&vec![pair("a", 1), pair("b", 2), pair("c", 3)]), 6);
    assert_eq!(
        sum_bytes(&vec![pair("a", u64::MAX), pair("b", u64::MAX)]),
        2 * (u64::MAX as u128)
    );
}

#[test]
fn the_stacked_bar_spans_the_canvas_less_its_margins() {
    assert_eq!(STACK_WIDTH, COMPACT_WIDTH - 2 * STACK_LEFT);
}

#[test]
fn segment_widths_are_rounded_shares() {
    assert_eq!(segment_width(200, 350), 206); // 205.71
    assert_eq!(segment_width(150, 350), 154); // 154.29
    assert_eq!(segment_width(1, 720), 1); // 0.5 goes up
    assert_eq!(segment_width(1, 721), 0);
    assert_eq!(segment_width(5, 5), 360);
    assert_eq!(segment_width(0, 5), 0);
}

#[test]
fn rounded_segments_miss_the_whole_bar_by_less_than_their_number() {
    let cases: Vec<Vec<u64>> = vec![
        vec![1, 1, 1],
        vec![1, 1, 1, 1, 1, 1, 1],
        vec![300, 300, 100],
        vec![5, 0, 0, 2],
        vec![1; 100],
        vec![u64::MAX, 1, u64::MAX],
        vec![7],
    ];
    for bytes in cases {
        let entries: Vec<(String, u64)> = bytes.iter().map(|b| pair("x", *b)).collect();
        let total = sum_bytes(&entries);
        let mut exact: u128 = 0;
        let mut rounded: u128 = 0;
        let mut hundredths: u128 = 0;
        for (_, b) in &entries {
            exact += *b as u128 * 360;
            rounded += segment_width(*b, total);
            hundredths += percent_hundredths(*b, total);
        }
        let count = entries.len() as u128;
        assert_eq!(exact, 360 * total);
        assert!(rounded <= 360 + count && rounded + count >= 360);
        assert!(2 * rounded <= 720 + count && 2 * rounded + count >= 720);
        assert!(hundredths <= 10000 + count && hundredths + count >= 10000);
    }
}

#[test]
fn seven_equal_segments_lose_three_pixels() {
    // 360 / 7 = 51.43 each, so seven segments of 51.
    assert_eq!(segment_width(1, 7), 51);
    assert_eq!(7 * segment_width(1, 7), 357);
}

#[test]
fn percentages_are_in_hundredths() {
    assert_eq!(percent_hundredths(200, 350), 5714);
    assert_eq!(percent_hundredths(150, 350), 4286);
    assert_eq!(percent_hundredths(1, 3), 3333);
    assert_eq!(percent_hundredths(2, 3), 6667);
    assert_eq!(percent_hundredths(3, 3), 10000);
    assert_eq!(percent_hundredths(1, 20000), 1); // 0.005 % goes up
    assert_eq!(percent_hundredths(1, 20001), 0);
}

#[test]
fn share_is_the_rounded_part_of_the_scale() {
    assert_eq!(share(1, 4, 10), 3); // 2.5 goes up
    assert_eq!(share(1, 4, 100), 25);
    assert_eq!(share(u64::MAX, 1, u64::MAX), (u64::MAX as u128) * (u64::MAX as u128));
}

#[test]
fn the_legend_has_two_columns() {
    assert_eq!(compact_height(0), 90);
    assert_eq!(compact_height(1), 114);
    assert_eq!(compact_height(2), 114);
    assert_eq!(compact_height(3), 138);
    assert_eq!(compact_height(4), 138);
    assert_eq!(compact_height(usize::MAX), 90 + 24 * ((usize::MAX as u128 + 1) / 2));
    assert_eq!((legend_left(0), legend_top(0)), (20, 90));
    assert_eq!((legend_left(1), legend_top(1)), (210, 90));
    assert_eq!((legend_left(2), legend_top(2)), (20, 114));
    assert_eq!((legend_left(3), legend_top(3)), (210, 114));
    assert_eq!((legend_left(4), legend_top(4)), (20, 138));
}
