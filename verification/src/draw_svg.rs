//! The two charts as vector documents: the detailed chart with one bar per
//! language, and the compact chart with one stacked bar and a legend. Each
//! document is complete and refers to nothing outside itself.

use vstd::prelude::*;
use vstd::string::*;
use crate::bar_layout::{
    bar_top, bar_width, bars_height, reference_bytes, spec_bar_top, spec_bar_width,
    spec_bars_height, spec_count_left, spec_count_middle, spec_reference_bytes, BARS_WIDTH,
    BAR_HEIGHT, BAR_LEFT, COUNT_GAP, LABEL_LEFT,
};
use crate::compact_layout::{
    compact_height, legend_left, legend_top, lemma_share_sum_bounded, percent_hundredths,
    segment_left, segment_width, spec_compact_height, spec_legend_left, spec_legend_top,
    spec_percent_hundredths, spec_segment_width, sum_bytes, total_bytes, COMPACT_WIDTH,
    LEGEND_DOT_RADIUS, STACK_LEFT, STACK_TOP, STACK_WIDTH,
};
use crate::decimal::{decimal_text, push_decimal, push_two_places, two_place_text};
use crate::get_language_color::{display_color, ColorMap};

verus! {

/// Opens the detailed chart, up to the canvas width.
pub const BARS_OPEN: &'static str =
    "<?xml version=\"1.0\" encoding=\"UTF-8\" standalone=\"no\"?>\n<svg width=\"";

/// Ends an attribute and opens the height.
pub const HEIGHT_ATTR: &'static str = "\" height=\"";

/// Ends the opening tag of either chart.
pub const CANVAS_END: &'static str = "\" xmlns=\"http://www.w3.org/2000/svg\">\n";

/// Closes either chart.
pub const CANVAS_CLOSE: &'static str = "</svg>\n";

/// Opens a text element or a bar, up to its left edge.
pub const LABEL_OPEN: &'static str = "<text x=\"";

/// Ends a left edge and opens the top edge.
pub const TOP_ATTR: &'static str = "\" y=\"";

/// Style of a language label, up to the language name.
pub const LABEL_STYLE: &'static str =
    "\" font-size=\"13\" font-family=\"system-ui, -apple-system, BlinkMacSystemFont, 'Segoe UI', 'Noto Sans', sans-serif\" fill='#333' alignment-baseline=\"hanging\">";

/// Closes a language label and opens its bar, up to the bar's left edge.
pub const BAR_OPEN: &'static str = "</text>\n<rect x=\"";

/// Ends an attribute and opens the width.
pub const WIDTH_ATTR: &'static str = "\" width=\"";

/// Ends an attribute and opens the colour.
pub const FILL_ATTR: &'static str = "\" fill=\"";

/// Rounds a bar's corners and opens its entrance animation, which grows the
/// bar from nothing up to its final width.
pub const BAR_GROW: &'static str =
    "\" rx=\"5\" ry=\"5\">\n    <animate attributeName=\"width\" from=\"0\" to=\"";

/// Ends the animation, which runs once and stays at the final width, closes
/// the bar and opens the byte count, up to its left edge.
pub const COUNT_OPEN: &'static str = "\" dur=\"0.6s\" fill=\"freeze\" />\n</rect>\n<text x=\"";

/// Style of a byte count, up to its colour.
pub const COUNT_STYLE: &'static str =
    "\" font-size=\"8\" font-family=\"system-ui, -apple-system, BlinkMacSystemFont, 'Segoe UI', 'Noto Sans', sans-serif\" alignment-baseline=\"middle\" fill=\"";

/// Ends an opening tag whose last attribute is a colour.
pub const TAG_END: &'static str = "\">";

/// Closes a text element.
pub const TEXT_CLOSE: &'static str = "</text>\n";

/// The opening of the detailed chart for `count` bars.
pub open spec fn bars_prolog(count: nat) -> Seq<char> {
    BARS_OPEN@ + decimal_text(BARS_WIDTH as nat) + HEIGHT_ATTR@ + decimal_text(
        spec_bars_height(count),
    ) + CANVAS_END@
}

/// One entry of the detailed chart: the language name at the left, the bar of
/// the given width in the given colour, and right of the bar's end the byte
/// count in the same colour.
pub open spec fn bar_row_markup(
    language: Seq<char>,
    bytes: nat,
    color: Seq<char>,
    top: nat,
    width: nat,
) -> Seq<char> {
    LABEL_OPEN@ + decimal_text(LABEL_LEFT as nat) + TOP_ATTR@ + decimal_text(top) + LABEL_STYLE@
        + language + BAR_OPEN@ + decimal_text(BAR_LEFT as nat) + TOP_ATTR@ + decimal_text(top)
        + WIDTH_ATTR@ + decimal_text(width) + HEIGHT_ATTR@ + decimal_text(BAR_HEIGHT as nat)
        + FILL_ATTR@ + color + BAR_GROW@ + decimal_text(width) + COUNT_OPEN@ + decimal_text(
        spec_count_left(width),
    ) + TOP_ATTR@ + decimal_text(spec_count_middle(top)) + COUNT_STYLE@ + color + TAG_END@
        + decimal_text(bytes) + TEXT_CLOSE@
}

/// The row of entry `index` of the detailed chart, with its position, its
/// width in proportion to the first entry and its colour from the table.
pub open spec fn bar_row_of(
    entries: Seq<(Seq<char>, u64)>,
    colors: Map<Seq<char>, Seq<char>>,
    index: int,
) -> Seq<char> {
    bar_row_markup(
        entries[index].0,
        entries[index].1 as nat,
        display_color(colors, entries[index].0),
        spec_bar_top(index as nat),
        spec_bar_width(entries[index].1 as nat, spec_reference_bytes(entries)),
    )
}

/// The rows of the first `count` entries, in the order of the entries.
pub open spec fn bar_rows(
    entries: Seq<(Seq<char>, u64)>,
    colors: Map<Seq<char>, Seq<char>>,
    count: nat,
) -> Seq<char>
    decreases count,
{
    if count == 0 {
        Seq::empty()
    } else {
        bar_rows(entries, colors, (count - 1) as nat) + bar_row_of(entries, colors, count - 1)
    }
}

/// The detailed chart of `entries`: the opening, one row per entry, the
/// closing tag.
pub open spec fn bars_document(
    entries: Seq<(Seq<char>, u64)>,
    colors: Map<Seq<char>, Seq<char>>,
) -> Seq<char> {
    bars_prolog(entries.len()) + bar_rows(entries, colors, entries.len()) + CANVAS_CLOSE@
}

fn write_bars_prolog(count: usize) -> (text: String)
    ensures
        text@ == bars_prolog(count as nat),
{
    let mut text = String::from_str(BARS_OPEN);
    push_decimal(&mut text, BARS_WIDTH);
    text.append(HEIGHT_ATTR);
    push_decimal(&mut text, bars_height(count));
    text.append(CANVAS_END);
    text
}

fn write_bar_row(language: &str, bytes: u64, color: &str, top: u128, width: u128) -> (text:
    String)
    requires
        top <= u128::MAX - BAR_HEIGHT,
        width <= u128::MAX - BAR_LEFT - COUNT_GAP,
    ensures
        text@ == bar_row_markup(language@, bytes as nat, color@, top as nat, width as nat),
{
    let mut text = String::from_str(LABEL_OPEN);
    push_decimal(&mut text, LABEL_LEFT);
    text.append(TOP_ATTR);
    push_decimal(&mut text, top);
    text.append(LABEL_STYLE);
    text.append(language);
    text.append(BAR_OPEN);
    push_decimal(&mut text, BAR_LEFT);
    text.append(TOP_ATTR);
    push_decimal(&mut text, top);
    text.append(WIDTH_ATTR);
    push_decimal(&mut text, width);
    text.append(HEIGHT_ATTR);
    push_decimal(&mut text, BAR_HEIGHT);
    text.append(FILL_ATTR);
    text.append(color);
    text.append(BAR_GROW);
    push_decimal(&mut text, width);
    text.append(COUNT_OPEN);
    push_decimal(&mut text, BAR_LEFT + width + COUNT_GAP);
    text.append(TOP_ATTR);
    push_decimal(&mut text, top + BAR_HEIGHT / 2);
    text.append(COUNT_STYLE);
    text.append(color);
    text.append(TAG_END);
    push_decimal(&mut text, bytes as u128);
    text.append(TEXT_CLOSE);
    text
}

/// Draws the detailed chart: one bar per entry, in the order of the entries,
/// each as wide as its byte count is in proportion to the first entry's, in
/// the language's colour or in the fallback grey. Without entries the chart
/// is an empty canvas one gap high.
pub fn generate_svg(lang_vec: &Vec<(String, u64)>, color_map: &ColorMap) -> (document: String)
    ensures
        document@ == bars_document(lang_vec.deep_view(), color_map@),
{
    let ghost entries = lang_vec.deep_view();
    let ghost colors = color_map@;
    let reference = reference_bytes(lang_vec);
    let mut document = write_bars_prolog(lang_vec.len());
    for index in 0..lang_vec.len()
        invariant
            entries == lang_vec.deep_view(),
            colors == color_map@,
            reference == spec_reference_bytes(entries),
            reference > 0,
            document@ == bars_prolog(entries.len()) + bar_rows(entries, colors, index as nat),
    {
        let entry = &lang_vec[index];
        assert(entries[index as int] == entry.deep_view());
        let color = color_map.color_of(entry.0.as_str());
        let top = bar_top(index);
        let width = bar_width(entry.1, reference);
        let row = write_bar_row(entry.0.as_str(), entry.1, color.as_str(), top, width);
        assert(row@ == bar_row_of(entries, colors, index as int));
        let ghost before = document@;
        document.append(row.as_str());
        assert(document@ =~= bars_prolog(entries.len()) + bar_rows(
            entries,
            colors,
            (index + 1) as nat,
        )) by {
            assert(document@ == before + row@);
        }
    }
    document.append(CANVAS_CLOSE);
    document
}

/// Why a chart could not be drawn.
#[derive(Debug, Clone, Copy, PartialEq, Eq)]
pub enum ChartError {
    /// The byte counts add up to zero, so no entry has a proportion: there
    /// is no data to render.
    ZeroTotalBytes,
}

impl ChartError {
    /// The condition in words.
    pub fn message(&self) -> (text: String)
        ensures
            text@ == "no data to render"@,
    {
        String::from_str("no data to render")
    }
}

/// Opens the compact chart, up to the canvas width.
pub const COMPACT_OPEN: &'static str =
    "<?xml version=\"1.0\" encoding=\"UTF-8\"?>\n<svg width=\"";

/// Opens the embedded stylesheet.
pub const STYLE_OPEN: &'static str = "<style>";

/// Closes the stylesheet and opens the frame round the canvas, up to the
/// frame's width.
pub const FRAME_OPEN: &'static str = "</style>\n<rect x=\"0\" y=\"0\" width=\"";

/// Ends the frame, draws the title and opens the clip shape of the stacked
/// bar, a capsule, up to its left edge.
pub const TITLE: &'static str =
    "\" fill=\"none\" stroke='#ccc' stroke-width=\"1\" rx=\"10\" ry=\"10\" />\n<text id=\"title\" x=\"20\" y=\"30\" font-size=\"18\" font-weight=\"bold\" fill='#2563eb' font-family=\"system-ui, -apple-system, sans-serif\">Most Used Languages</text>\n\n<defs>\n    <clipPath id=\"roundedClip\">\n        <rect id=\"bar_back\" x=\"";

/// Ends the clip shape and opens the grey capsule behind the segments, up to
/// its width.
pub const CAPSULE_OPEN: &'static str =
    "\" height=\"10\" rx=\"5\" ry=\"5\">\n        </rect>\n    </clipPath>\n</defs>\n<rect width=\"";

/// Between the capsule's width and its left edge.
pub const CAPSULE_LEFT: &'static str = "\" height=\"10\" x=\"";

/// Ends the capsule and opens the group of segments, which the capsule
/// clips: only the ends of the whole bar are round.
pub const SEGMENTS_OPEN: &'static str =
    "\" rx=\"5\" ry=\"5\" fill='#ccc' />\n<g clip-path=\"url(#roundedClip)\">\n";

/// Opens a segment, up to its left edge.
pub const SEGMENT_OPEN: &'static str = "    <rect x=\"";

/// Between a segment's width and its colour.
pub const SEGMENT_FILL: &'static str = "\" height=\"10\" fill=\"";

/// Ends a segment.
pub const SEGMENT_END: &'static str = "\" />\n";

/// Closes the group of segments and opens the legend.
pub const LEGEND_OPEN: &'static str = "</g>\n<g id=\"lang_legend\">\n";

/// Opens the dot of a legend entry, up to its centre.
pub const DOT_OPEN: &'static str = "<circle cx=\"";

/// Between the two coordinates of a dot's centre.
pub const DOT_TOP: &'static str = "\" cy=\"";

/// Between a dot's centre and its radius.
pub const DOT_RADIUS: &'static str = "\" r=\"";

/// Ends a dot and opens the text of its legend entry, up to its left edge.
pub const LEGEND_TEXT_OPEN: &'static str = "\" />\n<text x=\"";

/// Style of a legend text, up to the language name.
pub const LEGEND_STYLE: &'static str =
    "\" font-size=\"13\" font-family=\"system-ui, -apple-system, sans-serif\" fill='#333'>";

/// Between a language name and its percentage.
pub const SPACE: &'static str = " ";

/// The percent sign, and the end of a legend text.
pub const PERCENT_CLOSE: &'static str = "%</text>\n";

/// Closes the legend.
pub const LEGEND_CLOSE: &'static str = "</g>\n";

/// The opening of the compact chart for `count` entries: the canvas, the
/// embedded stylesheet, the frame, the title and the capsule of the stacked
/// bar.
pub open spec fn compact_prolog(count: nat, stylesheet: Seq<char>) -> Seq<char> {
    COMPACT_OPEN@ + decimal_text(COMPACT_WIDTH as nat) + HEIGHT_ATTR@ + decimal_text(
        spec_compact_height(count),
    ) + CANVAS_END@ + STYLE_OPEN@ + stylesheet + FRAME_OPEN@ + decimal_text(
        (COMPACT_WIDTH - 1) as nat,
    ) + HEIGHT_ATTR@ + decimal_text((spec_compact_height(count) - 1) as nat) + TITLE@
        + decimal_text(STACK_LEFT as nat) + TOP_ATTR@ + decimal_text(STACK_TOP as nat) + WIDTH_ATTR@
        + decimal_text(STACK_WIDTH as nat) + CAPSULE_OPEN@ + decimal_text(STACK_WIDTH as nat)
        + CAPSULE_LEFT@ + decimal_text(STACK_LEFT as nat) + TOP_ATTR@ + decimal_text(
        STACK_TOP as nat,
    ) + SEGMENTS_OPEN@
}

/// One segment of the stacked bar.
pub open spec fn segment_markup(left: nat, width: nat, color: Seq<char>) -> Seq<char> {
    SEGMENT_OPEN@ + decimal_text(left) + TOP_ATTR@ + decimal_text(STACK_TOP as nat) + WIDTH_ATTR@
        + decimal_text(width) + SEGMENT_FILL@ + color + SEGMENT_END@
}

/// The segment of entry `index`: it starts where the segment before it ends,
/// and its width is the entry's share of the bar's whole width.
pub open spec fn segment_of(
    entries: Seq<(Seq<char>, u64)>,
    colors: Map<Seq<char>, Seq<char>>,
    index: int,
) -> Seq<char> {
    segment_markup(
        segment_left(entries, index as nat),
        spec_segment_width(entries[index].1 as nat, total_bytes(entries)),
        display_color(colors, entries[index].0),
    )
}

/// The segments of the first `count` entries, in the order of the entries.
pub open spec fn segments(
    entries: Seq<(Seq<char>, u64)>,
    colors: Map<Seq<char>, Seq<char>>,
    count: nat,
) -> Seq<char>
    decreases count,
{
    if count == 0 {
        Seq::empty()
    } else {
        segments(entries, colors, (count - 1) as nat) + segment_of(entries, colors, count - 1)
    }
}

/// One legend entry at the given place: a dot in the language's colour, the
/// language name and its percentage with two decimal places.
pub open spec fn legend_markup(
    language: Seq<char>,
    hundredths: nat,
    color: Seq<char>,
    left: nat,
    top: nat,
) -> Seq<char> {
    DOT_OPEN@ + decimal_text(left + 10) + DOT_TOP@ + decimal_text(top) + DOT_RADIUS@
        + decimal_text(LEGEND_DOT_RADIUS as nat) + FILL_ATTR@ + color + LEGEND_TEXT_OPEN@
        + decimal_text(left + LEGEND_DOT_RADIUS as nat + 20) + TOP_ATTR@ + decimal_text(top + 4)
        + LEGEND_STYLE@ + language + SPACE@ + two_place_text(hundredths) + PERCENT_CLOSE@
}

/// The legend entry of entry `index`, at its place in the two columns.
pub open spec fn legend_entry_of(
    entries: Seq<(Seq<char>, u64)>,
    colors: Map<Seq<char>, Seq<char>>,
    index: int,
) -> Seq<char> {
    legend_markup(
        entries[index].0,
        spec_percent_hundredths(entries[index].1 as nat, total_bytes(entries)),
        display_color(colors, entries[index].0),
        spec_legend_left(index as nat),
        spec_legend_top(index as nat),
    )
}

/// The legend entries of the first `count` entries, in the order of the
/// entries.
pub open spec fn legend(
    entries: Seq<(Seq<char>, u64)>,
    colors: Map<Seq<char>, Seq<char>>,
    count: nat,
) -> Seq<char>
    decreases count,
{
    if count == 0 {
        Seq::empty()
    } else {
        legend(entries, colors, (count - 1) as nat) + legend_entry_of(entries, colors, count - 1)
    }
}

/// The compact chart of `entries`: the opening, the segments of the stacked
/// bar, the legend, the closing tag.
pub open spec fn compact_document(
    entries: Seq<(Seq<char>, u64)>,
    colors: Map<Seq<char>, Seq<char>>,
    stylesheet: Seq<char>,
) -> Seq<char> {
    compact_prolog(entries.len(), stylesheet) + segments(entries, colors, entries.len())
        + LEGEND_OPEN@ + legend(entries, colors, entries.len()) + LEGEND_CLOSE@ + CANVAS_CLOSE@
}

fn write_compact_prolog(count: usize, stylesheet: &str) -> (text: String)
    ensures
        text@ == compact_prolog(count as nat, stylesheet@),
{
    let height = compact_height(count);
    let mut text = String::from_str(COMPACT_OPEN);
    push_decimal(&mut text, COMPACT_WIDTH);
    text.append(HEIGHT_ATTR);
    push_decimal(&mut text, height);
    text.append(CANVAS_END);
    text.append(STYLE_OPEN);
    text.append(stylesheet);
    text.append(FRAME_OPEN);
    push_decimal(&mut text, COMPACT_WIDTH - 1);
    text.append(HEIGHT_ATTR);
    push_decimal(&mut text, height - 1);
    text.append(TITLE);
    push_decimal(&mut text, STACK_LEFT);
    text.append(TOP_ATTR);
    push_decimal(&mut text, STACK_TOP);
    text.append(WIDTH_ATTR);
    push_decimal(&mut text, STACK_WIDTH);
    text.append(CAPSULE_OPEN);
    push_decimal(&mut text, STACK_WIDTH);
    text.append(CAPSULE_LEFT);
    push_decimal(&mut text, STACK_LEFT);
    text.append(TOP_ATTR);
    push_decimal(&mut text, STACK_TOP);
    text.append(SEGMENTS_OPEN);
    text
}

fn write_segment(left: u128, width: u128, color: &str) -> (text: String)
    ensures
        text@ == segment_markup(left as nat, width as nat, color@),
{
    let mut text = String::from_str(SEGMENT_OPEN);
    push_decimal(&mut text, left);
    text.append(TOP_ATTR);
    push_decimal(&mut text, STACK_TOP);
    text.append(WIDTH_ATTR);
    push_decimal(&mut text, width);
    text.append(SEGMENT_FILL);
    text.append(color);
    text.append(SEGMENT_END);
    text
}

fn write_legend_entry(language: &str, hundredths: u128, color: &str, left: u128, top: u128) -> (text:
    String)
    requires
        left <= u128::MAX - 26,
        top <= u128::MAX - 4,
    ensures
        text@ == legend_markup(language@, hundredths as nat, color@, left as nat, top as nat),
{
    let mut text = String::from_str(DOT_OPEN);
    push_decimal(&mut text, left + 10);
    text.append(DOT_TOP);
    push_decimal(&mut text, top);
    text.append(DOT_RADIUS);
    push_decimal(&mut text, LEGEND_DOT_RADIUS);
    text.append(FILL_ATTR);
    text.append(color);
    text.append(LEGEND_TEXT_OPEN);
    push_decimal(&mut text, left + LEGEND_DOT_RADIUS + 20);
    text.append(TOP_ATTR);
    push_decimal(&mut text, top + 4);
    text.append(LEGEND_STYLE);
    text.append(language);
    text.append(SPACE);
    push_two_places(&mut text, hundredths);
    text.append(PERCENT_CLOSE);
    text
}

/// Draws the compact chart: one stacked bar in which every entry has a
/// segment as wide as its share of all bytes, and below it a legend in two
/// columns with the percentage of every entry. `stylesheet` is embedded as
/// it is. Where the byte counts add up to zero, and so where there is no
/// entry, no share exists and nothing is drawn.
pub fn generate_compact_svg(
    lang_vec: &Vec<(String, u64)>,
    color_map: &ColorMap,
    stylesheet: &str,
) -> (drawn: Result<String, ChartError>)
    ensures
        total_bytes(lang_vec.deep_view()) == 0 ==> drawn == Err::<String, ChartError>(
            ChartError::ZeroTotalBytes,
        ),
        total_bytes(lang_vec.deep_view()) > 0 ==> drawn is Ok && drawn->Ok_0@ == compact_document(
            lang_vec.deep_view(),
            color_map@,
            stylesheet@,
        ),
{
    let ghost entries = lang_vec.deep_view();
    let ghost colors = color_map@;
    let total = sum_bytes(lang_vec);
    if total == 0 {
        return Err(ChartError::ZeroTotalBytes);
    }
    let mut document = write_compact_prolog(lang_vec.len(), stylesheet);
    let ghost prolog = document@;
    let mut left: u128 = STACK_LEFT;
    for index in 0..lang_vec.len()
        invariant
            entries == lang_vec.deep_view(),
            colors == color_map@,
            total == total_bytes(entries),
            total > 0,
            left == segment_left(entries, index as nat),
            document@ == prolog + segments(entries, colors, index as nat),
    {
        let entry = &lang_vec[index];
        assert(entries[index as int] == entry.deep_view());
        let color = color_map.color_of(entry.0.as_str());
        let width = segment_width(entry.1, total);
        let segment = write_segment(left, width, color.as_str());
        assert(segment@ == segment_of(entries, colors, index as int));
        let ghost before = document@;
        document.append(segment.as_str());
        assert(document@ =~= prolog + segments(entries, colors, (index + 1) as nat)) by {
            assert(document@ == before + segment@);
        }
        proof {
            lemma_share_sum_bounded(entries, STACK_WIDTH as nat, (index + 1) as nat);
            assert((index + 1) * 360 <= usize::MAX * 360) by (nonlinear_arith)
                requires
                    index + 1 <= usize::MAX,
            ;
        }
        left = left + width;
    }
    document.append(LEGEND_OPEN);
    let ghost upper = document@;
    for index in 0..lang_vec.len()
        invariant
            entries == lang_vec.deep_view(),
            colors == color_map@,
            total == total_bytes(entries),
            total > 0,
            document@ == upper + legend(entries, colors, index as nat),
    {
        let entry = &lang_vec[index];
        assert(entries[index as int] == entry.deep_view());
        let color = color_map.color_of(entry.0.as_str());
        let hundredths = percent_hundredths(entry.1, total);
        let item = write_legend_entry(
            entry.0.as_str(),
            hundredths,
            color.as_str(),
            legend_left(index),
            legend_top(index),
        );
        assert(item@ == legend_entry_of(entries, colors, index as int));
        let ghost before = document@;
        document.append(item.as_str());
        assert(document@ =~= upper + legend(entries, colors, (index + 1) as nat)) by {
            assert(document@ == before + item@);
        }
    }
    document.append(LEGEND_CLOSE);
    document.append(CANVAS_CLOSE);
    Ok(document)
}

} // verus!
