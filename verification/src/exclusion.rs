//! Languages that are left out of the statistics: the list that names them,
//! written with commas, and the test of a language against it, which takes
//! no notice of the case of ASCII letters.

use vstd::prelude::*;
use vstd::string::*;

verus! {

/// True if `c` is white space as Unicode defines it (the property
/// `White_Space`).
pub uninterp spec fn is_white_space(c: char) -> bool;

/// `char::is_whitespace` of the standard library: whether the character has
/// the Unicode property `White_Space`. The contract only gives that answer
/// its name.
#[verifier::external_body]
fn char_is_white_space(c: char) -> (white: bool)
    ensures
        white == is_white_space(c),
{
    c.is_whitespace()
}

/// The number of characters at the front of `text` that all satisfy `holds`.
pub open spec fn run_at_front(text: Seq<char>, holds: spec_fn(char) -> bool) -> nat
    decreases text.len(),
{
    if text.len() > 0 && holds(text[0]) {
        1 + run_at_front(text.drop_first(), holds)
    } else {
        0
    }
}

/// The number of characters at the end of `text` that all satisfy `holds`.
pub open spec fn run_at_end(text: Seq<char>, holds: spec_fn(char) -> bool) -> nat
    decreases text.len(),
{
    if text.len() > 0 && holds(text.last()) {
        1 + run_at_end(text.drop_last(), holds)
    } else {
        0
    }
}

/// `text` without the white space at its front and at its end.
pub open spec fn trimmed(text: Seq<char>) -> Seq<char> {
    let rest = text.skip(run_at_front(text, |c: char| is_white_space(c)) as int);
    rest.take(rest.len() - run_at_end(rest, |c: char| is_white_space(c)))
}

/// The names that a list holds: the list is cut at every comma, each piece
/// is trimmed, and the pieces of which nothing is left are dropped.
pub open spec fn excluded_names(list: Seq<char>) -> Seq<Seq<char>>
    decreases list.len(),
{
    let end = run_at_front(list, |c: char| c != ',');
    let name = trimmed(list.take(end as int));
    let rest = if end < list.len() {
        excluded_names(list.skip(end as int + 1))
    } else {
        Seq::empty()
    };
    if name.len() > 0 {
        seq![name] + rest
    } else {
        rest
    }
}

/// A run at the front ends at the first character that does not satisfy
/// `holds`, or with the text.
pub proof fn lemma_run_at_front(text: Seq<char>, holds: spec_fn(char) -> bool, length: int)
    requires
        0 <= length <= text.len(),
        forall|i: int| 0 <= i < length ==> holds(#[trigger] text[i]),
        length < text.len() ==> !holds(text[length]),
    ensures
        run_at_front(text, holds) == length,
    decreases length,
{
    if length > 0 {
        let rest = text.drop_first();
        assert(holds(text[0]));
        assert forall|i: int| 0 <= i < length - 1 implies holds(#[trigger] rest[i]) by {
            assert(rest[i] == text[i + 1]);
        }
        if length - 1 < rest.len() {
            assert(rest[length - 1] == text[length]);
        }
        lemma_run_at_front(rest, holds, length - 1);
    }
}

/// A run at the end starts behind the last character that does not satisfy
/// `holds`, or with the text.
pub proof fn lemma_run_at_end(text: Seq<char>, holds: spec_fn(char) -> bool, length: int)
    requires
        0 <= length <= text.len(),
        forall|i: int| text.len() - length <= i < text.len() ==> holds(#[trigger] text[i]),
        length < text.len() ==> !holds(text[text.len() - length - 1]),
    ensures
        run_at_end(text, holds) == length,
    decreases length,
{
    if length > 0 {
        let rest = text.drop_last();
        assert(holds(text[text.len() - 1]));
        assert forall|i: int| rest.len() - (length - 1) <= i < rest.len() implies holds(
            #[trigger] rest[i],
        ) by {
            assert(rest[i] == text[i]);
        }
        if length - 1 < rest.len() {
            assert(rest[rest.len() - (length - 1) - 1] == text[text.len() - length - 1]);
        }
        lemma_run_at_end(rest, holds, length - 1);
    }
}

/// Reads a list of language names written with commas between them. White
/// space round a name is not part of it, and an empty name is none.
pub fn parse_excluded_languages(list: &str) -> (names: Vec<String>)
    ensures
        names.deep_view() == excluded_names(list@),
{
    let ghost white = |c: char| is_white_space(c);
    let ghost no_comma = |c: char| c != ',';
    let length = list.unicode_len();
    let mut names: Vec<String> = Vec::new();
    let mut start: usize = 0;
    let mut done = false;
    assert(list@.skip(0) =~= list@);
    assert(names.deep_view() + excluded_names(list@) =~= excluded_names(list@));
    while !done
        invariant
            length == list@.len(),
            start <= length,
            white == |c: char| is_white_space(c),
            no_comma == |c: char| c != ',',
            !done ==> names.deep_view() + excluded_names(list@.skip(start as int))
                == excluded_names(list@),
            done ==> names.deep_view() == excluded_names(list@),
        decreases length - start + (if done { 0int } else { 1int }),
    {
        let ghost field = list@.skip(start as int);
        let mut end: usize = start;
        while end < length && list.get_char(end) != ','
            invariant
                length == list@.len(),
                start <= end <= length,
                forall|i: int| start <= i < end ==> (#[trigger] list@[i]) != ',',
            decreases length - end,
        {
            end = end + 1;
        }
        let mut from: usize = start;
        while from < end && char_is_white_space(list.get_char(from))
            invariant
                length == list@.len(),
                start <= from <= end <= length,
                forall|i: int| start <= i < from ==> is_white_space(#[trigger] list@[i]),
            decreases end - from,
        {
            from = from + 1;
        }
        let mut to: usize = end;
        while to > from && char_is_white_space(list.get_char(to - 1))
            invariant
                length == list@.len(),
                from <= to <= end <= length,
                forall|i: int| to <= i < end ==> is_white_space(#[trigger] list@[i]),
            decreases to - from,
        {
            to = to - 1;
        }
        let ghost before = names.deep_view();
        proof {
            let piece = field.take(end - start);
            assert(piece =~= list@.subrange(start as int, end as int));
            assert forall|i: int| 0 <= i < end - start implies no_comma(#[trigger] field[i]) by {
                assert(field[i] == list@[start + i]);
            }
            if end - start < field.len() {
                assert(field[end - start] == list@[end as int]);
            }
            lemma_run_at_front(field, no_comma, end - start);
            assert forall|i: int| 0 <= i < from - start implies white(#[trigger] piece[i]) by {
                assert(piece[i] == list@[start + i]);
            }
            if from - start < piece.len() {
                assert(piece[from - start] == list@[from as int]);
            }
            lemma_run_at_front(piece, white, from - start);
            let rest = piece.skip(from - start);
            assert(rest =~= list@.subrange(from as int, end as int));
            assert forall|i: int| rest.len() - (end - to) <= i < rest.len() implies white(
                #[trigger] rest[i],
            ) by {
                assert(rest[i] == list@[from + i]);
            }
            if end - to < rest.len() {
                assert(rest[rest.len() - (end - to) - 1] == list@[to - 1]);
            }
            lemma_run_at_end(rest, white, end - to);
            assert(trimmed(piece) =~= list@.subrange(from as int, to as int));
            if end < length {
                assert(field.skip(end - start + 1) =~= list@.skip(end + 1));
            }
        }
        if to > from {
            let name = String::from_str(list.substring_char(from, to));
            names.push(name);
            proof {
                assert(names.deep_view() =~= before + seq![list@.subrange(from as int, to as int)]);
            }
        }
        if end < length {
            start = end + 1;
            proof {
                assert(names.deep_view() + excluded_names(list@.skip(start as int))
                    =~= excluded_names(list@));
            }
        } else {
            done = true;
            proof {
                assert(names.deep_view() =~= excluded_names(list@));
            }
        }
    }
    names
}

/// The character with an ASCII capital letter made small, any other
/// character as it is.
pub open spec fn ascii_lower(c: char) -> char {
    if 'A' <= c <= 'Z' {
        ((c as u32) + 32) as char
    } else {
        c
    }
}

/// True if the two texts are the same but for the case of ASCII letters.
pub open spec fn same_ignoring_case(left: Seq<char>, right: Seq<char>) -> bool {
    &&& left.len() == right.len()
    &&& forall|i: int| 0 <= i < left.len() ==> ascii_lower(#[trigger] left[i]) == ascii_lower(right[i])
}

/// True if `language` is on the list `excluded`, whatever the case of its
/// ASCII letters.
pub open spec fn spec_is_excluded(language: Seq<char>, excluded: Seq<Seq<char>>) -> bool {
    exists|i: int| 0 <= i < excluded.len() && same_ignoring_case(#[trigger] excluded[i], language)
}

/// The pairs whose language is not on the list, in their order.
pub open spec fn without_excluded(
    pairs: Seq<(Seq<char>, u64)>,
    excluded: Seq<Seq<char>>,
) -> Seq<(Seq<char>, u64)>
    decreases pairs.len(),
{
    if pairs.len() == 0 {
        Seq::empty()
    } else if spec_is_excluded(pairs.last().0, excluded) {
        without_excluded(pairs.drop_last(), excluded)
    } else {
        without_excluded(pairs.drop_last(), excluded).push(pairs.last())
    }
}

fn lower_code(c: char) -> (code: u32)
    ensures
        code == ascii_lower(c) as u32,
{
    if 'A' <= c && c <= 'Z' {
        c as u32 + 32
    } else {
        c as u32
    }
}

/// Compares two texts without notice of the case of ASCII letters.
pub fn eq_ignoring_case(left: &str, right: &str) -> (same: bool)
    ensures
        same == same_ignoring_case(left@, right@),
{
    let length = left.unicode_len();
    if right.unicode_len() != length {
        return false;
    }
    for index in 0..length
        invariant
            length == left@.len(),
            length == right@.len(),
            forall|i: int| 0 <= i < index ==> ascii_lower(#[trigger] left@[i]) == ascii_lower(right@[i]),
    {
        if lower_code(left.get_char(index)) != lower_code(right.get_char(index)) {
            assert(ascii_lower(left@[index as int]) != ascii_lower(right@[index as int]));
            return false;
        }
    }
    true
}

/// Tests a language against the list of excluded languages.
pub fn is_excluded(language: &str, excluded: &Vec<String>) -> (found: bool)
    ensures
        found == spec_is_excluded(language@, excluded.deep_view()),
{
    for index in 0..excluded.len()
        invariant
            forall|i: int|
                0 <= i < index ==> !same_ignoring_case(#[trigger] excluded.deep_view()[i], language@),
    {
        assert(excluded.deep_view()[index as int] == excluded[index as int]@);
        if eq_ignoring_case(excluded[index].as_str(), language) {
            return true;
        }
    }
    false
}

/// Drops the pairs of a map whose language is on the list of excluded
/// languages. The other pairs stay in their order.
pub fn remove_excluded(map: &Vec<(String, u64)>, excluded: &Vec<String>) -> (kept: Vec<
    (String, u64),
>)
    ensures
        kept.deep_view() == without_excluded(map.deep_view(), excluded.deep_view()),
{
    let ghost model = map.deep_view();
    let mut kept: Vec<(String, u64)> = Vec::new();
    assert(kept.deep_view() =~= without_excluded(model.take(0), excluded.deep_view()));
    for index in 0..map.len()
        invariant
            model == map.deep_view(),
            kept.deep_view() == without_excluded(model.take(index as int), excluded.deep_view()),
    {
        let pair = &map[index];
        let ghost before = kept.deep_view();
        proof {
            assert(model[index as int] == pair.deep_view());
            assert(model.take(index + 1).drop_last() =~= model.take(index as int));
            assert(model.take(index + 1).last() == model[index as int]);
        }
        if !is_excluded(pair.0.as_str(), excluded) {
            kept.push((pair.0.clone(), pair.1));
            proof {
                assert(kept.deep_view() =~= before.push((pair.0@, pair.1)));
            }
        }
    }
    proof {
        assert(model.take(map.len() as int) =~= model);
    }
    kept
}

} // verus!
