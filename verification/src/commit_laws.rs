//! Laws of the commit engine: what the rewriting of a line comes to in the
//! cases that matter to a user.

use crate::commit::{
    all_within, commit_plan, inserted_at, inserts_at, is_on_line, last_replacing_at,
    lemma_rewritten_without_edits, on_line, replacement_of, replacing_at, rewritten_from,
    rewritten_line, rewritten_text, superseded, taken_in, taken_in_file, ReplacementView,
};
use crate::matcher::{span_fits, spans_apart};
use crate::model::{names_differ, FarFileView, FarState, HitView, InputPatternView};
use crate::commit::FileWriteView;
use crate::scan::{
    hit_in_file, hits_for_spans, lemma_span_cuts_line, lemma_text_up_to, text_between,
    trimmed_line, trimmed_range, trimmed_range_from,
};
use crate::text::{lemma_index_of, lemma_trim_end, lemma_trim_start, line_end, trim_end, trim_start};
use vstd::prelude::*;

verus! {

/// Where no replacement inserts at `at`, nothing is inserted there.
proof fn lemma_nothing_inserted(edits: Seq<ReplacementView>, at: int, upto: int)
    requires
        upto <= edits.len(),
        forall|i: int| 0 <= i < upto ==> !inserts_at(edits, i, at),
    ensures
        inserted_at(edits, at, upto) == Seq::<char>::empty(),
    decreases upto,
{
    if upto > 0 {
        lemma_nothing_inserted(edits, at, upto - 1);
    }
}

/// Where no replacement replaces characters from `at` on, none is the last
/// to do so.
proof fn lemma_nothing_replacing(edits: Seq<ReplacementView>, at: int)
    requires
        forall|i: int|
            0 <= i < edits.len() ==> !((#[trigger] edits[i]).start == at && edits[i].length > 0),
    ensures
        last_replacing_at(edits, at) is None,
        replacing_at(edits, at) is None,
    decreases edits.len(),
{
    if edits.len() > 0 {
        let last = edits[edits.len() - 1];
        assert(!(last.start == at && last.length > 0));
        lemma_nothing_replacing(edits.drop_last(), at);
    }
}

/// The last replacement to replace characters from a place on is one of the
/// replacements, starts there and replaces at least one character.
proof fn lemma_last_replacing_in_range(edits: Seq<ReplacementView>, at: int)
    ensures
        last_replacing_at(edits, at) matches Some(i) ==> 0 <= i < edits.len() && edits[i].start
            == at && edits[i].length > 0,
    decreases edits.len(),
{
    if edits.len() > 0 && !(edits.last().start == at && edits.last().length > 0) {
        lemma_last_replacing_in_range(edits.drop_last(), at);
    }
}

/// No replacement stands at `at`: nothing is inserted there and no
/// characters are replaced from there on.
spec fn untouched_at(edits: Seq<ReplacementView>, at: int) -> bool {
    inserted_at(edits, at, edits.len() as int) == Seq::<char>::empty() && replacing_at(
        edits,
        at,
    ) is None
}

/// Where no replacement stands between `at` and `to`, the line is kept from
/// `at` to `to`.
proof fn lemma_kept_until(line: Seq<char>, edits: Seq<ReplacementView>, at: int, to: int)
    requires
        0 <= at <= to <= line.len(),
        forall|q: int| at <= q < to ==> #[trigger] untouched_at(edits, q),
    ensures
        rewritten_from(line, edits, at) == line.subrange(at, to) + rewritten_from(line, edits, to),
    decreases to - at,
{
    if at < to {
        assert(untouched_at(edits, at));
        lemma_kept_until(line, edits, at + 1, to);
        assert(seq![line[at]] + line.subrange(at + 1, to) == line.subrange(at, to));
    } else {
        assert(line.subrange(at, to) == Seq::<char>::empty());
    }
}

/// Behind the start of its only replacement a line stays as it is.
proof fn lemma_behind_single(line: Seq<char>, edit: ReplacementView, at: int)
    requires
        edit.start < at <= line.len(),
    ensures
        rewritten_from(line, seq![edit], at) == line.subrange(at, line.len() as int),
    decreases line.len() - at,
{
    let edits = seq![edit];
    lemma_nothing_inserted(edits, at, 1);
    lemma_nothing_replacing(edits, at);
    if at < line.len() {
        lemma_behind_single(line, edit, at + 1);
    }
}

/// A line with one replacement reads: what stood before the replaced part,
/// the new text, what stood after the replaced part.
pub proof fn lemma_single_replacement(line: Seq<char>, edit: ReplacementView)
    requires
        edit.end() <= line.len(),
    ensures
        rewritten_line(line, seq![edit]) == line.subrange(0, edit.start as int) + edit.text
            + line.subrange(edit.end() as int, line.len() as int),
{
    let edits = seq![edit];
    let start = edit.start as int;
    assert(!superseded(edits, 0));
    assert forall|q: int| 0 <= q < start implies #[trigger] untouched_at(edits, q) by {
        lemma_nothing_inserted(edits, q, 1);
        lemma_nothing_replacing(edits, q);
    }
    lemma_kept_until(line, edits, 0, start);
    assert(edits.drop_last() == Seq::<ReplacementView>::empty());
    assert(inserted_at(edits, start, 0) == Seq::<char>::empty());
    if edit.length > 0 {
        lemma_nothing_inserted(edits, start, 1);
        assert(last_replacing_at(edits, start) == Some(0int));
        lemma_behind_single(line, edit, start + edit.length);
    } else {
        assert(inserts_at(edits, 0, start));
        assert(inserted_at(edits, start, 1) == edit.text);
        lemma_nothing_replacing(edits, start);
        if start < line.len() {
            lemma_behind_single(line, edit, start + 1);
            assert(seq![line[start]] + line.subrange(start + 1, line.len() as int)
                == line.subrange(start, line.len() as int));
        } else {
            assert(line.subrange(start, line.len() as int) == Seq::<char>::empty());
        }
    }
}

/// Where a taken hit is the only one of its line, the line becomes the text
/// before the match, the replace side of the pattern and the text after the
/// match.
pub proof fn lemma_lone_hit_rewrites_line(hit: HitView)
    requires
        hit.fragments_join(),
    ensures
        rewritten_line(hit.full_line, seq![replacement_of(hit)]) == hit.replaced_line(),
{
    let edit = replacement_of(hit);
    let line = hit.full_line;
    assert(line.len() == hit.line_before_match.len() + hit.matched_text.len()
        + hit.line_after_match.len());
    lemma_single_replacement(line, edit);
    assert(line.subrange(0, edit.start as int) == hit.line_before_match);
    assert(line.subrange(edit.end() as int, line.len() as int) == hit.line_after_match);
}

/// A replacement that a later one of its line overlaps is not made, neither
/// as a replacement of characters nor as an insertion: the later one wins.
pub proof fn lemma_superseded_is_not_made(edits: Seq<ReplacementView>, i: int, at: int)
    requires
        0 <= i < edits.len(),
        superseded(edits, i),
    ensures
        replacing_at(edits, at) != Some(i),
        !inserts_at(edits, i, at),
{
}

/// A hit that agrees with its file is not passed over by a commit: its
/// replacement lies within its line, which is the line of the file that the
/// commit rewrites.
pub proof fn lemma_scanned_hit_fits_its_line(hit: HitView, file: FarFileView)
    requires
        hit_in_file(hit, file),
    ensures
        trimmed_line(file.content, hit.line_number) == Some(hit.full_line),
        is_on_line(replacement_of(hit), hit.line_number, hit.full_line.len()),
{
    assert(hit.full_line.len() == hit.line_before_match.len() + hit.matched_text.len()
        + hit.line_after_match.len());
}

/// Where no replacement is for a line, none is made in it.
proof fn lemma_none_on_line(taken: Seq<ReplacementView>, line_number: nat, line_len: nat)
    requires
        forall|i: int| 0 <= i < taken.len() ==> (#[trigger] taken[i]).line_number != line_number,
    ensures
        on_line(taken, line_number, line_len) == Seq::<ReplacementView>::empty(),
    decreases taken.len(),
{
    if taken.len() > 0 {
        assert(taken[taken.len() - 1].line_number != line_number);
        lemma_none_on_line(taken.drop_last(), line_number, line_len);
    }
}

/// From a line on that all replacements stand before, the text stays as it
/// is.
proof fn lemma_rewritten_text_behind(
    text: Seq<char>,
    taken: Seq<ReplacementView>,
    from: int,
    line_number: nat,
)
    requires
        0 <= from <= text.len(),
        forall|i: int| 0 <= i < taken.len() ==> (#[trigger] taken[i]).line_number < line_number,
    ensures
        rewritten_text(text, taken, from, line_number) == text.subrange(from, text.len() as int),
    decreases text.len() - from,
{
    if from < text.len() {
        let end = line_end(text, from);
        let start = trim_start(text, from, end);
        let stop = trim_end(text, start, end);
        let line = text.subrange(start, stop);
        lemma_index_of(text, '\n', from);
        lemma_trim_start(text, from, end);
        lemma_trim_end(text, start, end);
        lemma_rewritten_without_edits(line, 0);
        lemma_none_on_line(taken, line_number, line.len());
        let whole = text.subrange(from, start) + line.subrange(0, line.len() as int)
            + text.subrange(stop, end);
        assert(whole == text.subrange(from, end));
        if end < text.len() {
            lemma_rewritten_text_behind(text, taken, end + 1, line_number + 1);
            assert(text.subrange(from, end) + seq!['\n'] + text.subrange(
                end + 1,
                text.len() as int,
            ) == text.subrange(from, text.len() as int));
        }
    }
}

/// A text without replacements stays as it is.
pub proof fn lemma_rewritten_text_without_edits(text: Seq<char>, from: int, line_number: nat)
    requires
        0 <= from <= text.len(),
    ensures
        rewritten_text(text, Seq::empty(), from, line_number) == text.subrange(
            from,
            text.len() as int,
        ),
{
    lemma_rewritten_text_behind(text, Seq::empty(), from, line_number);
}

/// The replacements of a line come from left to right: each ends where the
/// next one starts, or before.
pub open spec fn in_order(edits: Seq<ReplacementView>) -> bool {
    forall|i: int, j: int|
        0 <= i < j < edits.len() ==> (#[trigger] edits[i]).end() <= (#[trigger] edits[j]).start
}

/// The line from position `from` on with replacements spliced in that come
/// from left to right: what stands before the first one, its text, and so on
/// behind it.
pub open spec fn spliced(line: Seq<char>, edits: Seq<ReplacementView>, from: int) -> Seq<char>
    decreases edits.len(),
{
    if edits.len() == 0 {
        line.subrange(from, line.len() as int)
    } else {
        line.subrange(from, edits.first().start as int) + edits.first().text + spliced(
            line,
            edits.drop_first(),
            edits.first().end() as int,
        )
    }
}

/// Replacements that come from left to right do not overlap, so each of
/// them stands.
proof fn lemma_in_order_all_stand(edits: Seq<ReplacementView>)
    requires
        in_order(edits),
    ensures
        forall|i: int| 0 <= i < edits.len() ==> !superseded(edits, i),
{
    assert forall|i: int| 0 <= i < edits.len() implies !superseded(edits, i) by {
        if superseded(edits, i) {
            let j = choose|j: int| i < j < edits.len() && edits[i].overlaps(#[trigger] edits[j]);
            assert(edits[i].end() <= edits[j].start);
        }
    }
}

/// A replacement is overlapped by a later one with the first replacement of
/// the line taken away exactly where it is with it.
proof fn lemma_superseded_without_first(edits: Seq<ReplacementView>, i: int)
    requires
        0 <= i < edits.len() - 1,
    ensures
        superseded(edits, i + 1) == superseded(edits.drop_first(), i),
{
    let rest = edits.drop_first();
    if superseded(rest, i) {
        let j = choose|j: int| i < j < rest.len() && rest[i].overlaps(#[trigger] rest[j]);
        assert(edits[i + 1].overlaps(edits[j + 1]));
    }
    if superseded(edits, i + 1) {
        let j = choose|j: int| i + 1 < j < edits.len() && edits[i + 1].overlaps(#[trigger] edits[j]);
        assert(rest[i].overlaps(rest[j - 1]));
    }
}

/// What is inserted at a place is what the first replacement inserts there,
/// if it does, and then what the others insert there.
proof fn lemma_inserted_without_first(edits: Seq<ReplacementView>, at: int, upto: int)
    requires
        0 <= upto < edits.len(),
    ensures
        inserted_at(edits, at, upto + 1) == if inserts_at(edits, 0, at) {
            edits.first().text + inserted_at(edits.drop_first(), at, upto)
        } else {
            inserted_at(edits.drop_first(), at, upto)
        },
    decreases upto,
{
    let rest = edits.drop_first();
    if upto == 0 {
        assert(inserted_at(edits, at, 0) == Seq::<char>::empty());
        assert(inserted_at(rest, at, 0) == Seq::<char>::empty());
    } else {
        lemma_inserted_without_first(edits, at, upto - 1);
        lemma_superseded_without_first(edits, upto - 1);
        assert(edits[upto] == rest[upto - 1]);
        assert(inserts_at(edits, upto, at) == inserts_at(rest, upto - 1, at));
    }
}

/// Where the first replacement replaces no characters from `at` on, the last
/// one to do so is the same with and without the first replacement.
proof fn lemma_last_replacing_without_first(edits: Seq<ReplacementView>, at: int)
    requires
        edits.len() > 0,
        !(edits.first().start == at && edits.first().length > 0),
    ensures
        last_replacing_at(edits, at) == match last_replacing_at(edits.drop_first(), at) {
            Some(i) => Some(i + 1),
            None => None,
        },
    decreases edits.len(),
{
    if edits.len() == 1 {
        assert(edits.drop_first().len() == 0);
        assert(edits.drop_last().len() == 0);
    } else {
        assert(edits.drop_first().last() == edits.last());
        assert(edits.drop_first().drop_last() == edits.drop_last().drop_first());
        if !(edits.last().start == at && edits.last().length > 0) {
            lemma_last_replacing_without_first(edits.drop_last(), at);
        }
    }
}

/// Where the first replacement replaces no characters from `at` on, the same
/// replacement stands there with and without the first replacement.
proof fn lemma_replacing_without_first(edits: Seq<ReplacementView>, at: int)
    requires
        edits.len() > 0,
        !(edits.first().start == at && edits.first().length > 0),
    ensures
        replacing_at(edits, at) == match replacing_at(edits.drop_first(), at) {
            Some(i) => Some(i + 1),
            None => None,
        },
        replacing_at(edits.drop_first(), at) matches Some(i) ==> 0 <= i < edits.len() - 1,
{
    let rest = edits.drop_first();
    lemma_last_replacing_without_first(edits, at);
    lemma_last_replacing_in_range(rest, at);
    match last_replacing_at(rest, at) {
        Some(i) => {
            lemma_superseded_without_first(edits, i);
        },
        None => {},
    }
}

/// From the start of the first replacement on, where it replaces no
/// characters there, the line is rewritten as without the first replacement,
/// but for the text that the first replacement inserts.
proof fn lemma_rewritten_without_first(line: Seq<char>, edits: Seq<ReplacementView>, at: int)
    requires
        edits.len() > 0,
        edits.first().start <= at <= line.len(),
        !(edits.first().start == at && edits.first().length > 0),
    ensures
        rewritten_from(line, edits, at) == if inserts_at(edits, 0, at) {
            edits.first().text + rewritten_from(line, edits.drop_first(), at)
        } else {
            rewritten_from(line, edits.drop_first(), at)
        },
    decreases line.len() - at,
{
    let rest = edits.drop_first();
    lemma_inserted_without_first(edits, at, edits.len() - 1);
    lemma_replacing_without_first(edits, at);
    if at < line.len() {
        lemma_rewritten_without_first(line, edits, at + 1);
    }
    match replacing_at(rest, at) {
        Some(i) => {
            assert(edits[i + 1] == rest[i]);
            if 0 < rest[i].length && at + rest[i].length <= line.len() {
                lemma_rewritten_without_first(line, edits, at + rest[i].length);
            }
        },
        None => {},
    }
}

/// The replacements behind the first one come from left to right and lie
/// within the line as all of them do.
proof fn lemma_rest_in_order(edits: Seq<ReplacementView>, line_len: nat)
    requires
        edits.len() > 0,
        in_order(edits),
        all_within(edits, line_len),
    ensures
        in_order(edits.drop_first()),
        all_within(edits.drop_first(), line_len),
        edits.first().end() <= line_len,
        edits.len() > 1 ==> edits.first().end() <= edits.drop_first().first().start,
        forall|i: int| 1 <= i < edits.len() ==> edits.first().end() <= (#[trigger] edits[i]).start,
{
    let rest = edits.drop_first();
    assert(edits[0].end() <= line_len);
    assert forall|i: int, j: int| 0 <= i < j < rest.len() implies (#[trigger] rest[i]).end() <= (
    #[trigger] rest[j]).start by {
        assert(edits[i + 1].end() <= edits[j + 1].start);
    }
    assert forall|i: int| 0 <= i < rest.len() implies (#[trigger] rest[i]).end() <= line_len by {
        assert(edits[i + 1].end() <= line_len);
    }
    assert forall|i: int| 1 <= i < edits.len() implies edits.first().end() <= (
    #[trigger] edits[i]).start by {
        assert(edits[0].end() <= edits[i].start);
    }
    if edits.len() > 1 {
        assert(rest.first() == edits[1]);
    }
}

/// The line from `from` on is the line with the replacements spliced in,
/// where they come from left to right and the first starts at `from` or
/// behind it.
proof fn lemma_rewritten_is_spliced(line: Seq<char>, edits: Seq<ReplacementView>, from: int)
    requires
        in_order(edits),
        all_within(edits, line.len()),
        0 <= from <= line.len(),
        edits.len() > 0 ==> from <= edits.first().start,
    ensures
        rewritten_from(line, edits, from) == spliced(line, edits, from),
    decreases edits.len(),
{
    if edits.len() == 0 {
        assert(edits == Seq::<ReplacementView>::empty());
        lemma_rewritten_without_edits(line, from);
    } else {
        let first = edits.first();
        let rest = edits.drop_first();
        let start = first.start as int;
        let end = first.end() as int;
        lemma_rest_in_order(edits, line.len());
        lemma_in_order_all_stand(edits);
        assert forall|q: int| from <= q < start implies #[trigger] untouched_at(edits, q) by {
            assert forall|i: int| 0 <= i < edits.len() implies (#[trigger] edits[i]).start
                != q by {
                if i > 0 {
                    assert(edits.first().end() <= edits[i].start);
                }
            }
            lemma_nothing_inserted(edits, q, edits.len() as int);
            lemma_nothing_replacing(edits, q);
        }
        lemma_kept_until(line, edits, from, start);
        lemma_rewritten_is_spliced(line, rest, end);
        let tail = spliced(line, rest, end);
        if first.length > 0 {
            assert forall|i: int| 0 <= i < edits.len() implies !inserts_at(edits, i, start) by {
                if i > 0 {
                    assert(edits.first().end() <= edits[i].start);
                }
            }
            lemma_nothing_inserted(edits, start, edits.len() as int);
            lemma_first_is_last_replacing(edits);
            lemma_rewritten_without_first(line, edits, end);
            assert(!inserts_at(edits, 0, end));
            assert(rewritten_from(line, edits, start) == first.text + rewritten_from(
                line,
                edits,
                end,
            ));
        } else {
            lemma_rewritten_without_first(line, edits, start);
            assert(inserts_at(edits, 0, start));
        }
        assert(rewritten_from(line, edits, start) == first.text + tail);
        assert(rewritten_from(line, edits, from) == line.subrange(from, start) + (first.text
            + tail));
        assert(spliced(line, edits, from) == line.subrange(from, start) + first.text + tail);
    }
}

/// Where the first replacement replaces characters and every other one
/// starts behind its start, it is the last to replace characters from its
/// start on.
proof fn lemma_first_is_last_replacing(edits: Seq<ReplacementView>)
    requires
        edits.len() > 0,
        edits.first().length > 0,
        forall|i: int| 1 <= i < edits.len() ==> edits.first().end() <= (#[trigger] edits[i]).start,
    ensures
        last_replacing_at(edits, edits.first().start as int) == Some(0int),
    decreases edits.len(),
{
    if edits.len() > 1 {
        let shorter = edits.drop_last();
        assert(edits.first().end() <= edits[edits.len() - 1].start);
        assert(shorter.first() == edits.first());
        assert forall|i: int| 1 <= i < shorter.len() implies shorter.first().end() <= (
        #[trigger] shorter[i]).start by {
            assert(edits.first().end() <= edits[i].start);
        }
        lemma_first_is_last_replacing(shorter);
    }
}

/// Where the replacements of a line come from left to right, as the taken
/// matches of one pattern do, each of them is made: the line becomes what
/// stood before the first one, its text, what stood between it and the
/// second one, and so on.
pub proof fn lemma_ordered_replacements_are_all_made(line: Seq<char>, edits: Seq<ReplacementView>)
    requires
        in_order(edits),
        all_within(edits, line.len()),
    ensures
        rewritten_line(line, edits) == spliced(line, edits, 0),
{
    lemma_rewritten_is_spliced(line, edits, 0);
}

/// The replacements that a sequence of hits asks for.
pub open spec fn replacements_of(hits: Seq<HitView>) -> Seq<ReplacementView> {
    Seq::new(hits.len(), |i: int| replacement_of(hits[i]))
}

/// The hits of one pattern in one line ask for replacements that come from
/// left to right and lie within the line, since the matches of a pattern do
/// not overlap.
pub proof fn lemma_matches_give_ordered_replacements(
    file: FarFileView,
    line_number: nat,
    line: Seq<char>,
    pattern: InputPatternView,
    spans: Seq<(usize, usize)>,
    first_index: nat,
)
    requires
        forall|i: int| 0 <= i < spans.len() ==> span_fits(line, #[trigger] spans[i]),
        spans_apart(spans),
    ensures
        in_order(
            replacements_of(
                hits_for_spans(file, line_number, line, pattern, spans, first_index),
            ),
        ),
        all_within(
            replacements_of(
                hits_for_spans(file, line_number, line, pattern, spans, first_index),
            ),
            line.len(),
        ),
{
    let hits = hits_for_spans(file, line_number, line, pattern, spans, first_index);
    let edits = replacements_of(hits);
    assert forall|i: int| 0 <= i < edits.len() implies (#[trigger] edits[i]).end()
        == text_between(line, 0, spans[i].1 as int).len() && edits[i].start == text_between(
        line,
        0,
        spans[i].0 as int,
    ).len() && edits[i].end() <= line.len() by {
        assert(span_fits(line, spans[i]));
        lemma_text_up_to(line, spans[i].0 as int, spans[i].1 as int);
        lemma_span_cuts_line(line, spans[i]);
        assert(line.len() == hits[i].line_before_match.len() + hits[i].matched_text.len()
            + hits[i].line_after_match.len());
    }
    assert forall|i: int, j: int| 0 <= i < j < edits.len() implies (#[trigger] edits[i]).end() <= (
    #[trigger] edits[j]).start by {
        assert(span_fits(line, spans[i]));
        assert(span_fits(line, spans[j]));
        assert(spans[i].1 <= spans[j].0);
        lemma_text_up_to(line, spans[i].1 as int, spans[j].0 as int);
        assert(edits[i].end() == text_between(line, 0, spans[i].1 as int).len());
        assert(edits[j].start == text_between(line, 0, spans[j].0 as int).len());
    }
}

/// Taking every hit of one pattern in a line, and no other hit of the line,
/// replaces every match of the pattern in it: the line becomes what stood
/// before the first match, the replace side, what stood between the first
/// match and the second, and so on.
pub proof fn lemma_taking_all_matches_replaces_all(
    file: FarFileView,
    line_number: nat,
    line: Seq<char>,
    pattern: InputPatternView,
    spans: Seq<(usize, usize)>,
    first_index: nat,
)
    requires
        forall|i: int| 0 <= i < spans.len() ==> span_fits(line, #[trigger] spans[i]),
        spans_apart(spans),
    ensures
        ({
            let edits = replacements_of(
                hits_for_spans(file, line_number, line, pattern, spans, first_index),
            );
            rewritten_line(line, edits) == spliced(line, edits, 0)
        }),
{
    lemma_matches_give_ordered_replacements(file, line_number, line, pattern, spans, first_index);
    lemma_ordered_replacements_are_all_made(
        line,
        replacements_of(hits_for_spans(file, line_number, line, pattern, spans, first_index)),
    );
}

/// Some hit is taken and stands in the file of the given name.
pub open spec fn has_taken_hit(hits: Seq<HitView>, file_name: Seq<char>) -> bool {
    exists|i: int| 0 <= i < hits.len() && taken_in(#[trigger] hits[i], file_name)
}

/// A file has replacements to make exactly where one of its hits is taken.
pub proof fn lemma_taken_in_file(hits: Seq<HitView>, file_name: Seq<char>)
    ensures
        taken_in_file(hits, file_name).len() > 0 <==> has_taken_hit(hits, file_name),
        taken_in_file(hits, file_name).len() <= hits.len(),
    decreases hits.len(),
{
    if hits.len() > 0 {
        let earlier = hits.drop_last();
        lemma_taken_in_file(earlier, file_name);
        if has_taken_hit(earlier, file_name) {
            let i = choose|i: int| 0 <= i < earlier.len() && taken_in(#[trigger] earlier[i], file_name);
            assert(taken_in(hits[i], file_name));
        }
        if taken_in(hits.last(), file_name) {
            assert(taken_in(hits[hits.len() - 1], file_name));
        }
        if has_taken_hit(hits, file_name) && !taken_in(hits.last(), file_name) {
            let i = choose|i: int| 0 <= i < hits.len() && taken_in(#[trigger] hits[i], file_name);
            assert(taken_in(earlier[i], file_name));
        }
    }
}

/// A commit writes files of the corpus only, each at most once and in the
/// order of the corpus, and only files in which a hit is taken: each write
/// stands for a file, later writes stand for later files, and the file of a
/// write holds a taken hit.
pub proof fn lemma_commit_writes_touched_files(files: Seq<FarFileView>, hits: Seq<HitView>)
    ensures
        commit_plan(files, hits).len() <= files.len(),
        forall|w: int|
            0 <= w < commit_plan(files, hits).len() ==> has_taken_hit(
                hits,
                (#[trigger] commit_plan(files, hits)[w]).file_name,
            ),
        exists|at: Seq<int>|
            #![trigger at.len()]
            at.len() == commit_plan(files, hits).len() && (forall|w: int|
                0 <= w < at.len() ==> 0 <= #[trigger] at[w] < files.len() && files[at[w]].file_name
                    == commit_plan(files, hits)[w].file_name) && (forall|v: int, w: int|
                0 <= v < w < at.len() ==> #[trigger] at[v] < #[trigger] at[w]),
    decreases files.len(),
{
    if files.len() == 0 {
        let at = Seq::<int>::empty();
        assert(at.len() == commit_plan(files, hits).len());
    } else {
        let earlier = files.drop_last();
        let file = files.last();
        lemma_commit_writes_touched_files(earlier, hits);
        lemma_taken_in_file(hits, file.file_name);
        let plan = commit_plan(earlier, hits);
        let before = choose|at: Seq<int>|
            #![trigger at.len()]
            at.len() == plan.len() && (forall|w: int|
                0 <= w < at.len() ==> 0 <= #[trigger] at[w] < earlier.len()
                    && earlier[at[w]].file_name == plan[w].file_name) && (forall|v: int, w: int|
                0 <= v < w < at.len() ==> #[trigger] at[v] < #[trigger] at[w]);
        let at = if taken_in_file(hits, file.file_name).len() > 0 {
            before.push(files.len() - 1)
        } else {
            before
        };
        let whole = commit_plan(files, hits);
        assert(at.len() == whole.len());
        assert forall|w: int| 0 <= w < at.len() implies 0 <= #[trigger] at[w] < files.len()
            && files[at[w]].file_name == whole[w].file_name by {
            if w < before.len() {
                assert(earlier[before[w]] == files[before[w]]);
            }
        }
        assert forall|v: int, w: int| 0 <= v < w < at.len() implies #[trigger] at[v]
            < #[trigger] at[w] by {
            if w < before.len() {
                assert(before[v] < before[w]);
            } else {
                assert(0 <= before[v] < earlier.len());
            }
        }
    }
}

/// Where no two files of the corpus have one name, no file is written
/// twice by a commit.
pub proof fn lemma_commit_writes_each_file_once(files: Seq<FarFileView>, hits: Seq<HitView>)
    requires
        forall|a: int, b: int|
            0 <= a < b < files.len() ==> (#[trigger] files[a]).file_name != (
            #[trigger] files[b]).file_name,
    ensures
        forall|v: int, w: int|
            0 <= v < w < commit_plan(files, hits).len() ==> (#[trigger] commit_plan(
                files,
                hits,
            )[v]).file_name != (#[trigger] commit_plan(files, hits)[w]).file_name,
{
    let plan = commit_plan(files, hits);
    lemma_commit_writes_touched_files(files, hits);
    let at = choose|at: Seq<int>|
        #![trigger at.len()]
        at.len() == plan.len() && (forall|w: int|
            0 <= w < at.len() ==> 0 <= #[trigger] at[w] < files.len() && files[at[w]].file_name
                == plan[w].file_name) && (forall|v: int, w: int|
            0 <= v < w < at.len() ==> #[trigger] at[v] < #[trigger] at[w]);
    assert forall|v: int, w: int| 0 <= v < w < plan.len() implies (#[trigger] plan[v]).file_name
        != (#[trigger] plan[w]).file_name by {
        assert(at[v] < at[w]);
        assert(files[at[v]].file_name != files[at[w]].file_name);
    }
}

/// Hits that are not taken do not matter to a commit: with the verdict of
/// such a hit changed to another verdict that is no take, the same is
/// written.
pub proof fn lemma_untaken_hits_do_not_matter(
    files: Seq<FarFileView>,
    hits: Seq<HitView>,
    i: int,
    verdict: FarState,
)
    requires
        0 <= i < hits.len(),
        hits[i].state != FarState::Take,
        verdict != FarState::Take,
    ensures
        commit_plan(files, hits.update(i, hits[i].with_state(verdict))) == commit_plan(files, hits),
    decreases files.len(),
{
    if files.len() > 0 {
        lemma_untaken_hits_do_not_matter(files.drop_last(), hits, i, verdict);
        lemma_untaken_hit_not_among_taken(hits, i, verdict, files.last().file_name);
    }
}

/// The replacements of a file are the same with the verdict of a hit that
/// is not taken changed to another verdict that is no take.
proof fn lemma_untaken_hit_not_among_taken(
    hits: Seq<HitView>,
    i: int,
    verdict: FarState,
    file_name: Seq<char>,
)
    requires
        0 <= i < hits.len(),
        hits[i].state != FarState::Take,
        verdict != FarState::Take,
    ensures
        taken_in_file(hits.update(i, hits[i].with_state(verdict)), file_name) == taken_in_file(
            hits,
            file_name,
        ),
    decreases hits.len(),
{
    let changed = hits.update(i, hits[i].with_state(verdict));
    if i == hits.len() - 1 {
        assert(changed.drop_last() == hits.drop_last());
    } else {
        assert(changed.drop_last() == hits.drop_last().update(i, hits[i].with_state(verdict)));
        assert(changed.last() == hits.last());
        lemma_untaken_hit_not_among_taken(hits.drop_last(), i, verdict, file_name);
    }
}

/// The trimmed text of a line lies within the text.
pub proof fn lemma_trimmed_range_within(text: Seq<char>, from: int, line_number: nat)
    requires
        0 <= from <= text.len(),
    ensures
        trimmed_range_from(text, from, line_number) matches Some((start, stop)) ==> from <= start
            <= stop <= text.len() && line_number >= 1,
    decreases text.len() - from,
{
    if from < text.len() && line_number >= 1 {
        let end = line_end(text, from);
        lemma_index_of(text, '\n', from);
        if line_number == 1 {
            lemma_trim_start(text, from, end);
            lemma_trim_end(text, trim_start(text, from, end), end);
        } else if end < text.len() {
            lemma_trimmed_range_within(text, end + 1, (line_number - 1) as nat);
        }
    }
}

/// A text with one replacement is the text with that replacement made in the
/// trimmed text of its line, where it lies within that line, and stays as it
/// is otherwise.
proof fn lemma_one_replacement_in_text(
    text: Seq<char>,
    edit: ReplacementView,
    from: int,
    line_number: nat,
)
    requires
        0 <= from <= text.len(),
        1 <= line_number <= edit.line_number,
    ensures
        rewritten_text(text, seq![edit], from, line_number) == match trimmed_range_from(
            text,
            from,
            (edit.line_number - line_number + 1) as nat,
        ) {
            Some((start, stop)) => if edit.end() <= stop - start {
                text.subrange(from, start) + rewritten_line(text.subrange(start, stop), seq![edit])
                    + text.subrange(stop, text.len() as int)
            } else {
                text.subrange(from, text.len() as int)
            },
            None => text.subrange(from, text.len() as int),
        },
    decreases text.len() - from,
{
    let taken = seq![edit];
    let len = text.len() as int;
    if from < text.len() {
        let end = line_end(text, from);
        let start = trim_start(text, from, end);
        let stop = trim_end(text, start, end);
        let line = text.subrange(start, stop);
        lemma_index_of(text, '\n', from);
        lemma_trim_start(text, from, end);
        lemma_trim_end(text, start, end);
        assert(taken.drop_last() == Seq::<ReplacementView>::empty());
        assert(on_line(taken.drop_last(), line_number, line.len())
            == Seq::<ReplacementView>::empty());
        let here = on_line(taken, line_number, line.len());
        let whole = text.subrange(from, start) + rewritten_line(line, here) + text.subrange(
            stop,
            end,
        );
        if line_number == edit.line_number {
            if end < text.len() {
                lemma_rewritten_text_behind(text, taken, end + 1, line_number + 1);
                assert(text.subrange(stop, end) + seq!['\n'] + text.subrange(end + 1, len)
                    == text.subrange(stop, len));
            }
            if edit.end() <= stop - start {
                assert(here == taken);
            } else {
                assert(here == Seq::<ReplacementView>::empty());
                lemma_rewritten_without_edits(line, 0);
                assert(line.subrange(0, line.len() as int) == line);
                assert(text.subrange(from, start) + line + text.subrange(stop, len)
                    == text.subrange(from, len));
            }
        } else {
            assert(here == Seq::<ReplacementView>::empty());
            lemma_rewritten_without_edits(line, 0);
            assert(line.subrange(0, line.len() as int) == line);
            assert(whole == text.subrange(from, end));
            if end < text.len() {
                lemma_one_replacement_in_text(text, edit, end + 1, line_number + 1);
                lemma_trimmed_range_within(
                    text,
                    end + 1,
                    (edit.line_number - line_number) as nat,
                );
                let head = text.subrange(from, end) + seq!['\n'];
                assert(head == text.subrange(from, end + 1));
                match trimmed_range_from(text, end + 1, (edit.line_number - line_number) as nat) {
                    Some((a, b)) => {
                        assert(text.subrange(from, end + 1) + text.subrange(end + 1, a)
                            == text.subrange(from, a));
                    },
                    None => {},
                }
                assert(text.subrange(from, end + 1) + text.subrange(end + 1, len)
                    == text.subrange(from, len));
            }
        }
    }
}

/// Where one hit is taken and no other, the files other than its own have
/// no replacements to make, and its own file has the one it asks for.
proof fn lemma_taken_of_lone_hit(hits: Seq<HitView>, i: int, file_name: Seq<char>)
    requires
        0 <= i < hits.len(),
        hits[i].state == FarState::Take,
        forall|j: int| 0 <= j < hits.len() && j != i ==> (#[trigger] hits[j]).state != FarState::Take,
    ensures
        taken_in_file(hits, file_name) == if hits[i].file_name == file_name {
            seq![replacement_of(hits[i])]
        } else {
            Seq::<ReplacementView>::empty()
        },
    decreases hits.len(),
{
    let earlier = hits.drop_last();
    if i == hits.len() - 1 {
        lemma_taken_in_file(earlier, file_name);
        if has_taken_hit(earlier, file_name) {
            let j = choose|j: int| 0 <= j < earlier.len() && taken_in(#[trigger] earlier[j], file_name);
            assert(hits[j].state != FarState::Take);
        }
        assert(taken_in_file(earlier, file_name) == Seq::<ReplacementView>::empty());
    } else {
        assert(hits[hits.len() - 1].state != FarState::Take);
        assert forall|j: int| 0 <= j < earlier.len() && j != i implies (#[trigger] earlier[j]).state
            != FarState::Take by {
            assert(hits[j].state != FarState::Take);
        }
        lemma_taken_of_lone_hit(earlier, i, file_name);
    }
}

/// Where one hit is taken and no other, a commit writes the file of that hit
/// and no other file.
proof fn lemma_plan_of_lone_hit(files: Seq<FarFileView>, hits: Seq<HitView>, i: int, k: int)
    requires
        0 <= i < hits.len(),
        hits[i].state == FarState::Take,
        forall|j: int| 0 <= j < hits.len() && j != i ==> (#[trigger] hits[j]).state != FarState::Take,
        -1 <= k < files.len(),
        k >= 0 ==> files[k].file_name == hits[i].file_name,
        forall|f: int| 0 <= f < files.len() && f != k ==> (#[trigger] files[f]).file_name
            != hits[i].file_name,
    ensures
        commit_plan(files, hits) == if k >= 0 {
            seq![
                FileWriteView {
                    file_name: files[k].file_name,
                    content: rewritten_text(files[k].content, seq![replacement_of(hits[i])], 0, 1),
                },
            ]
        } else {
            Seq::<FileWriteView>::empty()
        },
    decreases files.len(),
{
    if files.len() > 0 {
        let earlier = files.drop_last();
        let last = files.len() - 1;
        lemma_taken_of_lone_hit(hits, i, files.last().file_name);
        assert forall|f: int| 0 <= f < earlier.len() && f != k implies (#[trigger] earlier[f]).file_name
            != hits[i].file_name by {
            assert(files[f].file_name != hits[i].file_name);
        }
        if k == last {
            lemma_plan_of_lone_hit(earlier, hits, i, -1);
        } else {
            assert(files[last].file_name != hits[i].file_name);
            lemma_plan_of_lone_hit(earlier, hits, i, k);
        }
    }
}

/// Where one hit is taken and no other, and the hit agrees with its file, a
/// commit writes that file and no other, and writes it with the trimmed text
/// of the line of the hit replaced by the text before the match, the replace
/// side and the text after the match. All else in the file is kept: the
/// other lines, the white space around the line, the line endings.
pub proof fn lemma_lone_taken_hit_is_committed(
    files: Seq<FarFileView>,
    hits: Seq<HitView>,
    i: int,
    k: int,
)
    requires
        names_differ(files),
        0 <= k < files.len(),
        0 <= i < hits.len(),
        hit_in_file(hits[i], files[k]),
        hits[i].state == FarState::Take,
        forall|j: int| 0 <= j < hits.len() && j != i ==> (#[trigger] hits[j]).state != FarState::Take,
    ensures
        trimmed_range(files[k].content, hits[i].line_number) matches Some((start, stop))
            && commit_plan(files, hits) == seq![
            FileWriteView {
                file_name: files[k].file_name,
                content: files[k].content.subrange(0, start) + hits[i].replaced_line()
                    + files[k].content.subrange(stop, files[k].content.len() as int),
            },
        ],
{
    let hit = hits[i];
    let text = files[k].content;
    let edit = replacement_of(hit);
    assert forall|f: int| 0 <= f < files.len() && f != k implies (#[trigger] files[f]).file_name
        != hit.file_name by {
        if f < k {
            assert(files[f].file_name != files[k].file_name);
        } else {
            assert(files[k].file_name != files[f].file_name);
        }
    }
    lemma_plan_of_lone_hit(files, hits, i, k);
    lemma_trimmed_range_within(text, 0, hit.line_number);
    lemma_scanned_hit_fits_its_line(hit, files[k]);
    lemma_one_replacement_in_text(text, edit, 0, 1);
    lemma_lone_hit_rewrites_line(hit);
    let (start, stop) = trimmed_range(text, hit.line_number)->0;
    assert(text.subrange(start, stop) == hit.full_line);
    assert(hit.full_line.len() == stop - start);
}

} // verus!
