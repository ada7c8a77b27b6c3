//! The corpus scanner: from file contents and compiled patterns to the
//! ordered sequence of hits.

use crate::matcher::{regex_spans, span_fits, CompiledPattern};
use crate::model::{FarFile, FarFileView, FarState, Hit, HitView, InputPattern, InputPatternView};
use crate::text::{
    drop_white_space, find_char, lemma_index_of, line_end, skip_white_space, string_of, to_chars,
    trim_end, trim_start,
};
use vstd::prelude::*;
use vstd::string::StringSliceAdditionalSpecFns;
use vstd::utf8::*;

verus! {

/// The text that `text` holds between two byte offsets of its UTF-8
/// encoding.
pub open spec fn text_between(text: Seq<char>, from: int, to: int) -> Seq<char> {
    decode_utf8(encode_utf8(text).subrange(from, to))
}

/// The hit that stands for one match.
pub open spec fn hit_for_span(
    file: FarFileView,
    line_number: nat,
    line: Seq<char>,
    pattern: InputPatternView,
    span: (usize, usize),
    index: nat,
) -> HitView {
    HitView {
        index,
        state: FarState::Undecided,
        full_line: line,
        line_before_match: text_between(line, 0, span.0 as int),
        matched_text: text_between(line, span.0 as int, span.1 as int),
        line_after_match: text_between(line, span.1 as int, encode_utf8(line).len() as int),
        file_name: file.file_name,
        relative_file_name: file.relative_file_name,
        line_number,
        input_pattern: pattern,
    }
}

/// The hits of one pattern in one line: one for each match, in the order of
/// the matches, numbered from `first_index`.
pub open spec fn hits_for_spans(
    file: FarFileView,
    line_number: nat,
    line: Seq<char>,
    pattern: InputPatternView,
    spans: Seq<(usize, usize)>,
    first_index: nat,
) -> Seq<HitView> {
    Seq::new(
        spans.len(),
        |k: int| hit_for_span(file, line_number, line, pattern, spans[k], first_index + k as nat),
    )
}

/// The hits of all patterns in one line: pattern by pattern, in the order of
/// the patterns.
pub open spec fn hits_on_line(
    file: FarFileView,
    line_number: nat,
    line: Seq<char>,
    patterns: Seq<InputPatternView>,
    first_index: nat,
) -> Seq<HitView>
    decreases patterns.len(),
{
    if patterns.len() == 0 {
        Seq::empty()
    } else {
        let earlier = hits_on_line(file, line_number, line, patterns.drop_last(), first_index);
        earlier + hits_for_spans(
            file,
            line_number,
            line,
            patterns.last(),
            regex_spans(patterns.last().find_pattern, line),
            first_index + earlier.len(),
        )
    }
}

/// The hits in the lines of a file from the line that starts at `from` on.
/// That line has the number `line_number`. A line is trimmed before it is
/// searched, and a line that is empty once trimmed has no hits.
pub open spec fn hits_in_lines(
    file: FarFileView,
    patterns: Seq<InputPatternView>,
    from: int,
    line_number: nat,
    first_index: nat,
) -> Seq<HitView>
    decreases file.content.len() - from,
    via hits_in_lines_terminates
{
    let text = file.content;
    if from < 0 || from >= text.len() {
        Seq::empty()
    } else {
        let end = line_end(text, from);
        let start = trim_start(text, from, end);
        let stop = trim_end(text, start, end);
        let here = if start < stop {
            hits_on_line(file, line_number, text.subrange(start, stop), patterns, first_index)
        } else {
            Seq::empty()
        };
        if end < text.len() {
            here + hits_in_lines(
                file,
                patterns,
                end + 1,
                line_number + 1,
                first_index + here.len(),
            )
        } else {
            here
        }
    }
}

#[via_fn]
proof fn hits_in_lines_terminates(
    file: FarFileView,
    patterns: Seq<InputPatternView>,
    from: int,
    line_number: nat,
    first_index: nat,
) {
    if 0 <= from < file.content.len() {
        lemma_index_of(file.content, '\n', from);
    }
}

/// The hits in a file.
pub open spec fn hits_in_file(
    file: FarFileView,
    patterns: Seq<InputPatternView>,
    first_index: nat,
) -> Seq<HitView> {
    hits_in_lines(file, patterns, 0, 1, first_index)
}

/// The hits in a corpus: file by file, in the order of the files.
pub open spec fn scan_hits(files: Seq<FarFileView>, patterns: Seq<InputPatternView>) -> Seq<
    HitView,
>
    decreases files.len(),
{
    if files.len() == 0 {
        Seq::empty()
    } else {
        let earlier = scan_hits(files.drop_last(), patterns);
        earlier + hits_in_file(files.last(), patterns, earlier.len())
    }
}

/// Where the trimmed text of a line of `text` starts and ends; the lines are
/// counted from the line that starts at `from`, which is line 1. `None`
/// where the text has no such line.
pub open spec fn trimmed_range_from(text: Seq<char>, from: int, line_number: nat) -> Option<
    (int, int),
>
    decreases text.len() - from,
    via trimmed_range_from_terminates
{
    if from < 0 || from >= text.len() || line_number == 0 {
        None
    } else {
        let end = line_end(text, from);
        if line_number == 1 {
            let start = trim_start(text, from, end);
            Some((start, trim_end(text, start, end)))
        } else if end < text.len() {
            trimmed_range_from(text, end + 1, (line_number - 1) as nat)
        } else {
            None
        }
    }
}

#[via_fn]
proof fn trimmed_range_from_terminates(text: Seq<char>, from: int, line_number: nat) {
    if 0 <= from < text.len() {
        lemma_index_of(text, '\n', from);
    }
}

/// Where the trimmed text of line `line_number` of `text` starts and ends;
/// the first line has the number 1.
pub open spec fn trimmed_range(text: Seq<char>, line_number: nat) -> Option<(int, int)> {
    trimmed_range_from(text, 0, line_number)
}

/// The trimmed text of line `line_number` of `text`; the first line has the
/// number 1.
pub open spec fn trimmed_line(text: Seq<char>, line_number: nat) -> Option<Seq<char>> {
    match trimmed_range(text, line_number) {
        Some((start, stop)) => Some(text.subrange(start, stop)),
        None => None,
    }
}

/// A hit agrees with a file: it names the file, its line is that line of the
/// file, trimmed, and its three fragments make up the line.
pub open spec fn hit_in_file(hit: HitView, file: FarFileView) -> bool {
    &&& hit.file_name == file.file_name
    &&& hit.relative_file_name == file.relative_file_name
    &&& trimmed_line(file.content, hit.line_number) == Some(hit.full_line)
    &&& hit.full_line.len() > 0
    &&& hit.fragments_join()
}

/// The text up to a character boundary is the text up to an earlier
/// boundary and the text between the two.
pub proof fn lemma_text_up_to(line: Seq<char>, from: int, to: int)
    requires
        0 <= from <= to <= encode_utf8(line).len(),
        is_char_boundary(encode_utf8(line), from),
        is_char_boundary(encode_utf8(line), to),
    ensures
        text_between(line, 0, to) == text_between(line, 0, from) + text_between(line, from, to),
{
    let bytes = encode_utf8(line);
    let head = bytes.subrange(0, to);
    encode_utf8_valid_utf8(line);
    valid_utf8_split(bytes, to);
    lemma_boundary_in_prefix(bytes, from, to);
    decode_utf8_split(head, from);
    assert(head.subrange(0, from) == bytes.subrange(0, from));
    assert(head.subrange(from, head.len() as int) == bytes.subrange(from, to));
}

/// Where a span fits a line, the three texts that it cuts the line into make
/// up the line.
pub proof fn lemma_span_cuts_line(line: Seq<char>, span: (usize, usize))
    requires
        span_fits(line, span),
    ensures
        text_between(line, 0, span.0 as int) + text_between(line, span.0 as int, span.1 as int)
            + text_between(line, span.1 as int, encode_utf8(line).len() as int) == line,
{
    let bytes = encode_utf8(line);
    encode_utf8_valid_utf8(line);
    encode_utf8_decode_utf8(line);
    decode_utf8_split(bytes, span.1 as int);
    lemma_text_up_to(line, span.0 as int, span.1 as int);
}

/// A character boundary of a text is one of each prefix that reaches it.
proof fn lemma_boundary_in_prefix(bytes: Seq<u8>, start: int, end: int)
    requires
        valid_utf8(bytes),
        0 <= start <= end <= bytes.len(),
        is_char_boundary(bytes, start),
        is_char_boundary(bytes, end),
    ensures
        is_char_boundary(bytes.subrange(0, end), start),
{
    let head = bytes.subrange(0, end);
    valid_utf8_split(bytes, end);
    if start == end {
        is_char_boundary_start_end_of_seq(head);
    } else {
        is_char_boundary_iff_not_is_continuation_byte(bytes, start);
        is_char_boundary_iff_not_is_continuation_byte(head, start);
    }
}

/// In a text of ASCII characters a byte offset is a position, so that every
/// span within the text fits it and the text between two offsets is the text
/// between the two positions.
pub proof fn lemma_ascii_span(text: Seq<char>, span: (usize, usize))
    requires
        is_ascii_chars(text),
        span.0 <= span.1 <= text.len(),
    ensures
        span_fits(text, span),
        text_between(text, span.0 as int, span.1 as int) == text.subrange(
            span.0 as int,
            span.1 as int,
        ),
{
    let bytes = encode_utf8(text);
    let part = text.subrange(span.0 as int, span.1 as int);
    is_ascii_chars_encode_utf8(text);
    is_ascii_chars_encode_utf8(part);
    encode_utf8_valid_utf8(text);
    encode_utf8_decode_utf8(part);
    lemma_ascii_boundary(text, span.0 as int);
    lemma_ascii_boundary(text, span.1 as int);
    assert(bytes.subrange(span.0 as int, span.1 as int) =~= encode_utf8(part));
}

/// In a text of ASCII characters every position is a character boundary.
proof fn lemma_ascii_boundary(text: Seq<char>, at: int)
    requires
        is_ascii_chars(text),
        0 <= at <= text.len(),
    ensures
        is_char_boundary(encode_utf8(text), at),
{
    let bytes = encode_utf8(text);
    is_ascii_chars_encode_utf8(text);
    encode_utf8_valid_utf8(text);
    if at == text.len() {
        is_char_boundary_start_end_of_seq(bytes);
    } else {
        is_char_boundary_iff_not_is_continuation_byte(bytes, at);
    }
}

/// Cuts `line` at a match into the text before it, the match and the text
/// after it.
pub fn split_span(line: &str, span: (usize, usize)) -> (parts: (String, String, String))
    requires
        span_fits(line@, span),
    ensures
        parts.0@ == text_between(line@, 0, span.0 as int),
        parts.1@ == text_between(line@, span.0 as int, span.1 as int),
        parts.2@ == text_between(line@, span.1 as int, encode_utf8(line@).len() as int),
        parts.0@ + parts.1@ + parts.2@ == line@,
{
    let ghost bytes = encode_utf8(line@);
    proof {
        encode_utf8_valid_utf8(line@);
        lemma_boundary_in_prefix(bytes, span.0 as int, span.1 as int);
        lemma_span_cuts_line(line@, span);
    }
    let (head, after) = line.split_at(span.1);
    let (before, matched) = head.split_at(span.0);
    proof {
        encode_utf8_decode_utf8(before@);
        encode_utf8_decode_utf8(matched@);
        encode_utf8_decode_utf8(after@);
        assert(head.spec_bytes().subrange(0, span.0 as int) == bytes.subrange(0, span.0 as int));
        assert(head.spec_bytes().subrange(span.0 as int, head.spec_bytes().len() as int)
            == bytes.subrange(span.0 as int, span.1 as int));
    }
    (before.to_owned(), matched.to_owned(), after.to_owned())
}

/// A hit stands in a given line of a given file, and its three fragments make
/// up that line.
pub open spec fn hit_on_line(
    hit: HitView,
    file: FarFileView,
    line_number: nat,
    line: Seq<char>,
) -> bool {
    &&& hit.file_name == file.file_name
    &&& hit.relative_file_name == file.relative_file_name
    &&& hit.line_number == line_number
    &&& hit.full_line == line
    &&& hit.fragments_join()
}

/// Every hit from `from` on stands in the given line and carries its own
/// position as its index.
pub open spec fn hits_on_line_from(
    hits: Seq<HitView>,
    from: int,
    file: FarFileView,
    line_number: nat,
    line: Seq<char>,
) -> bool {
    forall|i: int|
        from <= i < hits.len() ==> hit_on_line(#[trigger] hits[i], file, line_number, line)
            && hits[i].index == i
}

/// Every hit from `from` on agrees with the file and carries its own position
/// as its index.
pub open spec fn hits_in_file_from(hits: Seq<HitView>, from: int, file: FarFileView) -> bool {
    forall|i: int|
        from <= i < hits.len() ==> hit_in_file(#[trigger] hits[i], file) && hits[i].index == i
}

/// A hit agrees with one of the files.
pub open spec fn hit_in_corpus(hit: HitView, files: Seq<FarFileView>) -> bool {
    exists|k: int| 0 <= k < files.len() && hit_in_file(hit, #[trigger] files[k])
}

/// Every hit agrees with one of the files and carries its own position as its
/// index.
pub open spec fn hits_in_corpus(hits: Seq<HitView>, files: Seq<FarFileView>) -> bool {
    forall|i: int|
        0 <= i < hits.len() ==> hit_in_corpus(#[trigger] hits[i], files) && hits[i].index == i
}

/// Appends to `hits` the hits of one pattern in one line, given the matches
/// of the pattern in that line.
pub fn push_span_hits(
    file: &FarFile,
    line_number: usize,
    line: &str,
    pattern: &InputPattern,
    spans: &Vec<(usize, usize)>,
    hits: &mut Vec<Hit>,
)
    requires
        forall|i: int| 0 <= i < spans.len() ==> span_fits(line@, #[trigger] spans[i]),
    ensures
        final(hits).deep_view() == old(hits).deep_view() + hits_for_spans(
            file@,
            line_number as nat,
            line@,
            pattern@,
            spans@,
            old(hits).len() as nat,
        ),
        hits_on_line_from(
            final(hits).deep_view(),
            old(hits).len() as int,
            file@,
            line_number as nat,
            line@,
        ),
{
    let ghost before = hits.deep_view();
    let ghost wanted = hits_for_spans(
        file@,
        line_number as nat,
        line@,
        pattern@,
        spans@,
        before.len(),
    );
    let mut k: usize = 0;
    while k < spans.len()
        invariant
            k <= spans.len(),
            forall|i: int| 0 <= i < spans.len() ==> span_fits(line@, #[trigger] spans[i]),
            before == old(hits).deep_view(),
            wanted == hits_for_spans(
                file@,
                line_number as nat,
                line@,
                pattern@,
                spans@,
                before.len(),
            ),
            hits.deep_view() == before + wanted.take(k as int),
            hits_on_line_from(
                hits.deep_view(),
                before.len() as int,
                file@,
                line_number as nat,
                line@,
            ),
        decreases spans.len() - k,
    {
        let span = spans[k];
        let (line_before_match, matched_text, line_after_match) = split_span(line, span);
        let ghost earlier = hits.deep_view();
        let hit = Hit {
            index: hits.len(),
            state: FarState::Undecided,
            full_line: line.to_owned(),
            line_before_match,
            matched_text,
            line_after_match,
            file_name: file.file_name.clone(),
            relative_file_name: file.relative_file_name.clone(),
            line_number,
            input_pattern: pattern.clone(),
        };
        hits.push(hit);
        proof {
            assert(earlier.len() == before.len() + k);
            assert(hits.deep_view() == earlier.push(hit@));
        }
        k += 1;
    }
}

/// Appends to `hits` the hits of all patterns in one trimmed line.
pub fn scan_line(
    file: &FarFile,
    line_number: usize,
    line: &str,
    patterns: &Vec<CompiledPattern>,
    hits: &mut Vec<Hit>,
)
    ensures
        final(hits).deep_view() == old(hits).deep_view() + hits_on_line(
            file@,
            line_number as nat,
            line@,
            patterns.deep_view(),
            old(hits).len() as nat,
        ),
        hits_on_line_from(
            final(hits).deep_view(),
            old(hits).len() as int,
            file@,
            line_number as nat,
            line@,
        ),
{
    let ghost before = hits.deep_view();
    let ghost all = patterns.deep_view();
    let mut j: usize = 0;
    while j < patterns.len()
        invariant
            j <= patterns.len(),
            before == old(hits).deep_view(),
            all == patterns.deep_view(),
            hits.deep_view() == before + hits_on_line(
                file@,
                line_number as nat,
                line@,
                all.take(j as int),
                before.len(),
            ),
            hits_on_line_from(
                hits.deep_view(),
                before.len() as int,
                file@,
                line_number as nat,
                line@,
            ),
        decreases patterns.len() - j,
    {
        let compiled = &patterns[j];
        let spans = compiled.find_spans(line);
        push_span_hits(file, line_number, line, compiled.pattern(), &spans, hits);
        proof {
            assert(all.take(j + 1).drop_last() == all.take(j as int));
        }
        j += 1;
    }
    proof {
        assert(all.take(j as int) == all);
    }
}

/// Appends to `hits` the hits in one file: line by line, and in each line
/// pattern by pattern.
pub fn scan_file(file: &FarFile, patterns: &Vec<CompiledPattern>, hits: &mut Vec<Hit>)
    ensures
        final(hits).deep_view() == old(hits).deep_view() + hits_in_file(
            file@,
            patterns.deep_view(),
            old(hits).len() as nat,
        ),
        hits_in_file_from(final(hits).deep_view(), old(hits).len() as int, file@),
{
    let chars = to_chars(file.content.as_str());
    let n = chars.len();
    let ghost text = file@.content;
    let ghost before = hits.deep_view();
    let ghost total = hits_in_file(file@, patterns.deep_view(), before.len());
    let mut pos: usize = 0;
    let mut lines_done: usize = 0;
    while pos < n
        invariant
            chars@ == text,
            text == file@.content,
            n == chars.len(),
            pos <= n,
            lines_done <= pos,
            before == old(hits).deep_view(),
            total == hits_in_file(file@, patterns.deep_view(), before.len()),
            hits.deep_view() + hits_in_lines(
                file@,
                patterns.deep_view(),
                pos as int,
                (lines_done + 1) as nat,
                hits.len() as nat,
            ) == before + total,
            pos < n ==> forall|k: nat|
                k >= 1 ==> #[trigger] trimmed_range_from(text, pos as int, k)
                    == trimmed_range_from(text, 0, (lines_done + k) as nat),
            hits_in_file_from(hits.deep_view(), before.len() as int, file@),
        decreases n - pos,
    {
        let line_number = lines_done + 1;
        let end = find_char(&chars, '\n', pos);
        let start = skip_white_space(&chars, pos, end);
        let stop = drop_white_space(&chars, start, end);
        if start < stop {
            let line = string_of(&chars, start, stop);
            scan_line(file, line_number, line.as_str(), patterns, hits);
            proof {
                assert(trimmed_range_from(text, pos as int, 1) == Some((start as int, stop as int)));
            }
        }
        proof {
            assert forall|k: nat| k >= 1 implies #[trigger] trimmed_range_from(
                text,
                end + 1,
                k,
            ) == trimmed_range_from(text, 0, (line_number + k) as nat) by {
                assert(trimmed_range_from(text, pos as int, k + 1) == trimmed_range_from(
                    text,
                    0,
                    (lines_done + (k + 1)) as nat,
                ));
            }
        }
        if end < n {
            pos = end + 1;
            lines_done = line_number;
        } else {
            pos = n;
        }
    }
}

/// The hits of a corpus, in scan order: file by file, line by line, pattern
/// by pattern, match by match.
///
/// Every hit is undecided, carries its position in the result as its index,
/// and agrees with the file it names: its line is the trimmed text of that
/// line of the file, and the text before the match, the match and the text
/// after it make up the line.
pub fn scan(files: &Vec<FarFile>, patterns: &Vec<CompiledPattern>) -> (hits: Vec<Hit>)
    ensures
        hits.deep_view() == scan_hits(files.deep_view(), patterns.deep_view()),
        hits_in_corpus(hits.deep_view(), files.deep_view()),
{
    let mut hits: Vec<Hit> = Vec::new();
    let ghost all = files.deep_view();
    let mut i: usize = 0;
    while i < files.len()
        invariant
            i <= files.len(),
            all == files.deep_view(),
            hits.deep_view() == scan_hits(all.take(i as int), patterns.deep_view()),
            hits_in_corpus(hits.deep_view(), all.take(i as int)),
        decreases files.len() - i,
    {
        scan_file(&files[i], patterns, &mut hits);
        proof {
            assert(all.take(i + 1).drop_last() == all.take(i as int));
        }
        i += 1;
    }
    proof {
        assert(all.take(i as int) == all);
    }
    hits
}

} // verus!
