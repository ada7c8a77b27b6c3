//! The commit engine: from the taken hits to the new contents of the files
//! they stand in.
//!
//! Each taken hit replaces its match in its line. Where the matches of two
//! taken hits of one line overlap, the later hit in scan order stands and the
//! earlier one is dropped. What no standing hit covers is kept as it is: the
//! other lines, the white space around a line, the line endings.

use crate::model::{FarFile, FarFileView, FarState, Hit, HitView};
use crate::text::{
    drop_white_space, find_char, lemma_index_of, line_end, push_chars, skip_white_space, to_chars,
    trim_end, trim_start,
};
use vstd::prelude::*;

verus! {

/// One replacement in a line: `length` characters from `start` on, counted
/// in the trimmed line, give way to `text`.
#[derive(Debug, PartialEq, Eq)]
pub struct Replacement {
    pub line_number: usize,
    pub start: usize,
    pub length: usize,
    pub text: String,
}

/// The view of a [`Replacement`].
pub struct ReplacementView {
    pub line_number: nat,
    pub start: nat,
    pub length: nat,
    pub text: Seq<char>,
}

impl ReplacementView {
    /// The position after the last character that gives way.
    pub open spec fn end(self) -> nat {
        self.start + self.length
    }

    /// Two replacements overlap: each starts before the other ends. A
    /// replacement of no characters, which only inserts its text, overlaps
    /// another where it stands strictly inside the other.
    pub open spec fn overlaps(self, other: ReplacementView) -> bool {
        self.start < other.end() && other.start < self.end()
    }
}

impl View for Replacement {
    type V = ReplacementView;

    open spec fn view(&self) -> ReplacementView {
        ReplacementView {
            line_number: self.line_number as nat,
            start: self.start as nat,
            length: self.length as nat,
            text: self.text@,
        }
    }
}

impl DeepView for Replacement {
    type V = ReplacementView;

    open spec fn deep_view(&self) -> ReplacementView {
        self@
    }
}

impl Clone for Replacement {
    fn clone(&self) -> (copy: Self)
        ensures
            copy == *self,
    {
        Self {
            line_number: self.line_number,
            start: self.start,
            length: self.length,
            text: self.text.clone(),
        }
    }
}

/// The new content of one file.
#[derive(Debug, PartialEq, Eq)]
pub struct FileWrite {
    pub file_name: String,
    pub content: String,
}

/// The view of a [`FileWrite`].
pub struct FileWriteView {
    pub file_name: Seq<char>,
    pub content: Seq<char>,
}

impl View for FileWrite {
    type V = FileWriteView;

    open spec fn view(&self) -> FileWriteView {
        FileWriteView { file_name: self.file_name@, content: self.content@ }
    }
}

impl DeepView for FileWrite {
    type V = FileWriteView;

    open spec fn deep_view(&self) -> FileWriteView {
        self@
    }
}

/// The replacement that a hit asks for: its match gives way to the replace
/// side of its pattern.
pub open spec fn replacement_of(hit: HitView) -> ReplacementView {
    ReplacementView {
        line_number: hit.line_number,
        start: hit.line_before_match.len(),
        length: hit.matched_text.len(),
        text: hit.input_pattern.replace,
    }
}

/// A hit is taken and stands in the file of the given name.
pub open spec fn taken_in(hit: HitView, file_name: Seq<char>) -> bool {
    hit.state == FarState::Take && hit.file_name == file_name
}

/// The replacements of the taken hits of one file, in scan order.
pub open spec fn taken_in_file(hits: Seq<HitView>, file_name: Seq<char>) -> Seq<ReplacementView>
    decreases hits.len(),
{
    if hits.len() == 0 {
        Seq::empty()
    } else {
        let earlier = taken_in_file(hits.drop_last(), file_name);
        if taken_in(hits.last(), file_name) {
            earlier.push(replacement_of(hits.last()))
        } else {
            earlier
        }
    }
}

/// A replacement is for the given line and lies within it.
pub open spec fn is_on_line(edit: ReplacementView, line_number: nat, line_len: nat) -> bool {
    edit.line_number == line_number && edit.end() <= line_len
}

/// Of the replacements of a file, those for one line, in the same order.
pub open spec fn on_line(taken: Seq<ReplacementView>, line_number: nat, line_len: nat) -> Seq<
    ReplacementView,
>
    decreases taken.len(),
{
    if taken.len() == 0 {
        Seq::empty()
    } else {
        let earlier = on_line(taken.drop_last(), line_number, line_len);
        if is_on_line(taken.last(), line_number, line_len) {
            earlier.push(taken.last())
        } else {
            earlier
        }
    }
}

/// Every replacement lies within a line of the given length.
pub open spec fn all_within(edits: Seq<ReplacementView>, line_len: nat) -> bool {
    forall|i: int| 0 <= i < edits.len() ==> (#[trigger] edits[i]).end() <= line_len
}

/// A later replacement of the line overlaps the one at `i`, which therefore
/// does not stand.
pub open spec fn superseded(edits: Seq<ReplacementView>, i: int) -> bool {
    exists|j: int| i < j < edits.len() && edits[i].overlaps(#[trigger] edits[j])
}

/// The replacement at `i` inserts its text at `at`, and stands.
pub open spec fn inserts_at(edits: Seq<ReplacementView>, i: int, at: int) -> bool {
    edits[i].start == at && edits[i].length == 0 && !superseded(edits, i)
}

/// The texts that the first `upto` replacements of a line insert at `at`, in
/// the order of the replacements.
pub open spec fn inserted_at(edits: Seq<ReplacementView>, at: int, upto: int) -> Seq<char>
    decreases upto,
{
    if upto <= 0 {
        Seq::empty()
    } else if inserts_at(edits, upto - 1, at) {
        inserted_at(edits, at, upto - 1) + edits[upto - 1].text
    } else {
        inserted_at(edits, at, upto - 1)
    }
}

/// The position, among the replacements of a line, of the last one that
/// replaces characters from `at` on.
pub open spec fn last_replacing_at(edits: Seq<ReplacementView>, at: int) -> Option<int>
    decreases edits.len(),
{
    if edits.len() == 0 {
        None
    } else if edits.last().start == at && edits.last().length > 0 {
        Some(edits.len() - 1)
    } else {
        last_replacing_at(edits.drop_last(), at)
    }
}

/// The replacement that stands at `at` and replaces characters: the last one
/// that starts there, unless a later one overlaps it. Of two that start at
/// one place the earlier one is overlapped, so no other can stand there.
pub open spec fn replacing_at(edits: Seq<ReplacementView>, at: int) -> Option<int> {
    match last_replacing_at(edits, at) {
        Some(i) => if superseded(edits, i) {
            None
        } else {
            Some(i)
        },
        None => None,
    }
}

/// The line from position `at` on, with the standing replacements made: at
/// each position come first the texts inserted there, then the text of the
/// replacement that stands there, followed by the line behind what it
/// replaces, or else the character of the line.
pub open spec fn rewritten_from(line: Seq<char>, edits: Seq<ReplacementView>, at: int) -> Seq<
    char,
>
    decreases line.len() - at,
{
    if at < 0 || at > line.len() {
        Seq::empty()
    } else {
        inserted_at(edits, at, edits.len() as int) + match replacing_at(edits, at) {
            Some(i) if 0 < edits[i].length && at + edits[i].length <= line.len() => edits[i].text
                + rewritten_from(line, edits, at + edits[i].length),
            _ => if at < line.len() {
                seq![line[at]] + rewritten_from(line, edits, at + 1)
            } else {
                Seq::empty()
            },
        }
    }
}

/// The line with the standing replacements made.
pub open spec fn rewritten_line(line: Seq<char>, edits: Seq<ReplacementView>) -> Seq<char> {
    rewritten_from(line, edits, 0)
}

/// The text from the line that starts at `from` on, with the replacements
/// made in each line. That line has the number `line_number`. The
/// replacements of a line are made in its trimmed text; the white space
/// around it and its line feed are kept.
pub open spec fn rewritten_text(
    text: Seq<char>,
    taken: Seq<ReplacementView>,
    from: int,
    line_number: nat,
) -> Seq<char>
    decreases text.len() - from,
    via rewritten_text_terminates
{
    if from < 0 || from >= text.len() {
        Seq::empty()
    } else {
        let end = line_end(text, from);
        let start = trim_start(text, from, end);
        let stop = trim_end(text, start, end);
        let line = text.subrange(start, stop);
        let whole = text.subrange(from, start) + rewritten_line(
            line,
            on_line(taken, line_number, line.len()),
        ) + text.subrange(stop, end);
        if end < text.len() {
            whole + seq!['\n'] + rewritten_text(text, taken, end + 1, line_number + 1)
        } else {
            whole
        }
    }
}

#[via_fn]
proof fn rewritten_text_terminates(
    text: Seq<char>,
    taken: Seq<ReplacementView>,
    from: int,
    line_number: nat,
) {
    if 0 <= from < text.len() {
        lemma_index_of(text, '\n', from);
    }
}

/// What a commit writes: for each file with a taken hit, in the order of the
/// files, its content with the replacements made. A file without a taken hit
/// is not written.
pub open spec fn commit_plan(files: Seq<FarFileView>, hits: Seq<HitView>) -> Seq<FileWriteView>
    decreases files.len(),
{
    if files.len() == 0 {
        Seq::empty()
    } else {
        let earlier = commit_plan(files.drop_last(), hits);
        let file = files.last();
        let taken = taken_in_file(hits, file.file_name);
        if taken.len() > 0 {
            earlier.push(
                FileWriteView {
                    file_name: file.file_name,
                    content: rewritten_text(file.content, taken, 0, 1),
                },
            )
        } else {
            earlier
        }
    }
}

/// The replacements of the taken hits of one file, in scan order.
fn taken_replacements(hits: &Vec<Hit>, file_name: &String) -> (taken: Vec<Replacement>)
    ensures
        taken.deep_view() == taken_in_file(hits.deep_view(), file_name@),
{
    let mut taken: Vec<Replacement> = Vec::new();
    let ghost all = hits.deep_view();
    let mut i: usize = 0;
    while i < hits.len()
        invariant
            i <= hits.len(),
            all == hits.deep_view(),
            taken.deep_view() == taken_in_file(all.take(i as int), file_name@),
        decreases hits.len() - i,
    {
        let hit = &hits[i];
        proof {
            assert(all.take(i + 1).drop_last() == all.take(i as int));
        }
        if hit.state == FarState::Take && hit.file_name == *file_name {
            let edit = Replacement {
                line_number: hit.line_number,
                start: hit.line_before_match.as_str().unicode_len(),
                length: hit.matched_text.as_str().unicode_len(),
                text: hit.input_pattern.replace.clone(),
            };
            taken.push(edit);
        }
        i += 1;
    }
    proof {
        assert(all.take(i as int) == all);
    }
    taken
}

/// Of the replacements of a file, those for one line of the given length.
fn replacements_on_line(taken: &Vec<Replacement>, line_number: usize, line_len: usize) -> (edits:
    Vec<Replacement>)
    ensures
        edits.deep_view() == on_line(taken.deep_view(), line_number as nat, line_len as nat),
        all_within(edits.deep_view(), line_len as nat),
{
    let mut edits: Vec<Replacement> = Vec::new();
    let ghost all = taken.deep_view();
    let mut i: usize = 0;
    while i < taken.len()
        invariant
            i <= taken.len(),
            all == taken.deep_view(),
            edits.deep_view() == on_line(all.take(i as int), line_number as nat, line_len as nat),
            all_within(edits.deep_view(), line_len as nat),
        decreases taken.len() - i,
    {
        let edit = &taken[i];
        let ghost earlier = edits.deep_view();
        proof {
            assert(all.take(i + 1).drop_last() == all.take(i as int));
        }
        if edit.line_number == line_number && edit.start <= line_len && edit.length <= line_len
            - edit.start {
            edits.push(edit.clone());
            proof {
                assert(edits.deep_view() == earlier.push(edit@));
            }
        }
        i += 1;
    }
    proof {
        assert(all.take(i as int) == all);
    }
    edits
}

/// For each replacement of a line, whether it stands.
fn standing_flags(edits: &Vec<Replacement>) -> (flags: Vec<bool>)
    requires
        all_within(edits.deep_view(), usize::MAX as nat),
    ensures
        flags.len() == edits.len(),
        forall|i: int| 0 <= i < flags.len() ==> flags[i] == !superseded(edits.deep_view(), i),
{
    let ghost all = edits.deep_view();
    let mut flags: Vec<bool> = Vec::new();
    let mut i: usize = 0;
    while i < edits.len()
        invariant
            i <= edits.len(),
            all == edits.deep_view(),
            all_within(all, usize::MAX as nat),
            flags.len() == i,
            forall|k: int| 0 <= k < i ==> flags[k] == !superseded(all, k),
        decreases edits.len() - i,
    {
        let mine = &edits[i];
        let mut stands = true;
        let mut j: usize = i + 1;
        while j < edits.len() && stands
            invariant
                i < j <= edits.len(),
                all == edits.deep_view(),
                all_within(all, usize::MAX as nat),
                mine@ == all[i as int],
                stands ==> forall|k: int| i < k < j ==> !all[i as int].overlaps(#[trigger] all[k]),
                !stands ==> superseded(all, i as int),
            decreases edits.len() - j,
        {
            let other = &edits[j];
            proof {
                assert(all[j as int].end() <= usize::MAX);
            }
            if mine.start < other.start + other.length && other.start < mine.start + mine.length {
                stands = false;
            }
            j += 1;
        }
        flags.push(stands);
        i += 1;
    }
    flags
}

/// Appends to `out` the texts that the replacements of a line insert at
/// `at`.
fn push_inserted(out: &mut String, edits: &Vec<Replacement>, flags: &Vec<bool>, at: usize)
    requires
        flags.len() == edits.len(),
        forall|i: int| 0 <= i < flags.len() ==> flags[i] == !superseded(edits.deep_view(), i),
    ensures
        final(out)@ == old(out)@ + inserted_at(edits.deep_view(), at as int, edits.len() as int),
{
    let ghost all = edits.deep_view();
    let mut i: usize = 0;
    while i < edits.len()
        invariant
            i <= edits.len(),
            all == edits.deep_view(),
            flags.len() == edits.len(),
            forall|k: int| 0 <= k < flags.len() ==> flags[k] == !superseded(all, k),
            out@ == old(out)@ + inserted_at(all, at as int, i as int),
        decreases edits.len() - i,
    {
        let edit = &edits[i];
        if edit.start == at && edit.length == 0 && flags[i] {
            out.append(edit.text.as_str());
        }
        i += 1;
    }
}

/// Finds the replacement that stands at `at` and replaces characters.
fn find_replacing(edits: &Vec<Replacement>, flags: &Vec<bool>, at: usize) -> (found: Option<usize>)
    requires
        flags.len() == edits.len(),
        forall|i: int| 0 <= i < flags.len() ==> flags[i] == !superseded(edits.deep_view(), i),
    ensures
        match found {
            Some(i) => replacing_at(edits.deep_view(), at as int) == Some(i as int) && i
                < edits.len() && edits[i as int].start == at && edits[i as int].length > 0,
            None => replacing_at(edits.deep_view(), at as int) is None,
        },
{
    let ghost all = edits.deep_view();
    let mut i: usize = edits.len();
    proof {
        assert(all.take(i as int) == all);
    }
    while i > 0 && !(edits[i - 1].start == at && edits[i - 1].length > 0)
        invariant
            i <= edits.len(),
            all == edits.deep_view(),
            last_replacing_at(all, at as int) == last_replacing_at(all.take(i as int), at as int),
        decreases i,
    {
        proof {
            assert(all.take(i as int).drop_last() == all.take(i - 1));
        }
        i -= 1;
    }
    if i == 0 {
        return None;
    }
    if flags[i - 1] {
        Some(i - 1)
    } else {
        None
    }
}

/// A line without replacements stays as it is.
pub proof fn lemma_rewritten_without_edits(line: Seq<char>, at: int)
    requires
        0 <= at <= line.len(),
    ensures
        rewritten_from(line, Seq::empty(), at) == line.subrange(at, line.len() as int),
    decreases line.len() - at,
{
    if at < line.len() {
        lemma_rewritten_without_edits(line, at + 1);
    }
}

/// Appends to `out` the line `chars[start..stop]` with the standing
/// replacements made.
fn push_rewritten_line(
    out: &mut String,
    chars: &Vec<char>,
    start: usize,
    stop: usize,
    edits: &Vec<Replacement>,
)
    requires
        start <= stop <= chars.len(),
        all_within(edits.deep_view(), (stop - start) as nat),
    ensures
        final(out)@ == old(out)@ + rewritten_line(
            chars@.subrange(start as int, stop as int),
            edits.deep_view(),
        ),
{
    let len = stop - start;
    let ghost line = chars@.subrange(start as int, stop as int);
    let ghost all = edits.deep_view();
    let ghost target = out@ + rewritten_line(line, all);
    if edits.len() == 0 {
        push_chars(out, chars, start, stop);
        proof {
            assert(all == Seq::<ReplacementView>::empty());
            lemma_rewritten_without_edits(line, 0);
        }
        return ;
    }
    let flags = standing_flags(edits);
    let mut at: usize = 0;
    let mut done = false;
    while !done
        invariant
            start <= stop <= chars.len(),
            len == stop - start,
            line == chars@.subrange(start as int, stop as int),
            all == edits.deep_view(),
            all_within(all, len as nat),
            flags.len() == edits.len(),
            forall|i: int| 0 <= i < flags.len() ==> flags[i] == !superseded(all, i),
            at <= len,
            !done ==> out@ + rewritten_from(line, all, at as int) == target,
            done ==> out@ == target,
        decreases len - at, if done { 0int } else { 1int },
    {
        push_inserted(out, edits, &flags, at);
        match find_replacing(edits, &flags, at) {
            Some(i) => {
                let edit = &edits[i];
                out.append(edit.text.as_str());
                at = at + edit.length;
            },
            None => {
                if at < len {
                    out.push(chars[start + at]);
                    at += 1;
                } else {
                    done = true;
                }
            },
        }
    }
}

/// The content of `file` with the replacements made.
fn rewrite_file(file: &FarFile, taken: &Vec<Replacement>) -> (content: String)
    ensures
        content@ == rewritten_text(file@.content, taken.deep_view(), 0, 1),
{
    let chars = to_chars(file.content.as_str());
    let n = chars.len();
    let ghost text = file@.content;
    let ghost total = rewritten_text(text, taken.deep_view(), 0, 1);
    let mut out = String::new();
    let mut pos: usize = 0;
    let mut lines_done: usize = 0;
    while pos < n
        invariant
            chars@ == text,
            n == chars.len(),
            pos <= n,
            lines_done <= pos,
            out@ + rewritten_text(text, taken.deep_view(), pos as int, (lines_done + 1) as nat)
                == total,
        decreases n - pos,
    {
        let line_number = lines_done + 1;
        let end = find_char(&chars, '\n', pos);
        let start = skip_white_space(&chars, pos, end);
        let stop = drop_white_space(&chars, start, end);
        push_chars(&mut out, &chars, pos, start);
        let edits = replacements_on_line(taken, line_number, stop - start);
        push_rewritten_line(&mut out, &chars, start, stop, &edits);
        push_chars(&mut out, &chars, stop, end);
        if end < n {
            out.push('\n');
            pos = end + 1;
            lines_done = line_number;
        } else {
            pos = n;
        }
    }
    out
}

/// What a commit writes: the new content of each file that holds a taken
/// hit, in the order of the files. Nothing is written here; the caller
/// writes each content to its file, once.
pub fn plan_writes(files: &Vec<FarFile>, hits: &Vec<Hit>) -> (writes: Vec<FileWrite>)
    ensures
        writes.deep_view() == commit_plan(files.deep_view(), hits.deep_view()),
{
    let mut writes: Vec<FileWrite> = Vec::new();
    let ghost all = files.deep_view();
    let mut i: usize = 0;
    while i < files.len()
        invariant
            i <= files.len(),
            all == files.deep_view(),
            writes.deep_view() == commit_plan(all.take(i as int), hits.deep_view()),
        decreases files.len() - i,
    {
        let file = &files[i];
        proof {
            assert(all.take(i + 1).drop_last() == all.take(i as int));
        }
        let taken = taken_replacements(hits, &file.file_name);
        if taken.len() > 0 {
            let write = FileWrite {
                file_name: file.file_name.clone(),
                content: rewrite_file(file, &taken),
            };
            writes.push(write);
        }
        i += 1;
    }
    proof {
        assert(all.take(i as int) == all);
    }
    writes
}

} // verus!
