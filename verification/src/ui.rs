//! What the session shows: the rows of the screen as plain values, ready to
//! be painted.

use crate::app::{App, AppView};
use crate::app_laws::lemma_cursor_row_is_in_the_middle;
use crate::model::{Expansion, ExpansionView, FarState, Hit, HitView};
use crate::text::{
    count_lines, decimal, find_char, lemma_index_of, line_end, push_decimal, string_of, to_chars,
};
use crate::viewport::Window;
use vstd::prelude::*;

verus! {

/// How a piece of text is painted.
#[derive(Clone, Copy, Debug, PartialEq, Eq, Structural)]
pub enum SpanStyle {
    Plain,
    Green,
    Red,
    BlackOnDarkGray,
    BlackOnWhite,
    OnGreen,
    OnRed,
}

/// A piece of text and how it is painted.
#[derive(Debug, PartialEq, Eq)]
pub struct StyledText {
    pub text: String,
    pub style: SpanStyle,
}

/// The view of a [`StyledText`].
pub struct StyledTextView {
    pub text: Seq<char>,
    pub style: SpanStyle,
}

impl View for StyledText {
    type V = StyledTextView;

    open spec fn view(&self) -> StyledTextView {
        StyledTextView { text: self.text@, style: self.style }
    }
}

impl DeepView for StyledText {
    type V = StyledTextView;

    open spec fn deep_view(&self) -> StyledTextView {
        self@
    }
}

/// One row of the list: its pieces from left to right, and whether the row
/// is dimmed.
#[derive(Debug, PartialEq, Eq)]
pub struct Row {
    pub spans: Vec<StyledText>,
    pub dim: bool,
}

/// The view of a [`Row`].
pub struct RowView {
    pub spans: Seq<StyledTextView>,
    pub dim: bool,
}

impl View for Row {
    type V = RowView;

    open spec fn view(&self) -> RowView {
        RowView { spans: self.spans.deep_view(), dim: self.dim }
    }
}

impl DeepView for Row {
    type V = RowView;

    open spec fn deep_view(&self) -> RowView {
        self@
    }
}

/// The screen: the title of the frame, the status line at its bottom, and
/// the rows inside it from top to bottom.
#[derive(Debug, PartialEq, Eq)]
pub struct Screen {
    pub title: String,
    pub status: String,
    pub rows: Vec<Row>,
}

/// The view of a [`Screen`].
pub struct ScreenView {
    pub title: Seq<char>,
    pub status: Seq<char>,
    pub rows: Seq<RowView>,
}

impl View for Screen {
    type V = ScreenView;

    open spec fn view(&self) -> ScreenView {
        ScreenView { title: self.title@, status: self.status@, rows: self.rows.deep_view() }
    }
}

/// A piece of text in a style.
pub open spec fn styled(text: Seq<char>, style: SpanStyle) -> StyledTextView {
    StyledTextView { text, style }
}

/// The style of the place of a hit, by its verdict.
pub open spec fn place_style(state: FarState) -> SpanStyle {
    match state {
        FarState::Undecided => SpanStyle::Plain,
        FarState::Take => SpanStyle::Green,
        FarState::Skip => SpanStyle::Red,
    }
}

/// The mark that shows the verdict on a hit.
pub open spec fn indicator(state: FarState) -> Seq<char> {
    match state {
        FarState::Undecided => "( )"@,
        FarState::Take => "(t)"@,
        FarState::Skip => "(s)"@,
    }
}

/// How a hit shows its match: an undecided hit shows the match, an arrow and
/// the replacement; a taken hit shows the replacement; a skipped hit shows
/// the match.
pub open spec fn match_spans(hit: HitView) -> Seq<StyledTextView> {
    match hit.state {
        FarState::Undecided => seq![
            styled(hit.matched_text, SpanStyle::BlackOnDarkGray),
            styled("->"@, SpanStyle::Plain),
            styled(hit.input_pattern.replace, SpanStyle::BlackOnWhite),
        ],
        FarState::Take => seq![styled(hit.input_pattern.replace, SpanStyle::OnGreen)],
        FarState::Skip => seq![styled(hit.matched_text, SpanStyle::OnRed)],
    }
}

/// The row of a hit: the name of its file, its line number, the mark of its
/// verdict, and its line with the match set off. Every row but the one the
/// cursor is on is dimmed.
pub open spec fn hit_row(hit: HitView, cursor: nat) -> RowView {
    RowView {
        spans: seq![
            styled(hit.relative_file_name, place_style(hit.state)),
            styled(":"@, place_style(hit.state)),
            styled(decimal(hit.line_number), place_style(hit.state)),
            styled(" "@, SpanStyle::Plain),
            styled(indicator(hit.state), place_style(hit.state)),
            styled(" "@, SpanStyle::Plain),
            styled(hit.line_before_match, SpanStyle::Plain),
        ] + match_spans(hit) + seq![styled(hit.line_after_match, SpanStyle::Plain)],
        dim: hit.index != cursor,
    }
}

fn piece(text: String, style: SpanStyle) -> (span: StyledText)
    ensures
        span@ == styled(text@, style),
{
    StyledText { text, style }
}

/// The row of a hit in a session.
pub fn format_hit_to_spans(app: &App, hit: &Hit) -> (row: Row)
    ensures
        row@ == hit_row(hit@, app@.cursor),
{
    let place = match hit.state {
        FarState::Undecided => SpanStyle::Plain,
        FarState::Take => SpanStyle::Green,
        FarState::Skip => SpanStyle::Red,
    };
    let mark = match hit.state {
        FarState::Undecided => "( )",
        FarState::Take => "(t)",
        FarState::Skip => "(s)",
    };
    let mut number = String::new();
    push_decimal(&mut number, hit.line_number);
    let mut spans: Vec<StyledText> = Vec::new();
    spans.push(piece(hit.relative_file_name.clone(), place));
    spans.push(piece(":".to_owned(), place));
    spans.push(piece(number, place));
    spans.push(piece(" ".to_owned(), SpanStyle::Plain));
    spans.push(piece(mark.to_owned(), place));
    spans.push(piece(" ".to_owned(), SpanStyle::Plain));
    spans.push(piece(hit.line_before_match.clone(), SpanStyle::Plain));
    match hit.state {
        FarState::Undecided => {
            spans.push(piece(hit.matched_text.clone(), SpanStyle::BlackOnDarkGray));
            spans.push(piece("->".to_owned(), SpanStyle::Plain));
            spans.push(piece(hit.input_pattern.replace.clone(), SpanStyle::BlackOnWhite));
        },
        FarState::Take => {
            spans.push(piece(hit.input_pattern.replace.clone(), SpanStyle::OnGreen));
        },
        FarState::Skip => {
            spans.push(piece(hit.matched_text.clone(), SpanStyle::OnRed));
        },
    }
    spans.push(piece(hit.line_after_match.clone(), SpanStyle::Plain));
    proof {
        assert(spans.deep_view() =~= hit_row(hit@, app@.cursor).spans);
    }
    Row { spans, dim: hit.index != app.cursor }
}

/// Where the text of the line `from..end` stops: before the line feed at
/// `end`, and before a carriage return that stands right in front of that
/// line feed.
pub open spec fn line_stop(text: Seq<char>, from: int, end: int) -> int {
    if from < end < text.len() && text[end - 1] == '\r' {
        end - 1
    } else {
        end
    }
}

/// The text of a line, without its line ending, where the lines are counted
/// from the line that starts at `from`, which is line 1. A line that the
/// text does not have is empty.
pub open spec fn line_text_from(text: Seq<char>, from: int, line_number: nat) -> Seq<char>
    decreases text.len() - from,
    via line_text_from_terminates
{
    if from < 0 || from >= text.len() || line_number == 0 {
        Seq::empty()
    } else {
        let end = line_end(text, from);
        if line_number == 1 {
            text.subrange(from, line_stop(text, from, end))
        } else if end < text.len() {
            line_text_from(text, end + 1, (line_number - 1) as nat)
        } else {
            Seq::empty()
        }
    }
}

#[via_fn]
proof fn line_text_from_terminates(text: Seq<char>, from: int, line_number: nat) {
    if 0 <= from < text.len() {
        lemma_index_of(text, '\n', from);
    }
}

/// The text of line `line_number` of `text`, without its line ending; the
/// first line has the number 1.
pub open spec fn line_text(text: Seq<char>, line_number: nat) -> Seq<char> {
    line_text_from(text, 0, line_number)
}

/// The row of a line of the expanded file: the name of the file, the number
/// of the line, counted from 1 as the line numbers of the hits are, and the
/// text of the line.
pub open spec fn expansion_row(expansion: ExpansionView, line_number: nat) -> RowView {
    RowView {
        spans: seq![
            styled(expansion.relative_file_name, SpanStyle::Plain),
            styled(":"@, SpanStyle::Plain),
            styled(decimal(line_number), SpanStyle::Plain),
            styled(" "@, SpanStyle::Plain),
            styled(line_text(expansion.content, line_number), SpanStyle::Plain),
        ],
        dim: false,
    }
}

/// The row of the item that `before` items of the list stand before: a line
/// of the expanded file while a file is expanded, a hit otherwise.
pub open spec fn item_row(app: AppView, before: nat) -> RowView {
    match app.expansion {
        Some(expansion) => expansion_row(expansion, before + 1),
        None => hit_row(app.hits[before as int], app.cursor),
    }
}

/// An empty row.
pub open spec fn blank_row() -> RowView {
    RowView { spans: Seq::empty(), dim: false }
}

/// The rows of a window on the list: its empty rows, then the rows of the
/// items it shows.
pub open spec fn window_rows(app: AppView, w: Window) -> Seq<RowView> {
    Seq::new(
        (w.leading_blank_rows + w.take) as nat,
        |r: int|
            if r < w.leading_blank_rows {
                blank_row()
            } else {
                item_row(app, (w.skip + r - w.leading_blank_rows) as nat)
            },
    )
}

/// The text of a truth value.
pub open spec fn truth(b: bool) -> Seq<char> {
    if b {
        "true"@
    } else {
        "false"@
    }
}

/// The status line: the cursor, the saved cursor, and whether a file is
/// expanded.
pub open spec fn status_line(app: AppView) -> Seq<char> {
    " Cursor: "@ + decimal(app.cursor) + " Backup: "@ + decimal(app.backup_cursor)
        + " Expand: "@ + truth(app.expansion is Some)
}

/// What a session shows.
pub open spec fn screen_of(app: AppView) -> ScreenView {
    ScreenView {
        title: " Find And Replace "@,
        status: status_line(app),
        rows: window_rows(app, app.window()),
    }
}

/// Appends to `rows` the rows of `take` lines of the expanded file, with
/// `skip` lines passed over.
fn push_expansion_rows(rows: &mut Vec<Row>, expansion: &Expansion, skip: usize, take: usize)
    requires
        take > 0 ==> skip + take <= count_lines(expansion@.content, 0),
    ensures
        final(rows).len() == old(rows).len() + take,
        forall|r: int|
            0 <= r < old(rows).len() ==> (#[trigger] final(rows)[r])@ == old(rows)[r]@,
        forall|j: int|
            0 <= j < take ==> (#[trigger] final(rows)[old(rows).len() + j])@ == expansion_row(
                expansion@,
                (skip + j + 1) as nat,
            ),
{
    let chars = to_chars(expansion.content.as_str());
    let n = chars.len();
    let ghost text = expansion@.content;
    let ghost base = rows.len();
    let mut pos: usize = 0;
    let mut index: usize = 0;
    let mut made: usize = 0;
    while made < take
        invariant
            chars@ == text,
            text == expansion@.content,
            n == chars.len(),
            pos <= n,
            index <= pos,
            take > 0 ==> skip + take <= count_lines(text, 0),
            index + count_lines(text, pos as int) == count_lines(text, 0),
            made <= take,
            made == if index <= skip { 0 } else { index - skip },
            pos < n ==> forall|k: nat|
                k >= 1 ==> #[trigger] line_text_from(text, pos as int, k) == line_text_from(
                    text,
                    0,
                    (index + k) as nat,
                ),
            base == old(rows).len(),
            rows.len() == base + made,
            forall|r: int| 0 <= r < base ==> (#[trigger] rows[r])@ == old(rows)[r]@,
            forall|j: int|
                0 <= j < made ==> (#[trigger] rows[base + j])@ == expansion_row(
                    expansion@,
                    (skip + j + 1) as nat,
                ),
        decreases n - pos,
    {
        let end = find_char(&chars, '\n', pos);
        if index >= skip {
            let stop = if pos < end && end < n && chars[end - 1] == '\r' {
                end - 1
            } else {
                end
            };
            let mut number = String::new();
            push_decimal(&mut number, index + 1);
            let mut spans: Vec<StyledText> = Vec::new();
            spans.push(piece(expansion.relative_file_name.clone(), SpanStyle::Plain));
            spans.push(piece(":".to_owned(), SpanStyle::Plain));
            spans.push(piece(number, SpanStyle::Plain));
            spans.push(piece(" ".to_owned(), SpanStyle::Plain));
            spans.push(piece(string_of(&chars, pos, stop), SpanStyle::Plain));
            proof {
                assert(line_text_from(text, pos as int, 1) == line_text_from(
                    text,
                    0,
                    (index + 1) as nat,
                ));
                assert(spans.deep_view() =~= expansion_row(expansion@, (index + 1) as nat).spans);
            }
            rows.push(Row { spans, dim: false });
            made += 1;
        }
        proof {
            assert forall|k: nat| k >= 1 implies #[trigger] line_text_from(text, end + 1, k)
                == line_text_from(text, 0, (index + 1 + k) as nat) by {
                assert(line_text_from(text, pos as int, k + 1) == line_text_from(
                    text,
                    0,
                    (index + (k + 1)) as nat,
                ));
            }
        }
        if end < n {
            pos = end + 1;
        } else {
            pos = n;
        }
        index += 1;
    }
}

impl App {
    /// What the session shows on the terminal as it is: the title, the
    /// status line and the rows of the window on the list. Wherever the
    /// cursor is on an item and the terminal has a row, the middle row
    /// shows the item under the cursor: the hit under the cursor, or the line
    /// of the expanded file whose number is the cursor.
    pub fn render(&self) -> (screen: Screen)
        ensures
            screen@ == screen_of(self@),
            self@.cursor_in_range() && self@.item_count() > 0 && self.terminal_size.height > 0
                ==> self.terminal_size.height / 2 < screen.rows.len() && screen.rows[
                self.terminal_size.height as int / 2]@ == match self@.expansion {
                Some(expansion) => expansion_row(expansion, self.cursor as nat),
                None => hit_row(self.hits[self.cursor as int]@, self.cursor as nat),
            },
    {
        let w = self.window();
        proof {
            if self@.cursor_in_range() && self@.item_count() > 0 && self.terminal_size.height > 0 {
                lemma_cursor_row_is_in_the_middle(self@);
            }
        }
        let mut status = " Cursor: ".to_owned();
        push_decimal(&mut status, self.cursor);
        status.append(" Backup: ");
        push_decimal(&mut status, self.backup_cursor);
        status.append(" Expand: ");
        status.append(if self.expansion.is_some() { "true" } else { "false" });
        let mut rows: Vec<Row> = Vec::new();
        let mut r: usize = 0;
        while r < w.leading_blank_rows
            invariant
                r <= w.leading_blank_rows,
                rows.len() == r,
                forall|k: int| 0 <= k < r ==> (#[trigger] rows[k])@ == blank_row(),
            decreases w.leading_blank_rows - r,
        {
            let blank = Row { spans: Vec::new(), dim: false };
            proof {
                assert(blank@.spans =~= blank_row().spans);
            }
            rows.push(blank);
            r += 1;
        }
        match &self.expansion {
            Some(expansion) => {
                push_expansion_rows(&mut rows, expansion, w.skip, w.take);
            },
            None => {
                let mut j: usize = 0;
                while j < w.take
                    invariant
                        j <= w.take,
                        self.expansion is None,
                        w.take > 0 ==> w.skip + w.take <= self.hits.len(),
                        rows.len() == w.leading_blank_rows + j,
                        forall|k: int|
                            0 <= k < w.leading_blank_rows ==> (#[trigger] rows[k])@ == blank_row(),
                        forall|k: int|
                            0 <= k < j ==> (#[trigger] rows[w.leading_blank_rows + k])@
                                == item_row(self@, (w.skip + k) as nat),
                    decreases w.take - j,
                {
                    let row = format_hit_to_spans(self, &self.hits[w.skip + j]);
                    rows.push(row);
                    j += 1;
                }
            },
        }
        proof {
            let wanted = window_rows(self@, w);
            assert forall|k: int| 0 <= k < rows.len() implies rows.deep_view()[k] == wanted[k] by {
                if k < w.leading_blank_rows {
                } else {
                    let item = k - w.leading_blank_rows;
                    assert(rows[w.leading_blank_rows + item]@ == item_row(
                        self@,
                        (w.skip + item) as nat,
                    ));
                }
            }
            assert(rows.deep_view() =~= wanted);
        }
        Screen { title: " Find And Replace ".to_owned(), status, rows }
    }
}

} // verus!
