//! Laws of the session: what holds of every state and of every sequence of
//! commands.

use crate::app::{content_of, AppView, Command, CursorMove, Event};
use crate::commit::FileWriteView;
use crate::commit_laws::{lemma_lone_taken_hit_is_committed, lemma_trimmed_range_within};
use crate::model::{names_differ, FarFileView, FarState};
use crate::scan::{hit_in_corpus, hit_in_file, trimmed_line, trimmed_range, trimmed_range_from};
use crate::text::{
    count_lines, is_white_space, lemma_index_of, lemma_trim_end, lemma_trim_start, line_end,
    trim_end, trim_start,
};
use crate::ui::{expansion_row, hit_row, line_stop, line_text, line_text_from, screen_of};
use crate::viewport::lemma_window_centers_cursor;
use vstd::prelude::*;

verus! {

/// No sequence of cursor steps takes the cursor off the list: in a list with
/// items it ends on an item, and in an empty list a cursor that is 0 stays
/// 0. While no file is expanded the list is the list of the hits; while one
/// is expanded it is the list of its lines, and the cursor is a line number.
pub proof fn lemma_moves_keep_cursor_in_range(state: AppView, steps: Seq<CursorMove>)
    requires
        state.cursor_in_range(),
    ensures
        state.moved_all(steps).cursor_in_range(),
        state.moved_all(steps).expansion == state.expansion,
        state.moved_all(steps).hits == state.hits,
        state.expansion is None ==> {
            let cursor = state.moved_all(steps).cursor;
            cursor < state.hits.len() || (state.hits.len() == 0 && cursor == 0)
        },
        state.expansion matches Some(expansion) ==> {
            let cursor = state.moved_all(steps).cursor;
            let lines = count_lines(expansion.content, 0);
            1 <= cursor <= lines || (lines == 0 && cursor == 1)
        },
    decreases steps.len(),
{
    if steps.len() > 0 {
        lemma_moves_keep_cursor_in_range(state, steps.drop_last());
    }
}

/// A take and a skip move the cursor exactly as one step down does: one
/// item on, but for a cursor on the last item, which stays. A reset leaves
/// the cursor where it is. Each changes the verdict of the hit under the
/// cursor and of no other hit.
pub proof fn lemma_decide_moves_cursor(state: AppView, verdict: FarState)
    ensures
        verdict != FarState::Undecided ==> state.decided(verdict).cursor == state.moved(
            CursorMove::Down,
        ).cursor,
        verdict != FarState::Undecided && state.cursor_in_range() ==> state.decided(
            verdict,
        ).cursor == if state.cursor + 1 < state.first_position() + state.item_count() {
            state.cursor + 1
        } else {
            state.cursor
        },
        verdict == FarState::Undecided ==> state.decided(verdict).cursor == state.cursor,
        state.decided(verdict).hits.len() == state.hits.len(),
        forall|i: int|
            0 <= i < state.hits.len() ==> #[trigger] state.decided(verdict).hits[i] == if i
                == state.cursor {
                state.hits[i].with_state(verdict)
            } else {
                state.hits[i]
            },
{
}

/// Opening the expansion and closing it again, with no step of the cursor in
/// between, puts the cursor back where it was and leaves the hits and their
/// verdicts as they were.
pub proof fn lemma_toggle_twice_restores_cursor(state: AppView)
    requires
        state.expansion is None,
    ensures
        state.toggled().toggled().cursor == state.cursor,
        state.toggled().toggled().expansion is None,
        state.toggled().toggled().hits == state.hits,
        state.toggled().toggled().files == state.files,
{
}

/// A commit changes nothing in the session, so that a second commit, with
/// no verdict changed in between, writes exactly what the first one wrote.
pub proof fn lemma_commit_twice_writes_the_same(state: AppView)
    ensures
        state.executed(Command::Commit) == state,
        state.executed(Command::Commit).written(Command::Commit) == state.written(Command::Commit),
{
}

/// Whatever the user asks for, a session stays well formed: the hits keep
/// agreeing with the files they were found in, and the cursor stays in range
/// of the hits while no file is expanded.
pub proof fn lemma_executed_keeps_well_formed(state: AppView, command: Command)
    requires
        state.well_formed(),
    ensures
        state.executed(command).well_formed(),
{
}

/// No sequence of commands takes a session out of the well-formed states.
pub proof fn lemma_executed_all_keeps_well_formed(state: AppView, commands: Seq<Command>)
    requires
        state.well_formed(),
    ensures
        state.executed_all(commands).well_formed(),
    decreases commands.len(),
{
    if commands.len() > 0 {
        lemma_executed_all_keeps_well_formed(state, commands.drop_last());
    }
}

/// No input event takes a session out of the well-formed states.
pub proof fn lemma_handled_keeps_well_formed(state: AppView, event: Event)
    requires
        state.well_formed(),
    ensures
        state.handled(event).well_formed(),
{
}

/// In a well-formed session with one hit taken and no other, a commit writes the file of that hit and no other
/// file: the trimmed text of the line of the hit becomes the text before
/// the match, the replace side and the text after the match, and all else
/// in the file is kept.
pub proof fn lemma_commit_of_one_taken_hit(state: AppView, i: int)
    requires
        state.well_formed(),
        0 <= i < state.hits.len(),
        state.hits[i].state == FarState::Take,
        forall|j: int|
            0 <= j < state.hits.len() && j != i ==> (#[trigger] state.hits[j]).state
                != FarState::Take,
    ensures
        exists|k: int, start: int, stop: int|
            #![trigger state.files[k].content.subrange(start, stop)]
            0 <= k < state.files.len() && state.files[k].file_name == state.hits[i].file_name
                && trimmed_range(state.files[k].content, state.hits[i].line_number) == Some(
                (start, stop),
            ) && state.written(Command::Commit) == Some(
                seq![
                    FileWriteView {
                        file_name: state.files[k].file_name,
                        content: state.files[k].content.subrange(0, start)
                            + state.hits[i].replaced_line() + state.files[k].content.subrange(
                            stop,
                            state.files[k].content.len() as int,
                        ),
                    },
                ],
            ),
{
    let hit = state.hits[i];
    assert(hit_in_corpus(hit, state.files));
    let k = choose|k: int| 0 <= k < state.files.len() && hit_in_file(hit, #[trigger] state.files[k]);
    lemma_lone_taken_hit_is_committed(state.files, state.hits, i, k);
    let (start, stop) = trimmed_range(state.files[k].content, hit.line_number)->0;
    assert(state.files[k].content.subrange(start, stop) == hit.full_line);
}

/// Among files of different names, the content shown for the name of a
/// file is the content of that file.
pub proof fn lemma_content_of_named_file(files: Seq<FarFileView>, k: int)
    requires
        names_differ(files),
        0 <= k < files.len(),
    ensures
        content_of(files, files[k].file_name) == files[k].content,
    decreases files.len(),
{
    if k > 0 {
        let rest = files.drop_first();
        assert(files[0].file_name != files[k].file_name);
        assert forall|a: int, b: int| 0 <= a < b < rest.len() implies (#[trigger] rest[a]).file_name
            != (#[trigger] rest[b]).file_name by {
            assert(files[a + 1].file_name != files[b + 1].file_name);
        }
        assert(rest[k - 1] == files[k]);
        lemma_content_of_named_file(rest, k - 1);
    }
}

/// A line that has a trimmed text is one of the lines that are counted.
pub proof fn lemma_trimmed_line_is_counted(text: Seq<char>, from: int, line_number: nat)
    requires
        0 <= from <= text.len(),
    ensures
        trimmed_range_from(text, from, line_number) is Some ==> 1 <= line_number <= count_lines(
            text,
            from,
        ),
    decreases text.len() - from,
{
    if from < text.len() && line_number > 1 {
        let end = line_end(text, from);
        lemma_index_of(text, '\n', from);
        if end < text.len() {
            lemma_trimmed_line_is_counted(text, end + 1, (line_number - 1) as nat);
        }
    }
}

/// The text of a line holds the trimmed text of that line, with nothing but
/// white space before it and behind it.
pub proof fn lemma_line_holds_its_trimmed_text(text: Seq<char>, from: int, line_number: nat)
    requires
        0 <= from <= text.len(),
    ensures
        trimmed_range_from(text, from, line_number) matches Some((start, stop)) ==> start < stop
            ==> exists|first: int, last: int|
            #![trigger text.subrange(first, last)]
            {
                &&& from <= first <= start
                &&& stop <= last <= text.len()
                &&& line_text_from(text, from, line_number) == text.subrange(first, last)
                &&& forall|i: int| first <= i < start ==> is_white_space(#[trigger] text[i])
                &&& forall|i: int| stop <= i < last ==> is_white_space(#[trigger] text[i])
            },
    decreases text.len() - from,
{
    if from < text.len() && line_number >= 1 {
        let end = line_end(text, from);
        lemma_index_of(text, '\n', from);
        if line_number == 1 {
            let start = trim_start(text, from, end);
            let stop = trim_end(text, start, end);
            lemma_trim_start(text, from, end);
            lemma_trim_end(text, start, end);
            if start < stop {
                let last = line_stop(text, from, end);
                assert(stop <= last) by {
                    if last < end {
                        assert(is_white_space(text[end - 1]));
                    }
                }
                assert(line_text_from(text, from, line_number) == text.subrange(from, last));
            }
        } else if end < text.len() {
            lemma_line_holds_its_trimmed_text(text, end + 1, (line_number - 1) as nat);
            match trimmed_range_from(text, end + 1, (line_number - 1) as nat) {
                Some((start, stop)) => {
                    if start < stop {
                        let (first, last) = choose|first: int, last: int|
                            #![trigger text.subrange(first, last)]
                            {
                                &&& end + 1 <= first <= start
                                &&& stop <= last <= text.len()
                                &&& line_text_from(text, end + 1, (line_number - 1) as nat)
                                    == text.subrange(first, last)
                                &&& forall|i: int|
                                    first <= i < start ==> is_white_space(#[trigger] text[i])
                                &&& forall|i: int|
                                    stop <= i < last ==> is_white_space(#[trigger] text[i])
                            };
                        assert(line_text_from(text, from, line_number) == text.subrange(
                            first,
                            last,
                        ));
                    }
                },
                None => {},
            }
        }
    }
}

/// In a well-formed session the expansion opens on the line of the hit: the
/// file shown is the file that the hit agrees with, the cursor is the line
/// number of the hit, which is a line of that file, and the trimmed text of
/// that line is the line of the hit.
pub proof fn lemma_expansion_opens_on_the_line_of_the_hit(state: AppView)
    requires
        state.well_formed(),
        state.expansion is None,
        state.current() is Some,
    ensures
        ({
            let hit = state.current()->0;
            let opened = state.toggled();
            &&& opened.expansion matches Some(expansion)
            &&& expansion.file_name == hit.file_name
            &&& opened.cursor == hit.line_number
            &&& 1 <= opened.cursor <= count_lines(expansion.content, 0)
            &&& opened.backup_cursor == state.cursor
            &&& trimmed_line(expansion.content, opened.cursor) == Some(hit.full_line)
            &&& opened.well_formed()
        }),
{
    let hit = state.current()->0;
    assert(hit == state.hits[state.cursor as int]);
    assert(hit_in_corpus(hit, state.files));
    let k = choose|k: int| 0 <= k < state.files.len() && hit_in_file(hit, #[trigger] state.files[k]);
    lemma_content_of_named_file(state.files, k);
    lemma_trimmed_line_is_counted(state.files[k].content, 0, hit.line_number);
}

/// Wherever the cursor is on an item and the terminal has a row, the middle
/// row of the screen shows the item under the cursor: the hit under the
/// cursor while no file is expanded, and the line whose number is the cursor
/// while a file is expanded.
pub proof fn lemma_cursor_row_is_in_the_middle(state: AppView)
    requires
        state.cursor_in_range(),
        state.item_count() > 0,
        state.item_count() <= usize::MAX,
        state.terminal_size.height > 0,
    ensures
        ({
            let rows = screen_of(state).rows;
            let middle = state.terminal_size.height as int / 2;
            &&& middle < rows.len()
            &&& rows[middle] == match state.expansion {
                Some(expansion) => expansion_row(expansion, state.cursor),
                None => hit_row(state.hits[state.cursor as int], state.cursor),
            }
        }),
{
    lemma_window_centers_cursor(
        state.terminal_size.height as nat,
        state.items_before_cursor(),
        state.item_count(),
    );
}

/// In a well-formed session, right after the expansion has opened on a hit,
/// the middle row of the screen shows the line of the file that has the line
/// number of the hit, and the text of that row holds the line of the hit
/// with nothing but white space around it.
pub proof fn lemma_expansion_shows_the_line_of_the_hit(state: AppView)
    requires
        state.well_formed(),
        state.expansion is None,
        state.current() is Some,
        state.terminal_size.height > 0,
        count_lines(content_of(state.files, state.current()->0.file_name), 0) <= usize::MAX,
    ensures
        ({
            let hit = state.current()->0;
            let opened = state.toggled();
            let rows = screen_of(opened).rows;
            let middle = state.terminal_size.height as int / 2;
            &&& opened.expansion matches Some(expansion)
            &&& middle < rows.len()
            &&& rows[middle] == expansion_row(expansion, hit.line_number)
            &&& exists|first: int, last: int|
                #![trigger expansion.content.subrange(first, last)]
                {
                    &&& line_text(expansion.content, hit.line_number)
                        == expansion.content.subrange(first, last)
                    &&& trimmed_range(expansion.content, hit.line_number) matches Some(
                        (start, stop),
                    )
                    &&& first <= start <= stop <= last
                    &&& expansion.content.subrange(start, stop) == hit.full_line
                    &&& forall|i: int|
                        first <= i < start ==> is_white_space(#[trigger] expansion.content[i])
                    &&& forall|i: int|
                        stop <= i < last ==> is_white_space(#[trigger] expansion.content[i])
                }
        }),
{
    let hit = state.current()->0;
    let opened = state.toggled();
    lemma_expansion_opens_on_the_line_of_the_hit(state);
    lemma_cursor_row_is_in_the_middle(opened);
    let text = opened.expansion->0.content;
    lemma_trimmed_range_within(text, 0, hit.line_number);
    lemma_line_holds_its_trimmed_text(text, 0, hit.line_number);
    let (start, stop) = trimmed_range(text, hit.line_number)->0;
    assert(text.subrange(start, stop) == hit.full_line);
    assert(start < stop);
    let (first, last) = choose|first: int, last: int|
        #![trigger text.subrange(first, last)]
        {
            &&& 0 <= first <= start
            &&& stop <= last <= text.len()
            &&& line_text_from(text, 0, hit.line_number) == text.subrange(first, last)
            &&& forall|i: int| first <= i < start ==> is_white_space(#[trigger] text[i])
            &&& forall|i: int| stop <= i < last ==> is_white_space(#[trigger] text[i])
        };
    assert(line_text(text, hit.line_number) == text.subrange(first, last));
}

} // verus!
