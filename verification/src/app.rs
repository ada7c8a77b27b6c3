//! The state of a session and the commands that change it.

use crate::commit::{commit_plan, plan_writes, FileWrite, FileWriteView};
use crate::matcher::CompiledPattern;
use crate::model::{
    names_differ, Expansion, ExpansionView, FarFile, FarFileView, FarState, Hit, HitView,
};
use crate::pattern::{
    all_accepted, all_have_separator, arg_texts, compile_patterns, first_refused, has_separator,
    parse_patterns, patterns_of, ConfigError,
};
use crate::scan::{hits_in_corpus, scan, scan_hits};
use crate::text::{count_lines, line_count, string_of, to_chars};
use crate::viewport::{leading_rows, shown_items, skipped_items, window, Window};
use vstd::prelude::*;

verus! {

/// The size of the terminal, in columns and rows.
#[derive(Clone, Copy, Debug, PartialEq, Eq, Structural)]
pub struct Size {
    pub width: u16,
    pub height: u16,
}

/// One step of the cursor.
#[derive(Clone, Copy, Debug, PartialEq, Eq, Structural)]
pub enum CursorMove {
    Up,
    Down,
}

/// What the user can ask for.
#[derive(Clone, Copy, Debug, PartialEq, Eq, Structural)]
pub enum Command {
    Quit,
    CursorUp,
    CursorDown,
    Take,
    Skip,
    Reset,
    ToggleExpansion,
    Commit,
}

/// The key of a key event, as far as the session tells keys apart.
#[derive(Clone, Copy, Debug, PartialEq, Eq)]
pub enum KeyCode {
    Esc,
    Enter,
    Up,
    Down,
    Char(char),
    Other,
}

/// What a key event reports of the key: pressed, held or released.
#[derive(Clone, Copy, Debug, PartialEq, Eq)]
pub enum KeyEventKind {
    Press,
    Repeat,
    Release,
}

/// The modifier keys held with a key, one bit each.
#[derive(Clone, Copy, Debug, PartialEq, Eq)]
pub struct KeyModifiers {
    pub bits: u8,
}

/// The bit of the control key in [`KeyModifiers`].
pub const CONTROL: u8 = 2;

/// A key event.
#[derive(Clone, Copy, Debug, PartialEq, Eq)]
pub struct KeyEvent {
    pub code: KeyCode,
    pub modifiers: KeyModifiers,
    pub kind: KeyEventKind,
}

/// An input event.
#[derive(Clone, Copy, Debug, PartialEq, Eq)]
pub enum Event {
    Key(KeyEvent),
    Resize(u16, u16),
    Other,
}

/// The command that a key stands for, if any.
pub open spec fn key_command(key: KeyEvent) -> Option<Command> {
    match key.code {
        KeyCode::Esc => Some(Command::Quit),
        KeyCode::Enter => Some(Command::Commit),
        KeyCode::Up => Some(Command::CursorUp),
        KeyCode::Down => Some(Command::CursorDown),
        KeyCode::Char(c) => if c == 'q' {
            Some(Command::Quit)
        } else if (c == 'c' || c == 'C') && key.modifiers.bits == CONTROL {
            Some(Command::Quit)
        } else if c == 't' {
            Some(Command::Take)
        } else if c == 's' {
            Some(Command::Skip)
        } else if c == 'r' {
            Some(Command::Reset)
        } else if c == 'e' {
            Some(Command::ToggleExpansion)
        } else {
            None
        },
        KeyCode::Other => None,
    }
}

/// The command that a key stands for, if any.
pub fn command_for_key(key: KeyEvent) -> (command: Option<Command>)
    ensures
        command == key_command(key),
{
    match key.code {
        KeyCode::Esc => Some(Command::Quit),
        KeyCode::Enter => Some(Command::Commit),
        KeyCode::Up => Some(Command::CursorUp),
        KeyCode::Down => Some(Command::CursorDown),
        KeyCode::Char(c) => {
            if c == 'q' {
                Some(Command::Quit)
            } else if (c == 'c' || c == 'C') && key.modifiers.bits == CONTROL {
                Some(Command::Quit)
            } else if c == 't' {
                Some(Command::Take)
            } else if c == 's' {
                Some(Command::Skip)
            } else if c == 'r' {
                Some(Command::Reset)
            } else if c == 'e' {
                Some(Command::ToggleExpansion)
            } else {
                None
            }
        },
        KeyCode::Other => None,
    }
}

/// The position in a list that is nearest to `wanted`, where the list has
/// `count` items and the first of them has the position `first`. In an
/// empty list it is `first`.
pub open spec fn placed(wanted: nat, first: nat, count: nat) -> nat {
    if count == 0 || wanted < first {
        first
    } else if wanted < first + count {
        wanted
    } else {
        (first + count - 1) as nat
    }
}

/// The cursor after one step in a list of `count` items from position
/// `first` on: one item up or down, but never off the list. In an empty
/// list it stays where it is.
pub open spec fn stepped(cursor: nat, first: nat, count: nat, step: CursorMove) -> nat {
    if count == 0 {
        cursor
    } else {
        match step {
            CursorMove::Up => if cursor == 0 {
                placed(0, first, count)
            } else {
                placed((cursor - 1) as nat, first, count)
            },
            CursorMove::Down => placed(cursor + 1, first, count),
        }
    }
}

/// The content of the first file of the given name, or the empty text where
/// no file has that name.
pub open spec fn content_of(files: Seq<FarFileView>, file_name: Seq<char>) -> Seq<char>
    decreases files.len(),
{
    if files.len() == 0 {
        Seq::empty()
    } else if files.first().file_name == file_name {
        files.first().content
    } else {
        content_of(files.drop_first(), file_name)
    }
}

/// The expansion that shows the file of a hit.
pub open spec fn expansion_of(files: Seq<FarFileView>, hit: HitView) -> ExpansionView {
    ExpansionView {
        file_name: hit.file_name,
        relative_file_name: hit.relative_file_name,
        content: content_of(files, hit.file_name),
    }
}

/// The state of a session.
pub struct App {
    pub running: bool,
    pub cursor: usize,
    pub backup_cursor: usize,
    pub hits: Vec<Hit>,
    pub files: Vec<FarFile>,
    pub terminal_size: Size,
    pub expansion: Option<Expansion>,
}

/// The view of an [`App`].
pub struct AppView {
    pub running: bool,
    pub cursor: nat,
    pub backup_cursor: nat,
    pub hits: Seq<HitView>,
    pub files: Seq<FarFileView>,
    pub terminal_size: Size,
    pub expansion: Option<ExpansionView>,
}

impl View for App {
    type V = AppView;

    open spec fn view(&self) -> AppView {
        AppView {
            running: self.running,
            cursor: self.cursor as nat,
            backup_cursor: self.backup_cursor as nat,
            hits: self.hits.deep_view(),
            files: self.files.deep_view(),
            terminal_size: self.terminal_size,
            expansion: self.expansion.deep_view(),
        }
    }
}

impl AppView {
    /// The state in which a session starts.
    pub open spec fn initial(files: Seq<FarFileView>, hits: Seq<HitView>) -> AppView {
        AppView {
            running: true,
            cursor: 0,
            backup_cursor: 0,
            hits,
            files,
            terminal_size: Size { width: 0, height: 0 },
            expansion: None,
        }
    }

    /// The length of the list that the cursor moves in: the lines of the
    /// expanded file while a file is expanded, the hits otherwise.
    pub open spec fn item_count(self) -> nat {
        match self.expansion {
            Some(expansion) => count_lines(expansion.content, 0),
            None => self.hits.len(),
        }
    }

    /// The position of the first item of the list that the cursor moves in:
    /// the lines of the expanded file are counted from 1, as line numbers
    /// are, and the hits from 0.
    pub open spec fn first_position(self) -> nat {
        if self.expansion is Some {
            1
        } else {
            0
        }
    }

    /// The cursor is on an item, or the list is empty and the cursor is where
    /// its first item would be.
    pub open spec fn cursor_in_range(self) -> bool {
        ||| self.first_position() <= self.cursor < self.first_position() + self.item_count()
        ||| self.item_count() == 0 && self.cursor == self.first_position()
    }

    /// How many items of the list stand before the item under the cursor.
    pub open spec fn items_before_cursor(self) -> nat {
        if self.cursor >= self.first_position() {
            (self.cursor - self.first_position()) as nat
        } else {
            0
        }
    }

    /// The hit that the cursor is on, if any.
    pub open spec fn current(self) -> Option<HitView> {
        if self.cursor < self.hits.len() {
            Some(self.hits[self.cursor as int])
        } else {
            None
        }
    }

    /// The state once the session has been told to end.
    pub open spec fn stopped(self) -> AppView {
        AppView { running: false, ..self }
    }

    /// The state after one step of the cursor.
    pub open spec fn moved(self, step: CursorMove) -> AppView {
        AppView {
            cursor: stepped(self.cursor, self.first_position(), self.item_count(), step),
            ..self
        }
    }

    /// The state after a verdict on the hit under the cursor: that hit, and
    /// no other, has the verdict, and after a take or a skip the cursor has
    /// moved one step down. Where the cursor is on no hit, no hit changes.
    /// The cursor is read as a position among the hits, also while a file is
    /// expanded.
    pub open spec fn decided(self, state: FarState) -> AppView {
        let marked = if self.cursor < self.hits.len() {
            AppView {
                hits: self.hits.update(
                    self.cursor as int,
                    self.hits[self.cursor as int].with_state(state),
                ),
                ..self
            }
        } else {
            self
        };
        if state == FarState::Undecided {
            marked
        } else {
            marked.moved(CursorMove::Down)
        }
    }

    /// The state after the expansion has been toggled. Opening it saves the
    /// cursor, shows the file of the hit under the cursor and puts the cursor
    /// on the line of that file that has the line number of the hit, or on
    /// the nearest line where the file shown has no such line; where the
    /// cursor is on no hit, nothing opens. Closing it puts the saved cursor
    /// back and clears the saved one.
    pub open spec fn toggled(self) -> AppView {
        match self.expansion {
            Some(_) => AppView {
                cursor: self.backup_cursor,
                backup_cursor: 0,
                expansion: None,
                ..self
            },
            None => match self.current() {
                Some(hit) => AppView {
                    cursor: placed(
                        hit.line_number,
                        1,
                        count_lines(content_of(self.files, hit.file_name), 0),
                    ),
                    backup_cursor: self.cursor,
                    expansion: Some(expansion_of(self.files, hit)),
                    ..self
                },
                None => self,
            },
        }
    }

    /// The state after the terminal has taken a new size.
    pub open spec fn resized(self, width: u16, height: u16) -> AppView {
        AppView { terminal_size: Size { width, height }, ..self }
    }

    /// The state after a command. A commit leaves the state as it is.
    pub open spec fn executed(self, command: Command) -> AppView {
        match command {
            Command::Quit => self.stopped(),
            Command::CursorUp => self.moved(CursorMove::Up),
            Command::CursorDown => self.moved(CursorMove::Down),
            Command::Take => self.decided(FarState::Take),
            Command::Skip => self.decided(FarState::Skip),
            Command::Reset => self.decided(FarState::Undecided),
            Command::ToggleExpansion => self.toggled(),
            Command::Commit => self,
        }
    }

    /// What a command has the caller write: after a commit the new contents
    /// of the files with taken hits, after any other command nothing.
    pub open spec fn written(self, command: Command) -> Option<Seq<FileWriteView>> {
        match command {
            Command::Commit => Some(commit_plan(self.files, self.hits)),
            _ => None,
        }
    }

    /// The state after an input event: a pressed key runs its command, a
    /// resize sets the size, and nothing else has an effect.
    pub open spec fn handled(self, event: Event) -> AppView {
        match event {
            Event::Key(key) => match (key.kind, key_command(key)) {
                (KeyEventKind::Press, Some(command)) => self.executed(command),
                _ => self,
            },
            Event::Resize(width, height) => self.resized(width, height),
            Event::Other => self,
        }
    }

    /// What an input event has the caller write.
    pub open spec fn handled_writes(self, event: Event) -> Option<Seq<FileWriteView>> {
        match event {
            Event::Key(key) => match (key.kind, key_command(key)) {
                (KeyEventKind::Press, Some(command)) => self.written(command),
                _ => None,
            },
            _ => None,
        }
    }

    /// The slice of the list to show on the terminal as it is.
    pub open spec fn window(self) -> Window {
        Window {
            skip: skipped_items(
                self.terminal_size.height as int,
                self.items_before_cursor() as int,
            ) as usize,
            take: shown_items(
                self.terminal_size.height as int,
                self.items_before_cursor() as int,
                self.item_count() as int,
            ) as usize,
            leading_blank_rows: leading_rows(
                self.terminal_size.height as int,
                self.items_before_cursor() as int,
            ) as usize,
        }
    }

    /// The state is one that a session can be in: no two files have one
    /// name; every hit carries its position as its index and agrees with a
    /// file of the corpus; the cursor is in range of the list it moves in;
    /// while no file is expanded nothing is saved, and while a file is
    /// expanded the saved cursor is on a hit.
    pub open spec fn well_formed(self) -> bool {
        &&& names_differ(self.files)
        &&& hits_in_corpus(self.hits, self.files)
        &&& self.cursor_in_range()
        &&& match self.expansion {
            Some(_) => self.backup_cursor < self.hits.len(),
            None => self.backup_cursor == 0,
        }
    }
}

/// The name of a file as the session shows it: the path without the root
/// it starts with. A path that does not start with the root is shown whole.
pub open spec fn relative_name(path: Seq<char>, root: Seq<char>) -> Seq<char> {
    if root.is_prefix_of(path) {
        path.skip(root.len() as int)
    } else {
        path
    }
}

/// Some file has the given name.
pub open spec fn has_name(files: Seq<FarFileView>, file_name: Seq<char>) -> bool {
    exists|i: int| 0 <= i < files.len() && (#[trigger] files[i]).file_name == file_name
}

/// The files of a corpus, from the root that was searched and the path and
/// content of each file that was read, in that order. A path that was read
/// before is one file: the first reading stands.
pub open spec fn corpus(root: Seq<char>, sources: Seq<(Seq<char>, Seq<char>)>) -> Seq<
    FarFileView,
>
    decreases sources.len(),
{
    if sources.len() == 0 {
        Seq::empty()
    } else {
        let earlier = corpus(root, sources.drop_last());
        if has_name(earlier, sources.last().0) {
            earlier
        } else {
            earlier.push(
                FarFileView {
                    file_name: sources.last().0,
                    relative_file_name: relative_name(sources.last().0, root),
                    content: sources.last().1,
                },
            )
        }
    }
}

/// The name of a file as the session shows it.
pub fn relative_path(path: &str, root: &str) -> (name: String)
    ensures
        name@ == relative_name(path@, root@),
{
    let path_chars = to_chars(path);
    let root_chars = to_chars(root);
    if root_chars.len() > path_chars.len() {
        return path.to_owned();
    }
    let mut i: usize = 0;
    while i < root_chars.len()
        invariant
            i <= root_chars.len() <= path_chars.len(),
            path_chars@ == path@,
            root_chars@ == root@,
            forall|k: int| 0 <= k < i ==> root_chars[k] == path_chars[k],
        decreases root_chars.len() - i,
    {
        if root_chars[i] != path_chars[i] {
            return path.to_owned();
        }
        i += 1;
    }
    string_of(&path_chars, root_chars.len(), path_chars.len())
}

/// Whether some file has the given name.
fn holds_name(files: &Vec<FarFile>, file_name: &String) -> (found: bool)
    ensures
        found == has_name(files.deep_view(), file_name@),
{
    let mut i: usize = 0;
    while i < files.len()
        invariant
            i <= files.len(),
            forall|k: int| 0 <= k < i ==> (#[trigger] files.deep_view()[k]).file_name != file_name@,
        decreases files.len() - i,
    {
        if files[i].file_name == *file_name {
            assert(files.deep_view()[i as int].file_name == file_name@);
            return true;
        }
        i += 1;
    }
    false
}

/// The files of a corpus. No two of them have one name.
pub fn corpus_files(root: &str, sources: Vec<(String, String)>) -> (files: Vec<FarFile>)
    ensures
        files.deep_view() == corpus(root@, sources.deep_view()),
        names_differ(files.deep_view()),
{
    let mut files: Vec<FarFile> = Vec::new();
    let ghost all = sources.deep_view();
    let mut i: usize = 0;
    assert(all.take(0).len() == 0);
    while i < sources.len()
        invariant
            i <= sources.len(),
            all == sources.deep_view(),
            files.deep_view() == corpus(root@, all.take(i as int)),
            names_differ(files.deep_view()),
        decreases sources.len() - i,
    {
        let source = &sources[i];
        let ghost earlier = files.deep_view();
        proof {
            assert(all.take(i + 1).drop_last() == all.take(i as int));
            assert(all.take(i + 1).last() == (source.0@, source.1@));
        }
        if !holds_name(&files, &source.0) {
            let file = FarFile {
                file_name: source.0.clone(),
                relative_file_name: relative_path(source.0.as_str(), root),
                content: source.1.clone(),
            };
            files.push(file);
            proof {
                assert(files.deep_view() == earlier.push(file@));
                assert forall|a: int, b: int| 0 <= a < b < files.len() implies (
                #[trigger] files.deep_view()[a]).file_name != (
                #[trigger] files.deep_view()[b]).file_name by {
                    if b < earlier.len() {
                        assert(earlier[a].file_name != earlier[b].file_name);
                    } else {
                        assert(earlier[a].file_name != source.0@);
                    }
                }
            }
        }
        i += 1;
    }
    assert(all.take(i as int) == all);
    files
}

/// The position in a list that is nearest to `wanted`.
fn place(wanted: usize, first: usize, count: usize) -> (position: usize)
    requires
        first <= 1,
    ensures
        position == placed(wanted as nat, first as nat, count as nat),
{
    if count == 0 || wanted < first {
        first
    } else if wanted - first < count {
        wanted
    } else {
        count - 1 + first
    }
}

/// The content of the first file of the given name, or the empty text.
fn content_for(files: &Vec<FarFile>, file_name: &String) -> (content: String)
    ensures
        content@ == content_of(files.deep_view(), file_name@),
{
    let ghost all = files.deep_view();
    let mut i: usize = 0;
    proof {
        assert(all.skip(0) == all);
    }
    while i < files.len()
        invariant
            i <= files.len(),
            all == files.deep_view(),
            content_of(all.skip(i as int), file_name@) == content_of(all, file_name@),
        decreases files.len() - i,
    {
        proof {
            assert(all.skip(i as int).drop_first() == all.skip(i + 1));
        }
        if files[i].file_name == *file_name {
            return files[i].content.clone();
        }
        i += 1;
    }
    String::new()
}

impl App {
    /// Starts a session on a corpus: scans the files for the patterns and
    /// puts the cursor on the first hit.
    pub fn start(files: Vec<FarFile>, patterns: &Vec<CompiledPattern>) -> (app: App)
        ensures
            app@ == AppView::initial(
                files.deep_view(),
                scan_hits(files.deep_view(), patterns.deep_view()),
            ),
            names_differ(files.deep_view()) ==> app@.well_formed(),
    {
        let hits = scan(&files, patterns);
        App {
            running: true,
            cursor: 0,
            backup_cursor: 0,
            hits,
            files,
            terminal_size: Size { width: 0, height: 0 },
            expansion: None,
        }
    }

    /// Starts a session from the arguments of the program, the root that was
    /// searched and the path and content of each file that was read.
    ///
    /// The arguments after the first are the `find:replace` pairs. A pair
    /// without a separator is refused before anything else is looked at, and
    /// a find side that the regex crate does not accept is refused before
    /// any file is scanned, whatever the files hold. The session starts
    /// exactly where every pair has a separator and every find side is
    /// accepted.
    pub fn new(args: Vec<String>, root: &str, sources: Vec<(String, String)>) -> (r: Result<
        App,
        ConfigError,
    >)
        ensures
            match r {
                Ok(app) => {
                    let files = corpus(root@, sources.deep_view());
                    &&& all_have_separator(arg_texts(args@))
                    &&& all_accepted(patterns_of(arg_texts(args@)))
                    &&& app@ == AppView::initial(
                        files,
                        scan_hits(files, patterns_of(arg_texts(args@))),
                    )
                    &&& app@.well_formed()
                },
                Err(ConfigError::MissingSeparator { index }) => 0 <= index < args.len() - 1
                    && !has_separator(args[index + 1]@) && forall|i: int|
                    1 <= i <= index ==> has_separator(#[trigger] args[i]@),
                Err(ConfigError::InvalidRegex { index, .. }) => all_have_separator(
                    arg_texts(args@),
                ) && first_refused(patterns_of(arg_texts(args@)), index as int),
            },
    {
        let patterns = match parse_patterns(&args) {
            Ok(patterns) => patterns,
            Err(error) => {
                return Err(error);
            },
        };
        let compiled = match compile_patterns(patterns) {
            Ok(compiled) => compiled,
            Err(error) => {
                return Err(error);
            },
        };
        let files = corpus_files(root, sources);
        Ok(App::start(files, &compiled))
    }

    /// Does nothing: the session has no state that changes with time.
    pub fn tick(&self) {
    }

    /// Tells the session to end.
    pub fn quit(&mut self)
        ensures
            final(self)@ == old(self)@.stopped(),
    {
        self.running = false;
    }

    /// The length of the list that the cursor moves in.
    pub fn item_count(&self) -> (count: usize)
        ensures
            count == self@.item_count(),
    {
        match &self.expansion {
            Some(expansion) => line_count(expansion.content.as_str()),
            None => self.hits.len(),
        }
    }

    /// The position of the first item of the list that the cursor moves in.
    pub fn first_position(&self) -> (first: usize)
        ensures
            first == self@.first_position(),
    {
        if self.expansion.is_some() {
            1
        } else {
            0
        }
    }

    /// Moves the cursor one step, but never off the list.
    pub fn move_cursor(&mut self, step: CursorMove)
        ensures
            final(self)@ == old(self)@.moved(step),
            final(self)@.item_count() > 0 ==> final(self)@.cursor_in_range(),
            old(self)@.cursor_in_range() ==> final(self)@.cursor_in_range(),
    {
        let first = self.first_position();
        let count = self.item_count();
        if count == 0 {
            return ;
        }
        match step {
            CursorMove::Up => {
                let wanted = if self.cursor == 0 {
                    0
                } else {
                    self.cursor - 1
                };
                self.cursor = place(wanted, first, count);
            },
            CursorMove::Down => {
                if self.cursor == usize::MAX {
                    self.cursor = count - 1 + first;
                } else {
                    self.cursor = place(self.cursor + 1, first, count);
                }
            },
        }
    }

    /// Moves the cursor one step down.
    pub fn move_cursor_down(&mut self)
        ensures
            final(self)@ == old(self)@.moved(CursorMove::Down),
    {
        self.move_cursor(CursorMove::Down);
    }

    /// Moves the cursor one step up.
    pub fn move_cursor_up(&mut self)
        ensures
            final(self)@ == old(self)@.moved(CursorMove::Up),
    {
        self.move_cursor(CursorMove::Up);
    }

    /// The hit that the cursor is on; `None` where it is on none, as in a
    /// session without hits.
    pub fn current(&self) -> (hit: Option<&Hit>)
        ensures
            hit.deep_view() == self@.current(),
            hit matches Some(h) ==> *h == self.hits[self.cursor as int],
    {
        if self.cursor < self.hits.len() {
            Some(&self.hits[self.cursor])
        } else {
            None
        }
    }

    /// Gives the hit under the cursor a verdict and, after a take or a skip,
    /// moves the cursor one step down.
    pub fn decide(&mut self, state: FarState)
        ensures
            final(self)@ == old(self)@.decided(state),
    {
        if self.cursor < self.hits.len() {
            let mut hit = self.hits[self.cursor].clone();
            hit.state = state;
            self.hits.set(self.cursor, hit);
            proof {
                assert(self.hits.deep_view() =~= old(self).hits.deep_view().update(
                    self.cursor as int,
                    old(self).hits.deep_view()[self.cursor as int].with_state(state),
                ));
            }
        }
        match state {
            FarState::Undecided => {},
            _ => {
                self.move_cursor(CursorMove::Down);
            },
        }
    }

    /// Opens the expansion on the file of the hit under the cursor, or
    /// closes it where it is open.
    pub fn toggle_expansion(&mut self)
        ensures
            final(self)@ == old(self)@.toggled(),
    {
        if self.expansion.is_some() {
            self.cursor = self.backup_cursor;
            self.backup_cursor = 0;
            self.expansion = None;
        } else if self.cursor < self.hits.len() {
            let hit = &self.hits[self.cursor];
            let expansion = Expansion {
                file_name: hit.file_name.clone(),
                relative_file_name: hit.relative_file_name.clone(),
                content: content_for(&self.files, &hit.file_name),
            };
            let line = place(hit.line_number, 1, line_count(expansion.content.as_str()));
            self.backup_cursor = self.cursor;
            self.cursor = line;
            self.expansion = Some(expansion);
        }
    }

    /// What a commit writes: the new content of each file with a taken hit.
    /// The session itself stays as it is, so a second commit writes the same.
    pub fn apply_changes(&self) -> (writes: Vec<FileWrite>)
        ensures
            writes.deep_view() == commit_plan(self@.files, self@.hits),
    {
        plan_writes(&self.files, &self.hits)
    }

    /// Runs a command, and hands back what it has the caller write.
    pub fn execute(&mut self, command: Command) -> (writes: Option<Vec<FileWrite>>)
        ensures
            final(self)@ == old(self)@.executed(command),
            writes.deep_view() == old(self)@.written(command),
    {
        match command {
            Command::Quit => {
                self.quit();
                None
            },
            Command::CursorUp => {
                self.move_cursor(CursorMove::Up);
                None
            },
            Command::CursorDown => {
                self.move_cursor(CursorMove::Down);
                None
            },
            Command::Take => {
                self.decide(FarState::Take);
                None
            },
            Command::Skip => {
                self.decide(FarState::Skip);
                None
            },
            Command::Reset => {
                self.decide(FarState::Undecided);
                None
            },
            Command::ToggleExpansion => {
                self.toggle_expansion();
                None
            },
            Command::Commit => Some(self.apply_changes()),
        }
    }

    /// Runs the command that a key stands for; a key that stands for none
    /// has no effect.
    pub fn on_key_event(&mut self, key_event: KeyEvent) -> (writes: Option<Vec<FileWrite>>)
        ensures
            match key_command(key_event) {
                Some(command) => final(self)@ == old(self)@.executed(command)
                    && writes.deep_view() == old(self)@.written(command),
                None => final(self)@ == old(self)@ && writes is None,
            },
    {
        match command_for_key(key_event) {
            Some(command) => self.execute(command),
            None => None,
        }
    }

    /// Takes one input event: a pressed key runs its command, a resize sets
    /// the size of the terminal, and any other event is passed over.
    pub fn handle_events(&mut self, event: Event) -> (writes: Option<Vec<FileWrite>>)
        ensures
            final(self)@ == old(self)@.handled(event),
            writes.deep_view() == old(self)@.handled_writes(event),
    {
        match event {
            Event::Key(key) => {
                match key.kind {
                    KeyEventKind::Press => self.on_key_event(key),
                    _ => None,
                }
            },
            Event::Resize(width, height) => {
                self.terminal_size = Size { width, height };
                None
            },
            Event::Other => None,
        }
    }

    /// How many items of the list stand before the item under the cursor.
    pub fn items_before_cursor(&self) -> (before: usize)
        ensures
            before == self@.items_before_cursor(),
    {
        let first = self.first_position();
        if self.cursor >= first {
            self.cursor - first
        } else {
            0
        }
    }

    /// The slice of the list to show on the terminal as it is.
    pub fn window(&self) -> (w: Window)
        ensures
            w == self@.window(),
            w.leading_blank_rows == leading_rows(
                self.terminal_size.height as int,
                self@.items_before_cursor() as int,
            ),
            w.skip == skipped_items(
                self.terminal_size.height as int,
                self@.items_before_cursor() as int,
            ),
            w.take == shown_items(
                self.terminal_size.height as int,
                self@.items_before_cursor() as int,
                self@.item_count() as int,
            ),
            self@.item_count() <= usize::MAX,
    {
        window(self.terminal_size.height as usize, self.items_before_cursor(), self.item_count())
    }
}

impl AppView {
    /// The state after a sequence of cursor steps, made in order.
    pub open spec fn moved_all(self, steps: Seq<CursorMove>) -> AppView
        decreases steps.len(),
    {
        if steps.len() == 0 {
            self
        } else {
            self.moved_all(steps.drop_last()).moved(steps.last())
        }
    }

    /// The state after a sequence of commands, run in order.
    pub open spec fn executed_all(self, commands: Seq<Command>) -> AppView
        decreases commands.len(),
    {
        if commands.len() == 0 {
            self
        } else {
            self.executed_all(commands.drop_last()).executed(commands.last())
        }
    }
}

} // verus!
