//! The data of a session and its mathematical views.

use vstd::prelude::*;

verus! {

/// The user's verdict on one hit.
#[derive(Clone, Copy, Debug, PartialEq, Eq, Structural)]
pub enum FarState {
    Undecided,
    Take,
    Skip,
}

/// One find/replace pair: a regular expression and the literal text that
/// replaces each of its matches.
#[derive(Debug, PartialEq, Eq)]
pub struct InputPattern {
    pub find_pattern: String,
    pub replace: String,
}

/// The view of an [`InputPattern`].
pub struct InputPatternView {
    pub find_pattern: Seq<char>,
    pub replace: Seq<char>,
}

impl View for InputPattern {
    type V = InputPatternView;

    open spec fn view(&self) -> InputPatternView {
        InputPatternView { find_pattern: self.find_pattern@, replace: self.replace@ }
    }
}

impl DeepView for InputPattern {
    type V = InputPatternView;

    open spec fn deep_view(&self) -> InputPatternView {
        self@
    }
}

impl InputPattern {
    pub fn new(find_pattern: String, replace: String) -> (pattern: Self)
        ensures
            pattern.find_pattern == find_pattern,
            pattern.replace == replace,
    {
        Self { find_pattern, replace }
    }
}

impl Clone for InputPattern {
    fn clone(&self) -> (copy: Self)
        ensures
            copy == *self,
    {
        Self { find_pattern: self.find_pattern.clone(), replace: self.replace.clone() }
    }
}

/// A file as it was read when the corpus was scanned.
#[derive(Debug, PartialEq, Eq)]
pub struct FarFile {
    pub file_name: String,
    pub relative_file_name: String,
    pub content: String,
}

/// The view of a [`FarFile`].
pub struct FarFileView {
    pub file_name: Seq<char>,
    pub relative_file_name: Seq<char>,
    pub content: Seq<char>,
}

impl View for FarFile {
    type V = FarFileView;

    open spec fn view(&self) -> FarFileView {
        FarFileView {
            file_name: self.file_name@,
            relative_file_name: self.relative_file_name@,
            content: self.content@,
        }
    }
}

impl DeepView for FarFile {
    type V = FarFileView;

    open spec fn deep_view(&self) -> FarFileView {
        self@
    }
}

/// No two files of a corpus have one name.
pub open spec fn names_differ(files: Seq<FarFileView>) -> bool {
    forall|a: int, b: int|
        0 <= a < b < files.len() ==> (#[trigger] files[a]).file_name != (
        #[trigger] files[b]).file_name
}

/// The full text of the file behind the active hit, shown in place of the
/// hit list.
#[derive(Debug, PartialEq, Eq)]
pub struct Expansion {
    pub file_name: String,
    pub relative_file_name: String,
    pub content: String,
}

/// The view of an [`Expansion`].
pub struct ExpansionView {
    pub file_name: Seq<char>,
    pub relative_file_name: Seq<char>,
    pub content: Seq<char>,
}

impl View for Expansion {
    type V = ExpansionView;

    open spec fn view(&self) -> ExpansionView {
        ExpansionView {
            file_name: self.file_name@,
            relative_file_name: self.relative_file_name@,
            content: self.content@,
        }
    }
}

impl DeepView for Expansion {
    type V = ExpansionView;

    open spec fn deep_view(&self) -> ExpansionView {
        self@
    }
}

impl Clone for Expansion {
    fn clone(&self) -> (copy: Self)
        ensures
            copy == *self,
    {
        Self {
            file_name: self.file_name.clone(),
            relative_file_name: self.relative_file_name.clone(),
            content: self.content.clone(),
        }
    }
}

/// One match of one pattern in one trimmed line of one file.
#[derive(Debug, PartialEq, Eq)]
pub struct Hit {
    pub index: usize,
    pub state: FarState,
    pub full_line: String,
    pub line_before_match: String,
    pub matched_text: String,
    pub line_after_match: String,
    pub file_name: String,
    pub relative_file_name: String,
    pub line_number: usize,
    pub input_pattern: InputPattern,
}

/// The view of a [`Hit`].
pub struct HitView {
    pub index: nat,
    pub state: FarState,
    pub full_line: Seq<char>,
    pub line_before_match: Seq<char>,
    pub matched_text: Seq<char>,
    pub line_after_match: Seq<char>,
    pub file_name: Seq<char>,
    pub relative_file_name: Seq<char>,
    pub line_number: nat,
    pub input_pattern: InputPatternView,
}

impl HitView {
    /// The three fragments of a hit, joined, are the line it was found in.
    pub open spec fn fragments_join(self) -> bool {
        self.line_before_match + self.matched_text + self.line_after_match == self.full_line
    }

    /// The line as it reads once the match has been replaced.
    pub open spec fn replaced_line(self) -> Seq<char> {
        self.line_before_match + self.input_pattern.replace + self.line_after_match
    }

    /// This hit with another verdict.
    pub open spec fn with_state(self, state: FarState) -> HitView {
        HitView { state, ..self }
    }
}

impl View for Hit {
    type V = HitView;

    open spec fn view(&self) -> HitView {
        HitView {
            index: self.index as nat,
            state: self.state,
            full_line: self.full_line@,
            line_before_match: self.line_before_match@,
            matched_text: self.matched_text@,
            line_after_match: self.line_after_match@,
            file_name: self.file_name@,
            relative_file_name: self.relative_file_name@,
            line_number: self.line_number as nat,
            input_pattern: self.input_pattern@,
        }
    }
}

impl DeepView for Hit {
    type V = HitView;

    open spec fn deep_view(&self) -> HitView {
        self@
    }
}

impl Clone for Hit {
    fn clone(&self) -> (copy: Self)
        ensures
            copy == *self,
    {
        Self {
            index: self.index,
            state: self.state,
            full_line: self.full_line.clone(),
            line_before_match: self.line_before_match.clone(),
            matched_text: self.matched_text.clone(),
            line_after_match: self.line_after_match.clone(),
            file_name: self.file_name.clone(),
            relative_file_name: self.relative_file_name.clone(),
            line_number: self.line_number,
            input_pattern: self.input_pattern.clone(),
        }
    }
}

} // verus!
