//! Regular expressions: compiling a pattern and finding its matches in a
//! line, by the `regex` crate.

use crate::model::{InputPattern, InputPatternView};
use regex::Regex;
use vstd::prelude::*;
use vstd::utf8::*;

verus! {

/// `regex::Regex`, a compiled regular expression. Nothing inside it is
/// seen here.
#[verifier::external_type_specification]
#[verifier::external_body]
pub struct ExRegex(regex::Regex);

/// `regex::Error`, what `Regex::new` reports of a pattern that it refuses.
/// Nothing inside it is seen here.
#[verifier::external_type_specification]
#[verifier::external_body]
pub struct ExRegexError(regex::Error);

/// The pattern text that `Regex::new` compiled `re` from, which is the text
/// that `Regex::as_str` gives back; `None` for an expression that was built
/// with other options than those of `Regex::new`.
pub uninterp spec fn regex_source(re: Regex) -> Option<Seq<char>>;

/// The matches, in the order in which `Regex::find_iter` yields them, of the
/// expression that `Regex::new` compiles from `pattern`, in `haystack`: each
/// as the byte offsets of its start and its end in the UTF-8 encoding of
/// `haystack`.
pub uninterp spec fn regex_spans(pattern: Seq<char>, haystack: Seq<char>) -> Seq<(usize, usize)>;

/// Whether `Regex::new` accepts `pattern`: whether the text is a regular
/// expression in the syntax of the regex crate that compiles within the
/// limits that `Regex::new` sets.
pub uninterp spec fn regex_accepts(pattern: Seq<char>) -> bool;

/// `Regex::new` of the regex crate. Whether it returns an expression or an
/// error depends on the text alone, and an expression that it returns was
/// compiled from the very text it was given.
pub assume_specification[ Regex::new ](re: &str) -> (r: Result<Regex, regex::Error>)
    ensures
        r is Ok <==> regex_accepts(re@),
        r matches Ok(compiled) ==> regex_source(compiled) == Some(re@),
;

/// A span lies in `text`: its offsets are in order, within the encoding of
/// `text`, and neither stands inside the encoding of a character.
pub open spec fn span_fits(text: Seq<char>, span: (usize, usize)) -> bool {
    let bytes = encode_utf8(text);
    &&& span.0 <= span.1 <= bytes.len()
    &&& is_char_boundary(bytes, span.0 as int)
    &&& is_char_boundary(bytes, span.1 as int)
}

/// Successive spans do not overlap: each ends where the next one starts, or
/// before.
pub open spec fn spans_apart(spans: Seq<(usize, usize)>) -> bool {
    forall|i: int, j: int|
        0 <= i < j < spans.len() ==> (#[trigger] spans[i]).1 <= (#[trigger] spans[j]).0
}

/// `Regex::find_iter` of the regex crate, with each `Match` it yields given as
/// the pair of `Match::start` and `Match::end`. The matches depend on the
/// pattern and the haystack alone. The crate documents that the start of a
/// match is not after its end, that both fall on character boundaries of the
/// haystack, and that the matches come one after the other without
/// overlapping.
#[verifier::external_body]
fn find_iter_spans(re: &Regex, haystack: &str) -> (spans: Vec<(usize, usize)>)
    requires
        regex_source(*re) is Some,
    ensures
        spans@ == regex_spans(regex_source(*re)->0, haystack@),
        forall|i: int| 0 <= i < spans.len() ==> span_fits(haystack@, #[trigger] spans[i]),
        spans_apart(spans@),
{
    re.find_iter(haystack).map(|m| (m.start(), m.end())).collect()
}

/// A find/replace pair together with its compiled expression.
pub struct CompiledPattern {
    pattern: InputPattern,
    regex: Regex,
}

impl View for CompiledPattern {
    type V = InputPatternView;

    closed spec fn view(&self) -> InputPatternView {
        self.pattern@
    }
}

impl DeepView for CompiledPattern {
    type V = InputPatternView;

    open spec fn deep_view(&self) -> InputPatternView {
        self@
    }
}

impl CompiledPattern {
    #[verifier::type_invariant]
    spec fn compiled_from_pattern(self) -> bool {
        regex_source(self.regex) == Some(self.pattern.find_pattern@)
    }

    /// Compiles the find side of `pattern`. It succeeds exactly where the
    /// regex crate accepts that text; where it does not, its error is handed
    /// on.
    pub fn compile(pattern: InputPattern) -> (r: Result<CompiledPattern, regex::Error>)
        ensures
            r is Ok <==> regex_accepts(pattern@.find_pattern),
            r matches Ok(compiled) ==> compiled@ == pattern@,
    {
        let outcome = Regex::new(pattern.find_pattern.as_str());
        CompiledPattern::from_outcome(pattern, outcome)
    }

    /// The compiled expression.
    pub closed spec fn expression(&self) -> Regex {
        self.regex
    }

    /// Pairs `pattern` with what the regex crate made of its find side: the
    /// compiled expression where it accepted the text, its error where it
    /// refused it.
    pub fn from_outcome(pattern: InputPattern, outcome: Result<Regex, regex::Error>) -> (r: Result<
        CompiledPattern,
        regex::Error,
    >)
        requires
            outcome matches Ok(regex) ==> regex_source(regex) == Some(pattern.find_pattern@),
        ensures
            match outcome {
                Ok(regex) => r matches Ok(compiled) && compiled@ == pattern@
                    && compiled.expression() == regex,
                Err(error) => r matches Err(reported) && reported == error,
            },
    {
        match outcome {
            Ok(regex) => Ok(CompiledPattern { pattern, regex }),
            Err(error) => Err(error),
        }
    }

    /// The pair this was compiled from.
    pub fn pattern(&self) -> (pattern: &InputPattern)
        ensures
            pattern@ == self@,
    {
        &self.pattern
    }

    /// The matches of the pattern in `line`, from left to right: each fits
    /// the line, and no two of them overlap.
    pub fn find_spans(&self, line: &str) -> (spans: Vec<(usize, usize)>)
        ensures
            spans@ == regex_spans(self@.find_pattern, line@),
            forall|i: int| 0 <= i < spans.len() ==> span_fits(line@, #[trigger] spans[i]),
            spans_apart(spans@),
    {
        proof {
            use_type_invariant(self);
        }
        find_iter_spans(&self.regex, line)
    }
}

} // verus!
