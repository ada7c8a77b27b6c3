//! The find/replace pairs of a session: reading them from the arguments and
//! compiling them.

use crate::matcher::{regex_accepts, CompiledPattern};
use crate::model::{InputPattern, InputPatternView};
use crate::text::{find_char, index_of, lemma_index_of, string_of, to_chars};
use vstd::prelude::*;

verus! {

/// Why a session cannot start.
#[derive(Debug)]
pub enum ConfigError {
    /// The pair at `index` holds no `:` between its two sides.
    MissingSeparator { index: usize },
    /// The find side of the pair at `index` is no regular expression.
    InvalidRegex { index: usize, error: regex::Error },
}

/// An argument holds the `:` that parts its find side from its replace side.
pub open spec fn has_separator(arg: Seq<char>) -> bool {
    index_of(arg, ':', 0) < arg.len()
}

/// The pair that an argument writes: the find side is what stands before the
/// first `:`, the replace side is what stands between it and the next `:`,
/// or the end of the argument.
pub open spec fn pattern_of(arg: Seq<char>) -> InputPatternView {
    let first = index_of(arg, ':', 0);
    InputPatternView {
        find_pattern: arg.subrange(0, first),
        replace: arg.subrange(first + 1, index_of(arg, ':', first + 1)),
    }
}

/// To hold a separator is to hold a `:` somewhere.
pub proof fn lemma_has_separator(arg: Seq<char>)
    ensures
        has_separator(arg) <==> arg.contains(':'),
{
    lemma_index_of(arg, ':', 0);
}

/// Reads one `find:replace` argument; `None` where it holds no `:`.
pub fn parse_pattern(arg: &str) -> (pattern: Option<InputPattern>)
    ensures
        pattern is Some <==> has_separator(arg@),
        pattern matches Some(p) ==> p@ == pattern_of(arg@),
{
    let chars = to_chars(arg);
    let first = find_char(&chars, ':', 0);
    if first >= chars.len() {
        return None;
    }
    let second = find_char(&chars, ':', first + 1);
    Some(InputPattern::new(string_of(&chars, 0, first), string_of(&chars, first + 1, second)))
}

/// The pairs that an argument list writes. The first argument is the name
/// the program was started under, and is passed over.
pub open spec fn patterns_of(args: Seq<Seq<char>>) -> Seq<InputPatternView> {
    Seq::new(
        if args.len() >= 1 {
            (args.len() - 1) as nat
        } else {
            0
        },
        |i: int| pattern_of(args[i + 1]),
    )
}

/// Every argument after the first holds a separator.
pub open spec fn all_have_separator(args: Seq<Seq<char>>) -> bool {
    forall|i: int| 1 <= i < args.len() ==> has_separator(#[trigger] args[i])
}

/// The texts of an argument list.
pub open spec fn arg_texts(args: Seq<String>) -> Seq<Seq<char>> {
    Seq::new(args.len(), |i: int| args[i]@)
}

/// Reads the pairs from the argument list.
///
/// The list is refused where a pair has no separator; the error names the
/// first such pair.
pub fn parse_patterns(args: &Vec<String>) -> (r: Result<Vec<InputPattern>, ConfigError>)
    ensures
        match r {
            Ok(patterns) => all_have_separator(arg_texts(args@)) && patterns.deep_view()
                == patterns_of(arg_texts(args@)),
            Err(ConfigError::MissingSeparator { index }) => 0 <= index < args.len() - 1
                && !has_separator(args[index + 1]@) && forall|i: int|
                1 <= i <= index ==> has_separator(#[trigger] args[i]@),
            Err(ConfigError::InvalidRegex { .. }) => false,
        },
{
    let mut patterns: Vec<InputPattern> = Vec::new();
    if args.len() == 0 {
        return Ok(patterns);
    }
    let mut i: usize = 1;
    while i < args.len()
        invariant
            1 <= i <= args.len(),
            patterns.len() == i - 1,
            forall|k: int| 1 <= k < i ==> has_separator(#[trigger] args[k]@),
            forall|k: int| 0 <= k < patterns.len() ==> (#[trigger] patterns[k])@ == pattern_of(args[k + 1]@),
        decreases args.len() - i,
    {
        match parse_pattern(args[i].as_str()) {
            Some(pattern) => {
                patterns.push(pattern);
            },
            None => {
                return Err(ConfigError::MissingSeparator { index: i - 1 });
            },
        }
        i += 1;
    }
    Ok(patterns)
}

/// The regex crate accepts the find side of every pair.
pub open spec fn all_accepted(patterns: Seq<InputPatternView>) -> bool {
    forall|i: int| 0 <= i < patterns.len() ==> regex_accepts((#[trigger] patterns[i]).find_pattern)
}

/// The pair at `index` is the first whose find side the regex crate
/// refuses.
pub open spec fn first_refused(patterns: Seq<InputPatternView>, index: int) -> bool {
    &&& 0 <= index < patterns.len()
    &&& !regex_accepts(patterns[index].find_pattern)
    &&& forall|i: int| 0 <= i < index ==> regex_accepts((#[trigger] patterns[i]).find_pattern)
}

/// Compiles the pairs, in order.
///
/// The pairs compile exactly where the regex crate accepts the find side of
/// each. Where it refuses one, the error names the first pair it refused and
/// carries what the crate reported.
pub fn compile_patterns(patterns: Vec<InputPattern>) -> (r: Result<
    Vec<CompiledPattern>,
    ConfigError,
>)
    ensures
        match r {
            Ok(compiled) => all_accepted(patterns.deep_view()) && compiled.deep_view()
                == patterns.deep_view(),
            Err(ConfigError::InvalidRegex { index, .. }) => first_refused(
                patterns.deep_view(),
                index as int,
            ),
            Err(ConfigError::MissingSeparator { .. }) => false,
        },
{
    let mut compiled: Vec<CompiledPattern> = Vec::new();
    let mut i: usize = 0;
    while i < patterns.len()
        invariant
            i <= patterns.len(),
            compiled.len() == i,
            forall|k: int| 0 <= k < i ==> (#[trigger] compiled[k])@ == patterns[k]@,
            forall|k: int| 0 <= k < i ==> regex_accepts((#[trigger] patterns[k])@.find_pattern),
        decreases patterns.len() - i,
    {
        match CompiledPattern::compile(patterns[i].clone()) {
            Ok(pattern) => {
                compiled.push(pattern);
            },
            Err(error) => {
                return Err(ConfigError::InvalidRegex { index: i, error });
            },
        }
        i += 1;
    }
    Ok(compiled)
}

} // verus!
