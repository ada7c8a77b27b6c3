//! Text as sequences of characters: searching, lines, trimming and decimal
//! numerals.

use vstd::prelude::*;

verus! {

/// `String::push` of the standard library: it appends the character to the
/// end of the string and leaves the characters before it as they were.
pub assume_specification[ String::push ](s: &mut String, ch: char)
    ensures
        final(s)@ == old(s)@.push(ch),
;

/// The characters with the Unicode property `White_Space`.
pub open spec fn is_white_space(c: char) -> bool {
    let u = c as u32;
    ||| 0x09 <= u <= 0x0D
    ||| u == 0x20
    ||| u == 0x85
    ||| u == 0xA0
    ||| u == 0x1680
    ||| 0x2000 <= u <= 0x200A
    ||| u == 0x2028
    ||| u == 0x2029
    ||| u == 0x202F
    ||| u == 0x205F
    ||| u == 0x3000
}

/// Whether `c` is white space.
pub fn is_whitespace(c: char) -> (b: bool)
    ensures
        b == is_white_space(c),
{
    let u: u32 = c as u32;
    (0x09 <= u && u <= 0x0D) || u == 0x20 || u == 0x85 || u == 0xA0 || u == 0x1680 || (0x2000 <= u
        && u <= 0x200A) || u == 0x2028 || u == 0x2029 || u == 0x202F || u == 0x205F || u == 0x3000
}

/// The characters of `s`, in order.
pub fn to_chars(s: &str) -> (chars: Vec<char>)
    ensures
        chars@ == s@,
{
    let mut chars: Vec<char> = Vec::new();
    for c in it: s.chars()
        invariant
            it.seq() == s@,
            chars@ == it.seq().take(it.index()),
    {
        chars.push(c);
    }
    chars
}

/// Appends `chars[from..to]` to `out`.
pub fn push_chars(out: &mut String, chars: &Vec<char>, from: usize, to: usize)
    requires
        from <= to <= chars.len(),
    ensures
        final(out)@ == old(out)@ + chars@.subrange(from as int, to as int),
{
    let mut i: usize = from;
    while i < to
        invariant
            from <= i <= to <= chars.len(),
            out@ == old(out)@ + chars@.subrange(from as int, i as int),
        decreases to - i,
    {
        out.push(chars[i]);
        i += 1;
    }
}

/// The string that holds `chars[from..to]`.
pub fn string_of(chars: &Vec<char>, from: usize, to: usize) -> (s: String)
    requires
        from <= to <= chars.len(),
    ensures
        s@ == chars@.subrange(from as int, to as int),
{
    let mut s = String::new();
    push_chars(&mut s, chars, from, to);
    s
}

/// The first position at or after `from` where `s` holds `c`, or the length
/// of `s` when there is none.
pub open spec fn index_of(s: Seq<char>, c: char, from: int) -> int
    decreases s.len() - from,
{
    if from < 0 || from >= s.len() {
        s.len() as int
    } else if s[from] == c {
        from
    } else {
        index_of(s, c, from + 1)
    }
}

/// `index_of` finds the first occurrence: nothing before it is `c`.
pub proof fn lemma_index_of(s: Seq<char>, c: char, from: int)
    requires
        0 <= from <= s.len(),
    ensures
        from <= index_of(s, c, from) <= s.len(),
        index_of(s, c, from) < s.len() ==> s[index_of(s, c, from)] == c,
        forall|i: int| from <= i < index_of(s, c, from) ==> s[i] != c,
    decreases s.len() - from,
{
    if from < s.len() && s[from] != c {
        lemma_index_of(s, c, from + 1);
    }
}

/// Finds the first `c` in `chars` at or after `from`.
pub fn find_char(chars: &Vec<char>, c: char, from: usize) -> (at: usize)
    requires
        from <= chars.len(),
    ensures
        at == index_of(chars@, c, from as int),
        from <= at <= chars.len(),
{
    let mut i: usize = from;
    while i < chars.len() && chars[i] != c
        invariant
            from <= i <= chars.len(),
            index_of(chars@, c, i as int) == index_of(chars@, c, from as int),
        decreases chars.len() - i,
    {
        i += 1;
    }
    i
}

/// Where the line that starts at `from` ends: at its line feed, or at the end
/// of the text.
pub open spec fn line_end(s: Seq<char>, from: int) -> int {
    index_of(s, '\n', from)
}

/// The number of lines of `s` from the line that starts at `from` on. A line
/// ends at its line feed or at the end of the text, and a line feed at the
/// very end opens no further line.
pub open spec fn count_lines(s: Seq<char>, from: int) -> nat
    decreases s.len() - from,
    via count_lines_terminates
{
    if from < 0 || from >= s.len() {
        0
    } else if line_end(s, from) < s.len() {
        1 + count_lines(s, line_end(s, from) + 1)
    } else {
        1
    }
}

#[via_fn]
proof fn count_lines_terminates(s: Seq<char>, from: int) {
    if 0 <= from < s.len() {
        lemma_index_of(s, '\n', from);
    }
}

/// The number of lines of `s`.
pub fn line_count(s: &str) -> (count: usize)
    ensures
        count == count_lines(s@, 0),
{
    let chars = to_chars(s);
    let n = chars.len();
    let mut pos: usize = 0;
    let mut count: usize = 0;
    while pos < n
        invariant
            chars@ == s@,
            n == chars.len(),
            pos <= n,
            count <= pos,
            count + count_lines(s@, pos as int) == count_lines(s@, 0),
        decreases n - pos,
    {
        let end = find_char(&chars, '\n', pos);
        count += 1;
        if end < n {
            pos = end + 1;
        } else {
            pos = n;
        }
    }
    count
}

/// The first position in `from..to` that holds no white space, or `to`.
pub open spec fn trim_start(s: Seq<char>, from: int, to: int) -> int
    decreases to - from,
{
    if from >= to {
        to
    } else if is_white_space(s[from]) {
        trim_start(s, from + 1, to)
    } else {
        from
    }
}

/// The end of `from..to` once the white space at its end is cut off.
pub open spec fn trim_end(s: Seq<char>, from: int, to: int) -> int
    decreases to - from,
{
    if to <= from {
        from
    } else if is_white_space(s[to - 1]) {
        trim_end(s, from, to - 1)
    } else {
        to
    }
}

/// What `trim_start` cuts off is white space, and what follows is not.
pub proof fn lemma_trim_start(s: Seq<char>, from: int, to: int)
    requires
        0 <= from <= to <= s.len(),
    ensures
        from <= trim_start(s, from, to) <= to,
        forall|i: int| from <= i < trim_start(s, from, to) ==> is_white_space(s[i]),
        trim_start(s, from, to) < to ==> !is_white_space(s[trim_start(s, from, to)]),
    decreases to - from,
{
    if from < to && is_white_space(s[from]) {
        lemma_trim_start(s, from + 1, to);
    }
}

/// What `trim_end` cuts off is white space, and what precedes is not.
pub proof fn lemma_trim_end(s: Seq<char>, from: int, to: int)
    requires
        0 <= from <= to <= s.len(),
    ensures
        from <= trim_end(s, from, to) <= to,
        forall|i: int| trim_end(s, from, to) <= i < to ==> is_white_space(s[i]),
        from < trim_end(s, from, to) ==> !is_white_space(s[trim_end(s, from, to) - 1]),
    decreases to - from,
{
    if from < to && is_white_space(s[to - 1]) {
        lemma_trim_end(s, from, to - 1);
    }
}

/// Skips the white space at the start of `chars[from..to]`.
pub fn skip_white_space(chars: &Vec<char>, from: usize, to: usize) -> (at: usize)
    requires
        from <= to <= chars.len(),
    ensures
        at == trim_start(chars@, from as int, to as int),
        from <= at <= to,
{
    let mut i: usize = from;
    while i < to && is_whitespace(chars[i])
        invariant
            from <= i <= to <= chars.len(),
            trim_start(chars@, i as int, to as int) == trim_start(chars@, from as int, to as int),
        decreases to - i,
    {
        i += 1;
    }
    i
}

/// Drops the white space at the end of `chars[from..to]`.
pub fn drop_white_space(chars: &Vec<char>, from: usize, to: usize) -> (at: usize)
    requires
        from <= to <= chars.len(),
    ensures
        at == trim_end(chars@, from as int, to as int),
        from <= at <= to,
{
    let mut i: usize = to;
    while i > from && is_whitespace(chars[i - 1])
        invariant
            from <= i <= to <= chars.len(),
            trim_end(chars@, from as int, i as int) == trim_end(chars@, from as int, to as int),
        decreases i - from,
    {
        i -= 1;
    }
    i
}

/// The character that writes the digit `d`.
pub open spec fn digit_char(d: nat) -> char {
    ((48 + d) as u8) as char
}

/// The decimal numeral of `n`, without leading zeros.
pub open spec fn decimal(n: nat) -> Seq<char>
    decreases n,
{
    if n < 10 {
        seq![digit_char(n)]
    } else {
        decimal(n / 10).push(digit_char(n % 10))
    }
}

fn digit(d: usize) -> (c: char)
    requires
        d < 10,
    ensures
        c == digit_char(d as nat),
{
    (48u8 + d as u8) as char
}

/// Appends the decimal numeral of `n` to `out`.
pub fn push_decimal(out: &mut String, n: usize)
    ensures
        final(out)@ == old(out)@ + decimal(n as nat),
    decreases n,
{
    if n >= 10 {
        push_decimal(out, n / 10);
    }
    out.push(digit(n % 10));
}

} // verus!
