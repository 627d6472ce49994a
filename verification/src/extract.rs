//! Background-color extraction from the lines of a theme file.
//!
//! Comment lines (those starting with `#`) are skipped; the first of the
//! remaining lines that mentions `background` is split on `=`, and the
//! trimmed right-hand side is read as a color literal. The literal's first
//! two characters are a prefix (a quote and the `#` of the hex notation),
//! the six characters after them are the red, green and blue channels;
//! anything beyond them (an alpha channel) is ignored.

use crate::color::Color;
use vstd::prelude::*;
use vstd::string::*;

verus! {

/// The single extraction error: no usable background line, no `=`
/// delimiter on it, or a malformed color literal. Channel-level detail
/// is deliberately not preserved.
#[derive(Clone, Copy, PartialEq, Eq, Structural, Debug)]
pub struct ParseError;

/// The characters `0`-`9`, `a`-`f` and `A`-`F`.
pub open spec fn is_hex_digit(ch: char) -> bool {
    ||| 48 <= ch as int && ch as int <= 57
    ||| 97 <= ch as int && ch as int <= 102
    ||| 65 <= ch as int && ch as int <= 70
}

/// The numeric value of a hexadecimal digit.
pub open spec fn hex_digit_value(ch: char) -> int
    recommends
        is_hex_digit(ch),
{
    if 48 <= ch as int && ch as int <= 57 {
        ch as int - 48
    } else if 97 <= ch as int && ch as int <= 102 {
        ch as int - 87
    } else {
        ch as int - 55
    }
}

/// `needle` occurs in `hay` starting at position `i`.
pub open spec fn matches_at(hay: Seq<char>, needle: Seq<char>, i: int) -> bool {
    &&& 0 <= i
    &&& i + needle.len() <= hay.len()
    &&& hay.subrange(i, i + needle.len() as int) == needle
}

/// `needle` occurs somewhere in `hay`.
pub open spec fn seq_contains(hay: Seq<char>, needle: Seq<char>) -> bool {
    exists|i: int| matches_at(hay, needle, i)
}

/// Whether `needle` occurs at position `i` of `hay`.
fn match_at(hay: &str, needle: &str, i: usize, hay_len: usize, needle_len: usize) -> (r: bool)
    requires
        hay_len == hay@.len(),
        needle_len == needle@.len(),
        i + needle_len <= hay_len,
    ensures
        r == matches_at(hay@, needle@, i as int),
{
    let mut j: usize = 0;
    while j < needle_len
        invariant
            j <= needle_len,
            hay_len == hay@.len(),
            needle_len == needle@.len(),
            i + needle_len <= hay_len,
            forall|k: int| 0 <= k < j ==> hay@[i + k] == needle@[k],
        decreases needle_len - j,
    {
        if hay.get_char(i + j) != needle.get_char(j) {
            proof {
                if matches_at(hay@, needle@, i as int) {
                    assert(hay@.subrange(i as int, i + needle@.len() as int)[j as int]
                        == needle@[j as int]);
                }
            }
            return false;
        }
        j += 1;
    }
    proof {
        assert(hay@.subrange(i as int, i + needle@.len() as int) =~= needle@);
    }
    true
}

/// Whether `needle` occurs anywhere in `hay`: the substring test behind
/// both the background-line search and the import-line search.
pub fn str_contains(hay: &str, needle: &str) -> (r: bool)
    ensures
        r == seq_contains(hay@, needle@),
{
    let hay_len = hay.unicode_len();
    let needle_len = needle.unicode_len();
    if needle_len > hay_len {
        return false;
    }
    let mut i: usize = 0;
    while i <= hay_len - needle_len
        invariant
            needle_len <= hay_len,
            hay_len == hay@.len(),
            needle_len == needle@.len(),
            i <= hay_len - needle_len + 1,
            forall|k: int| 0 <= k < i ==> !matches_at(hay@, needle@, k),
        decreases hay_len - needle_len - i + 1,
    {
        if match_at(hay, needle, i, hay_len, needle_len) {
            return true;
        }
        proof {
            if needle@.len() == 0 {
                assert(hay@.subrange(i as int, i as int) =~= needle@);
            }
        }
        i += 1;
    }
    proof {
        if seq_contains(hay@, needle@) {
            let k = choose|k: int| matches_at(hay@, needle@, k);
            assert(k + needle@.len() <= hay@.len());
            assert(!matches_at(hay@, needle@, k));
        }
    }
    false
}

/// Whitespace, as `trimmed` strips it.
pub open spec fn is_space(ch: char) -> bool {
    ch == ' ' || ch == '\t' || ch == '\n' || ch == '\r' || ch == '\u{b}' || ch == '\u{c}'
}

/// `s` without its leading whitespace.
pub open spec fn trim_front(s: Seq<char>) -> Seq<char>
    decreases s.len(),
{
    if s.len() > 0 && is_space(s[0]) {
        trim_front(s.drop_first())
    } else {
        s
    }
}

/// `s` without its trailing whitespace.
pub open spec fn trim_back(s: Seq<char>) -> Seq<char>
    decreases s.len(),
{
    if s.len() > 0 && is_space(s.last()) {
        trim_back(s.drop_last())
    } else {
        s
    }
}

/// `s` without leading and trailing whitespace.
pub open spec fn trimmed(s: Seq<char>) -> Seq<char> {
    trim_back(trim_front(s))
}

proof fn lemma_trim_front_at(s: Seq<char>, k: int)
    requires
        0 <= k <= s.len(),
        forall|i: int| 0 <= i < k ==> is_space(s[i]),
        k == s.len() || !is_space(s[k]),
    ensures
        trim_front(s) == s.subrange(k, s.len() as int),
    decreases k,
{
    if k == 0 {
        assert(s.subrange(0, s.len() as int) =~= s);
    } else {
        let t = s.drop_first();
        lemma_trim_front_at(t, k - 1);
        assert(t.subrange(k - 1, t.len() as int) =~= s.subrange(k, s.len() as int));
    }
}

proof fn lemma_trim_back_at(s: Seq<char>, k: int)
    requires
        0 <= k <= s.len(),
        forall|i: int| k <= i < s.len() ==> is_space(s[i]),
        k == 0 || !is_space(s[k - 1]),
    ensures
        trim_back(s) == s.subrange(0, k),
    decreases s.len() - k,
{
    if k == s.len() {
        assert(s.subrange(0, s.len() as int) =~= s);
    } else {
        let t = s.drop_last();
        lemma_trim_back_at(t, k);
        assert(t.subrange(0, k) =~= s.subrange(0, k));
    }
}

/// Whether `c` is whitespace.
fn is_space_char(c: char) -> (r: bool)
    ensures
        r == is_space(c),
{
    c == ' ' || c == '\t' || c == '\n' || c == '\r' || c == '\u{b}' || c == '\u{c}'
}

/// `s` without leading and trailing whitespace.
pub fn trim_str<'a>(s: &'a str) -> (r: &'a str)
    ensures
        r@ == trimmed(s@),
{
    let n = s.unicode_len();
    let mut start: usize = 0;
    while start < n && is_space_char(s.get_char(start))
        invariant
            start <= n,
            n == s@.len(),
            forall|i: int| 0 <= i < start ==> is_space(s@[i]),
        decreases n - start,
    {
        start += 1;
    }
    let mut end: usize = n;
    while end > start && is_space_char(s.get_char(end - 1))
        invariant
            start <= end <= n,
            n == s@.len(),
            forall|i: int| 0 <= i < start ==> is_space(s@[i]),
            forall|i: int| end <= i < n ==> is_space(s@[i]),
        decreases end,
    {
        end -= 1;
    }
    let r = s.substring_char(start, end);
    proof {
        lemma_trim_front_at(s@, start as int);
        let mid = s@.subrange(start as int, n as int);
        lemma_trim_back_at(mid, end - start);
        assert(mid.subrange(0, end - start) =~= s@.subrange(start as int, end as int));
    }
    r
}

/// The position of the first `ch` in `s`, or `s.len()` when `s` has none.
pub open spec fn index_of_char(s: Seq<char>, ch: char) -> nat
    decreases s.len(),
{
    if s.len() == 0 {
        0
    } else if s[0] == ch {
        0
    } else {
        1 + index_of_char(s.drop_first(), ch)
    }
}

proof fn lemma_index_of_char_at(s: Seq<char>, ch: char, k: int)
    requires
        0 <= k <= s.len(),
        forall|i: int| 0 <= i < k ==> s[i] != ch,
        k == s.len() || s[k] == ch,
    ensures
        index_of_char(s, ch) == k,
    decreases k,
{
    if k > 0 {
        lemma_index_of_char_at(s.drop_first(), ch, k - 1);
    }
}

/// The position of the first `ch` in `s`, or the length of `s`.
fn find_char(s: &str, ch: char) -> (i: usize)
    ensures
        i == index_of_char(s@, ch),
        i <= s@.len(),
        i < s@.len() ==> s@[i as int] == ch,
        forall|j: int| 0 <= j < i ==> s@[j] != ch,
{
    let n = s.unicode_len();
    let mut i: usize = 0;
    while i < n && s.get_char(i) != ch
        invariant
            i <= n,
            n == s@.len(),
            forall|j: int| 0 <= j < i ==> s@[j] != ch,
        decreases n - i,
    {
        i += 1;
    }
    proof {
        lemma_index_of_char_at(s@, ch, i as int);
    }
    i
}

/// A comment line: one that starts with `#`.
pub open spec fn is_comment(line: Seq<char>) -> bool {
    line.len() > 0 && line[0] == '#'
}

/// The line that carries the background color: not a comment, and it
/// mentions `background`.
pub open spec fn is_background_line(line: Seq<char>) -> bool {
    !is_comment(line) && seq_contains(line, "background"@)
}

/// The position of the first background line, or `lines.len()` when
/// there is none.
pub open spec fn first_background_index(lines: Seq<Seq<char>>) -> nat
    decreases lines.len(),
{
    if lines.len() == 0 {
        0
    } else if is_background_line(lines[0]) {
        0
    } else {
        1 + first_background_index(lines.drop_first())
    }
}

/// Whether some line carries the background color.
pub open spec fn has_background_line(lines: Seq<Seq<char>>) -> bool {
    first_background_index(lines) < lines.len()
}

proof fn lemma_first_background_index_at(lines: Seq<Seq<char>>, k: int)
    requires
        0 <= k <= lines.len(),
        forall|i: int| 0 <= i < k ==> !is_background_line(lines[i]),
        k == lines.len() || is_background_line(lines[k]),
    ensures
        first_background_index(lines) == k,
    decreases k,
{
    if k > 0 {
        lemma_first_background_index_at(lines.drop_first(), k - 1);
    }
}

/// The line has an `=` delimiter, so a right-hand side exists.
pub open spec fn has_delimiter(line: Seq<char>) -> bool {
    index_of_char(line, '=') < line.len()
}

/// The color literal of a line: the text between the first `=` and the
/// next `=` (or the end of the line), trimmed of whitespace.
pub open spec fn line_literal(line: Seq<char>) -> Seq<char>
    recommends
        has_delimiter(line),
{
    let rest = line.subrange(index_of_char(line, '=') as int + 1, line.len() as int);
    trimmed(rest.subrange(0, index_of_char(rest, '=') as int))
}

/// A well-formed color literal: at least 8 characters, and the six after
/// the 2-character prefix are hexadecimal digits.
pub open spec fn literal_ok(lit: Seq<char>) -> bool {
    &&& lit.len() >= 8
    &&& is_hex_digit(lit[2]) && is_hex_digit(lit[3])
    &&& is_hex_digit(lit[4]) && is_hex_digit(lit[5])
    &&& is_hex_digit(lit[6]) && is_hex_digit(lit[7])
}

/// The color a well-formed literal denotes: channels at characters 2-3,
/// 4-5 and 6-7, each a 2-digit hexadecimal number.
pub open spec fn color_of_literal(lit: Seq<char>) -> Color
    recommends
        literal_ok(lit),
{
    Color {
        r: (hex_digit_value(lit[2]) * 16 + hex_digit_value(lit[3])) as u8,
        g: (hex_digit_value(lit[4]) * 16 + hex_digit_value(lit[5])) as u8,
        b: (hex_digit_value(lit[6]) * 16 + hex_digit_value(lit[7])) as u8,
    }
}

/// The views of a sequence of lines.
pub open spec fn lines_view(lines: Seq<String>) -> Seq<Seq<char>> {
    lines.map_values(|l: String| l@)
}

/// What extraction returns for given lines: the color of the first
/// background line's literal, or the parse error when no background line
/// exists, the line has no `=`, or the literal is malformed.
pub open spec fn extracted_color(lines: Seq<Seq<char>>) -> Result<Color, ParseError> {
    if !has_background_line(lines) {
        Err(ParseError)
    } else {
        let line = lines[first_background_index(lines) as int];
        if !has_delimiter(line) {
            Err(ParseError)
        } else if !literal_ok(line_literal(line)) {
            Err(ParseError)
        } else {
            Ok(color_of_literal(line_literal(line)))
        }
    }
}

/// The numeric value of a hexadecimal digit character.
fn hex_char_value(c: char) -> (r: Option<u8>)
    ensures
        r is Some <==> is_hex_digit(c),
        r is Some ==> r->0 == hex_digit_value(c),
{
    let u = c as u32;
    if 48 <= u && u <= 57 {
        Some((u - 48) as u8)
    } else if 97 <= u && u <= 102 {
        Some((u - 87) as u8)
    } else if 65 <= u && u <= 70 {
        Some((u - 55) as u8)
    } else {
        None
    }
}

/// The value of the 2-digit hexadecimal number `hi` `lo`.
fn hex_pair_value(hi: char, lo: char) -> (r: Option<u8>)
    ensures
        r is Some <==> is_hex_digit(hi) && is_hex_digit(lo),
        r is Some ==> r->0 == hex_digit_value(hi) * 16 + hex_digit_value(lo),
{
    match (hex_char_value(hi), hex_char_value(lo)) {
        (Some(h), Some(l)) => Some(h * 16 + l),
        _ => None,
    }
}

/// Extracts the background color from the lines of a theme file, exactly
/// as `extracted_color` states it.
pub fn extract_color(lines: &Vec<String>) -> (r: Result<Color, ParseError>)
    ensures
        r == extracted_color(lines_view(lines@)),
{
    let ghost lv = lines_view(lines@);
    let n = lines.len();
    let mut i: usize = 0;
    while i < n
        invariant
            i <= n,
            n == lines@.len(),
            lv == lines_view(lines@),
            forall|j: int| 0 <= j < i ==> !is_background_line(lv[j]),
        decreases n - i,
    {
        let line = lines[i].as_str();
        let len = line.unicode_len();
        let comment = len > 0 && line.get_char(0) == '#';
        if !comment && str_contains(line, "background") {
            proof {
                lemma_first_background_index_at(lv, i as int);
            }
            return parse_color_line(line);
        }
        i += 1;
    }
    proof {
        lemma_first_background_index_at(lv, n as int);
    }
    Err(ParseError)
}

/// Parses the color literal out of the selected background line.
fn parse_color_line(line: &str) -> (r: Result<Color, ParseError>)
    ensures
        ({
            let res = if !has_delimiter(line@) {
                Err(ParseError)
            } else if !literal_ok(line_literal(line@)) {
                Err(ParseError)
            } else {
                Ok(color_of_literal(line_literal(line@)))
            };
            r == res
        }),
{
    let n = line.unicode_len();
    let eq1 = find_char(line, '=');
    if eq1 == n {
        return Err(ParseError);
    }
    let rest = line.substring_char(eq1 + 1, n);
    let eq2 = find_char(rest, '=');
    let seg = rest.substring_char(0, eq2);
    let lit = trim_str(seg);
    proof {
        assert(lit@ == line_literal(line@));
    }
    let len = lit.unicode_len();
    if len < 8 {
        return Err(ParseError);
    }
    let red = hex_pair_value(lit.get_char(2), lit.get_char(3));
    let green = hex_pair_value(lit.get_char(4), lit.get_char(5));
    let blue = hex_pair_value(lit.get_char(6), lit.get_char(7));
    match (red, green, blue) {
        (Some(r), Some(g), Some(b)) => Ok(Color { r, g, b }),
        _ => Err(ParseError),
    }
}

/// The hexadecimal character of a digit value, lower case.
pub open spec fn hex_char_of(d: int) -> char
    recommends
        0 <= d <= 15,
{
    if d == 0 {
        '0'
    } else if d == 1 {
        '1'
    } else if d == 2 {
        '2'
    } else if d == 3 {
        '3'
    } else if d == 4 {
        '4'
    } else if d == 5 {
        '5'
    } else if d == 6 {
        '6'
    } else if d == 7 {
        '7'
    } else if d == 8 {
        '8'
    } else if d == 9 {
        '9'
    } else if d == 10 {
        'a'
    } else if d == 11 {
        'b'
    } else if d == 12 {
        'c'
    } else if d == 13 {
        'd'
    } else if d == 14 {
        'e'
    } else {
        'f'
    }
}

/// The two hexadecimal characters of a channel value.
pub open spec fn hex_pair_of(v: int) -> Seq<char>
    recommends
        0 <= v <= 255,
{
    seq![hex_char_of(v / 16), hex_char_of(v % 16)]
}

/// The canonical literal of a color: a quote and the `#` marker as the
/// 2-character prefix, then the three channels in hexadecimal.
pub open spec fn color_literal_of(c: Color) -> Seq<char> {
    seq!['\'', '#'] + hex_pair_of(c.r as int) + hex_pair_of(c.g as int) + hex_pair_of(c.b as int)
}

/// Extraction round-trips: for every color, its canonical literal is
/// well formed and parses back to the very same channels.
pub proof fn lemma_literal_round_trip(c: Color)
    ensures
        literal_ok(color_literal_of(c)),
        color_of_literal(color_literal_of(c)) == c,
{
    assert forall|d: int| 0 <= d <= 15 implies is_hex_digit(hex_char_of(d)) && hex_digit_value(
        hex_char_of(d),
    ) == d by {}
    let lit = color_literal_of(c);
    assert(lit[2] == hex_char_of(c.r as int / 16));
    assert(lit[3] == hex_char_of(c.r as int % 16));
    assert(lit[4] == hex_char_of(c.g as int / 16));
    assert(lit[5] == hex_char_of(c.g as int % 16));
    assert(lit[6] == hex_char_of(c.b as int / 16));
    assert(lit[7] == hex_char_of(c.b as int % 16));
}

} // verus!
