//! Theme selection: parsing the user's numeric choice and laying out the
//! numbered menu.
//!
//! The choice is the input line, trimmed, read as a non-negative decimal
//! number; it must fall below the number of themes. A menu entry is the
//! index, a separator, and the theme name padded with spaces so that five
//! entries per row form fixed-width columns.

use crate::extract::trimmed;
use vstd::prelude::*;
use vstd::string::*;

verus! {

/// Why a selection was rejected: not a number at all, or a number with
/// no theme under it.
#[derive(Clone, Copy, PartialEq, Eq, Structural, Debug)]
pub enum SelectionError {
    NotANumber,
    OutOfRange,
}

/// The characters `0`-`9`.
pub open spec fn is_digit(ch: char) -> bool {
    48 <= ch as int && ch as int <= 57
}

/// The numeric value of a decimal digit.
pub open spec fn digit_value(ch: char) -> int
    recommends
        is_digit(ch),
{
    ch as int - 48
}

/// Every character of `s` is a decimal digit.
pub open spec fn all_digits(s: Seq<char>) -> bool {
    forall|i: int| 0 <= i < s.len() ==> is_digit(s[i])
}

/// The value of `s` read as a decimal number.
pub open spec fn decimal_value(s: Seq<char>) -> int
    decreases s.len(),
{
    if s.len() == 0 {
        0
    } else {
        decimal_value(s.drop_last()) * 10 + digit_value(s.last())
    }
}

proof fn lemma_decimal_value_nonneg(s: Seq<char>)
    requires
        all_digits(s),
    ensures
        decimal_value(s) >= 0,
    decreases s.len(),
{
    if s.len() > 0 {
        assert(all_digits(s.drop_last()));
        lemma_decimal_value_nonneg(s.drop_last());
    }
}

/// A longer run of digits never has a smaller value: the value of a
/// prefix bounds the value of the whole from below.
proof fn lemma_decimal_prefix_le(s: Seq<char>, k: int)
    requires
        all_digits(s),
        0 <= k <= s.len(),
    ensures
        decimal_value(s.subrange(0, k)) <= decimal_value(s),
    decreases s.len() - k,
{
    if k == s.len() {
        assert(s.subrange(0, k) =~= s);
    } else {
        let t = s.subrange(0, k + 1);
        assert(t.drop_last() =~= s.subrange(0, k));
        assert(all_digits(t.drop_last()));
        lemma_decimal_value_nonneg(t.drop_last());
        lemma_decimal_prefix_le(s, k + 1);
    }
}

/// The value of a decimal digit character.
fn digit_of_char(c: char) -> (r: Option<u8>)
    ensures
        r is Some <==> is_digit(c),
        r is Some ==> r->0 == digit_value(c),
{
    let u = c as u32;
    if 48 <= u && u <= 57 {
        Some((u - 48) as u8)
    } else {
        None
    }
}

/// Parses the user's input as the index of one of `count` themes: the
/// trimmed input read as a decimal number. A non-numeric or empty input
/// is `NotANumber`; a numeric one that reaches `count` is `OutOfRange`.
pub fn parse_selection(input: &str, count: usize) -> (r: Result<usize, SelectionError>)
    ensures
        ({
            let t = trimmed(input@);
            match r {
                Ok(n) => t.len() > 0 && all_digits(t) && n == decimal_value(t) && n < count,
                Err(SelectionError::NotANumber) => t.len() == 0 || !all_digits(t),
                Err(SelectionError::OutOfRange) => t.len() > 0 && all_digits(t) && decimal_value(
                    t,
                ) >= count,
            }
        }),
{
    let t = crate::extract::trim_str(input);
    let n = t.unicode_len();
    if n == 0 {
        return Err(SelectionError::NotANumber);
    }
    let mut i: usize = 0;
    while i < n
        invariant
            i <= n,
            n == t@.len(),
            n >= 1,
            t@ == trimmed(input@),
            forall|j: int| 0 <= j < i ==> is_digit(t@[j]),
        decreases n - i,
    {
        if digit_of_char(t.get_char(i)).is_none() {
            proof {
                assert(!is_digit(t@[i as int]));
            }
            return Err(SelectionError::NotANumber);
        }
        i += 1;
    }
    assert(all_digits(t@));
    let mut acc: usize = 0;
    let mut i: usize = 0;
    while i < n
        invariant
            i <= n,
            n == t@.len(),
            n >= 1,
            t@ == trimmed(input@),
            all_digits(t@),
            acc == decimal_value(t@.subrange(0, i as int)),
        decreases n - i,
    {
        let c = t.get_char(i);
        let d = match digit_of_char(c) {
            Some(d) => d,
            None => {
                proof {
                    assert(is_digit(t@[i as int]));
                    assert(false);
                }
                return Err(SelectionError::NotANumber);
            },
        };
        let limit = (usize::MAX - d as usize) / 10;
        proof {
            let pre = t@.subrange(0, i as int);
            let ext = t@.subrange(0, i + 1 as int);
            assert(ext.drop_last() =~= pre);
            lemma_decimal_value_nonneg(pre);
            if acc > limit {
                assert(acc >= limit + 1);
                assert((limit + 1) * 10 > usize::MAX - d) by (nonlinear_arith)
                    requires
                        limit == (usize::MAX - d as usize) as int / 10,
                        0 <= d < 10,
                ;
                assert(acc * 10 >= (limit + 1) * 10) by (nonlinear_arith)
                    requires
                        acc >= limit + 1,
                ;
                assert(decimal_value(ext) > usize::MAX);
                lemma_decimal_prefix_le(t@, i + 1 as int);
            } else {
                assert(acc * 10 <= limit * 10) by (nonlinear_arith)
                    requires
                        acc <= limit,
                ;
                assert(limit * 10 <= usize::MAX - d) by (nonlinear_arith)
                    requires
                        limit == (usize::MAX - d as usize) as int / 10,
                        0 <= d,
                ;
            }
        }
        if acc > limit {
            return Err(SelectionError::OutOfRange);
        }
        acc = acc * 10 + d as usize;
        i += 1;
    }
    proof {
        assert(t@.subrange(0, n as int) =~= t@);
    }
    if acc < count {
        Ok(acc)
    } else {
        Err(SelectionError::OutOfRange)
    }
}

/// The character of a decimal digit.
pub open spec fn digit_char(d: int) -> char
    recommends
        0 <= d <= 9,
{
    if d == 0 {
        '0'
    } else if d == 1 {
        '1'
    } else if d == 2 {
        '2'
    } else if d == 3 {
        '3'
    } else if d == 4 {
        '4'
    } else if d == 5 {
        '5'
    } else if d == 6 {
        '6'
    } else if d == 7 {
        '7'
    } else if d == 8 {
        '8'
    } else {
        '9'
    }
}

/// The decimal digit characters of `n`, most significant first.
pub open spec fn decimal_digits(n: int) -> Seq<char>
    recommends
        n >= 0,
    decreases n,
{
    if n < 10 {
        seq![digit_char(n)]
    } else {
        decimal_digits(n / 10).push(digit_char(n % 10))
    }
}

/// `n` spaces.
pub open spec fn spaces(n: int) -> Seq<char> {
    Seq::new(n as nat, |i: int| ' ')
}

/// `s` padded on the right with spaces to width `w`; a longer `s` is
/// kept whole.
pub open spec fn pad_right(s: Seq<char>, w: int) -> Seq<char> {
    if s.len() >= w {
        s
    } else {
        s + spaces(w - s.len())
    }
}

/// The width the theme name is padded to: the column width 40 less the
/// width of the index digits.
pub open spec fn column_pad(idx: int) -> int {
    if decimal_digits(idx).len() <= 40 {
        40 - decimal_digits(idx).len()
    } else {
        0
    }
}

/// One menu entry: the index, a `: ` separator, and the name padded so
/// that entries printed five per row form columns.
pub open spec fn menu_label(idx: int, name: Seq<char>) -> Seq<char> {
    decimal_digits(idx) + ": "@ + pad_right(name, column_pad(idx))
}

/// The one-character text of a decimal digit.
fn digit_str(d: u8) -> (r: &'static str)
    requires
        d < 10,
    ensures
        r@ == seq![digit_char(d as int)],
{
    proof {
        reveal_strlit("0");
        reveal_strlit("1");
        reveal_strlit("2");
        reveal_strlit("3");
        reveal_strlit("4");
        reveal_strlit("5");
        reveal_strlit("6");
        reveal_strlit("7");
        reveal_strlit("8");
        reveal_strlit("9");
    }
    let r = match d {
        0 => "0",
        1 => "1",
        2 => "2",
        3 => "3",
        4 => "4",
        5 => "5",
        6 => "6",
        7 => "7",
        8 => "8",
        _ => "9",
    };
    proof {
        assert(r@ =~= seq![digit_char(d as int)]);
    }
    r
}

/// The decimal text of `n`.
pub fn usize_to_decimal(n: usize) -> (r: String)
    ensures
        r@ == decimal_digits(n as int),
    decreases n,
{
    if n < 10 {
        String::from_str(digit_str(n as u8))
    } else {
        let pre = usize_to_decimal(n / 10);
        let r = pre.concat(digit_str((n % 10) as u8));
        proof {
            assert(r@ =~= decimal_digits(n as int));
        }
        r
    }
}

/// Builds one menu entry, exactly as `menu_label` states it.
pub fn format_menu_label(idx: usize, name: &str) -> (r: String)
    ensures
        r@ == menu_label(idx as int, name@),
{
    let ds = usize_to_decimal(idx);
    let dl = ds.as_str().unicode_len();
    let width: usize = if dl <= 40 {
        40 - dl
    } else {
        0
    };
    let name_len = name.unicode_len();
    let target: usize = if name_len >= width {
        0
    } else {
        width - name_len
    };
    let mut s = ds.concat(": ").concat(name);
    let ghost base = decimal_digits(idx as int) + ": "@ + name@;
    proof {
        assert(s@ =~= base + spaces(0));
    }
    let mut appended: usize = 0;
    while appended < target
        invariant
            appended <= target,
            target <= 40,
            s@ == base + spaces(appended as int),
        decreases target - appended,
    {
        s = s.concat(" ");
        proof {
            reveal_strlit(" ");
            assert(s@ =~= base + spaces(appended + 1 as int));
        }
        appended += 1;
    }
    proof {
        assert(width as int == column_pad(idx as int));
        if name@.len() >= width {
            assert(s@ =~= menu_label(idx as int, name@));
        } else {
            assert(s@ =~= menu_label(idx as int, name@));
        }
    }
    s
}

} // verus!
