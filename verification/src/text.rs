//! Small verified text utilities shared by the rest of the crate:
//! character-exact string comparison and decimal rendering of integers.

use vstd::prelude::*;

verus! {

/// The decimal digit character for `d` (`0 <= d <= 9`).
pub open spec fn digit_char(d: nat) -> char {
    if d == 0 {
        '0'
    } else if d == 1 {
        '1'
    } else if d == 2 {
        '2'
    } else if d == 3 {
        '3'
    } else if d == 4 {
        '4'
    } else if d == 5 {
        '5'
    } else if d == 6 {
        '6'
    } else if d == 7 {
        '7'
    } else if d == 8 {
        '8'
    } else {
        '9'
    }
}

/// The usual decimal rendering of a natural number, most significant digit
/// first, with no leading zeros (except for `0` itself).
pub open spec fn spec_dec(n: nat) -> Seq<char>
    decreases n,
{
    if n < 10 {
        seq![digit_char(n)]
    } else {
        spec_dec(n / 10) + seq![digit_char(n % 10)]
    }
}

/// The decimal rendering of a signed integer: a `-` sign followed by the
/// rendering of the magnitude, or just the magnitude when non-negative.
pub open spec fn spec_dec_int(v: int) -> Seq<char> {
    if v < 0 {
        seq!['-'] + spec_dec((-v) as nat)
    } else {
        spec_dec(v as nat)
    }
}

/// One decimal digit as a string slice.
fn digit_str(d: u64) -> (r: &'static str)
    requires
        d < 10,
    ensures
        r@ =~= seq![digit_char(d as nat)],
{
    let s: &'static str = if d == 0 {
        "0"
    } else if d == 1 {
        "1"
    } else if d == 2 {
        "2"
    } else if d == 3 {
        "3"
    } else if d == 4 {
        "4"
    } else if d == 5 {
        "5"
    } else if d == 6 {
        "6"
    } else if d == 7 {
        "7"
    } else if d == 8 {
        "8"
    } else {
        "9"
    };
    proof {
        reveal_strlit("0");
        reveal_strlit("1");
        reveal_strlit("2");
        reveal_strlit("3");
        reveal_strlit("4");
        reveal_strlit("5");
        reveal_strlit("6");
        reveal_strlit("7");
        reveal_strlit("8");
        reveal_strlit("9");
    }
    s
}

/// Renders `n` in decimal.
pub fn u64_to_string(n: u64) -> (r: String)
    ensures
        r@ == spec_dec(n as nat),
    decreases n,
{
    if n < 10 {
        let r = digit_str(n).to_owned();
        assert(r@ =~= spec_dec(n as nat));
        r
    } else {
        let mut r = u64_to_string(n / 10);
        r.append(digit_str(n % 10));
        assert(r@ =~= spec_dec(n as nat));
        r
    }
}

/// Renders `n` in decimal.
pub fn usize_to_string(n: usize) -> (r: String)
    ensures
        r@ == spec_dec(n as nat),
{
    u64_to_string(n as u64)
}

/// Renders `v` in decimal, with a leading `-` when negative.
pub fn i32_to_string(v: i32) -> (r: String)
    ensures
        r@ == spec_dec_int(v as int),
{
    if v >= 0 {
        u64_to_string(v as u64)
    } else {
        let wide: i64 = v as i64;
        let magnitude: u64 = (-wide) as u64;
        let mut r = String::new();
        r.append("-");
        let digits = u64_to_string(magnitude);
        r.append(digits.as_str());
        proof {
            reveal_strlit("-");
        }
        assert(r@ =~= spec_dec_int(v as int));
        r
    }
}

/// The numeric value of the decimal digit `c`; meaningful only when `c` is
/// a digit.
pub open spec fn spec_digit_of(c: char) -> int {
    c as u32 - '0' as u32
}

/// Whether `c` is a decimal digit.
pub open spec fn spec_is_digit(c: char) -> bool {
    '0' as u32 <= c as u32 && c as u32 <= '9' as u32
}

/// Whether every character of `text` from position `from` on is a digit.
pub open spec fn spec_all_digits(text: Seq<char>, from: int) -> bool {
    forall|k: int| from <= k < text.len() ==> spec_is_digit(text[k])
}

/// Folds the digits of `text` from position `from` on into `acc`, most
/// significant digit first.
pub open spec fn spec_digits_val(text: Seq<char>, from: int, acc: int) -> int
    decreases text.len() - from,
{
    if from < 0 || from >= text.len() {
        acc
    } else {
        spec_digits_val(text, from + 1, acc * 10 + spec_digit_of(text[from]))
    }
}

/// What `str::parse::<i32>` accepts: an optional sign, then at least one
/// digit and nothing else, with the value in `i32` range.
pub open spec fn spec_parse_i32(text: Seq<char>) -> Option<i32> {
    let start: int = if text.len() > 0 && (text[0] == '+' || text[0] == '-') {
        1
    } else {
        0
    };
    let negative = text.len() > 0 && text[0] == '-';
    if text.len() - start == 0 || !spec_all_digits(text, start) {
        None
    } else {
        let magnitude = spec_digits_val(text, start, 0);
        let value: int = if negative {
            -magnitude
        } else {
            magnitude
        };
        if i32::MIN <= value <= i32::MAX {
            Some(value as i32)
        } else {
            None
        }
    }
}

/// The digit fold never shrinks a non-negative accumulator.
proof fn lemma_digits_val_lower_bound(text: Seq<char>, from: int, acc: int)
    requires
        acc >= 0,
        spec_all_digits(text, from),
    ensures
        spec_digits_val(text, from, acc) >= acc,
    decreases text.len() - from,
{
    if 0 <= from < text.len() {
        assert(spec_digit_of(text[from]) >= 0);
        lemma_digits_val_lower_bound(text, from + 1, acc * 10 + spec_digit_of(text[from]));
    }
}

/// Parses a decimal integer exactly as `str::parse::<i32>` does: an
/// optional `+`/`-` sign followed by one or more digits, rejecting any
/// other character and any value outside `i32` range.
#[verifier::loop_isolation(false)]
pub fn parse_i32(text: &str) -> (r: Option<i32>)
    ensures
        r == spec_parse_i32(text@),
{
    let n = text.unicode_len();
    if n == 0 {
        return None;
    }
    let first = text.get_char(0);
    let negative = first == '-';
    let start: usize = if first == '+' || first == '-' {
        1
    } else {
        0
    };
    if start >= n {
        return None;
    }
    let mut j = start;
    let mut acc: u64 = 0;
    while j < n
        invariant
            start <= j <= n,
            n == text@.len(),
            0 <= acc <= 2147483648,
            forall|k: int| start <= k < j ==> spec_is_digit(text@[k]),
            spec_digits_val(text@, start as int, 0) == spec_digits_val(text@, j as int, acc as int),
        decreases n - j,
    {
        let ghost j0 = j as int;
        let c = text.get_char(j);
        let is_digit = '0' as u32 <= c as u32 && c as u32 <= '9' as u32;
        if !is_digit {
            proof {
                assert(spec_all_digits(text@, start as int) ==> spec_is_digit(text@[j0]));
                assert(!spec_all_digits(text@, start as int));
            }
            return None;
        }
        let ghost acc0 = acc as int;
        let d = (c as u32 - '0' as u32) as u64;
        acc = acc * 10 + d;
        j += 1;
        proof {
            assert(spec_digits_val(text@, j0, acc0) == spec_digits_val(
                text@,
                j0 + 1,
                acc0 * 10 + spec_digit_of(text@[j0]),
            ));
            assert(acc as int == acc0 * 10 + spec_digit_of(text@[j0]));
        }
        if acc > 2147483648 {
            proof {
                if spec_all_digits(text@, start as int) {
                    lemma_digits_val_lower_bound(text@, j as int, acc as int);
                }
            }
            return None;
        }
    }
    proof {
        assert(spec_all_digits(text@, start as int));
        assert(spec_digits_val(text@, start as int, 0) == acc as int);
    }
    if negative {
        if acc == 2147483648 {
            Some(i32::MIN)
        } else {
            Some(-(acc as i32))
        }
    } else {
        if acc == 2147483648 {
            None
        } else {
            Some(acc as i32)
        }
    }
}

/// Character-exact equality of two string slices.
pub fn str_eq(a: &str, b: &str) -> (r: bool)
    ensures
        r == (a@ == b@),
{
    let n = a.unicode_len();
    if n != b.unicode_len() {
        return false;
    }
    let mut i: usize = 0;
    while i < n
        invariant
            a@.len() == n,
            b@.len() == n,
            i <= n,
            forall|k: int| 0 <= k < i ==> a@[k] == b@[k],
        decreases n - i,
    {
        if a.get_char(i) != b.get_char(i) {
            return false;
        }
        i += 1;
    }
    proof {
        assert(a@ =~= b@);
    }
    true
}

} // verus!
