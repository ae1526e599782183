//! Decimal rendering and parsing of chunk indices and timestamps.
//!
//! The storage key and the on-disk chunk names embed integers in decimal
//! notation; this module renders them and parses them back, with exact
//! specifications (`dec_digits`, `dec_int`, `parse_i32`).

use vstd::prelude::*;

verus! {

use vstd::string::StrSliceExecFns;
use vstd::string::StringExecFns;

/// Whether `c` is a decimal digit.
pub open spec fn is_digit(c: char) -> bool {
    48 <= c as u32 <= 57
}

/// The numeric value of the digit `c`.
pub open spec fn digit_val(c: char) -> nat {
    (c as u32 - 48) as nat
}

/// The digit character for a value below ten.
pub open spec fn digit_char(d: nat) -> char {
    if d == 0 {
        '0'
    } else if d == 1 {
        '1'
    } else if d == 2 {
        '2'
    } else if d == 3 {
        '3'
    } else if d == 4 {
        '4'
    } else if d == 5 {
        '5'
    } else if d == 6 {
        '6'
    } else if d == 7 {
        '7'
    } else if d == 8 {
        '8'
    } else {
        '9'
    }
}

/// The decimal digit string of `n`, most significant digit first.
pub open spec fn dec_digits(n: nat) -> Seq<char>
    decreases n,
{
    if n < 10 {
        seq![digit_char(n)]
    } else {
        dec_digits(n / 10) + seq![digit_char(n % 10)]
    }
}

/// The decimal string of `n`, with a leading minus sign when negative.
pub open spec fn dec_int(n: int) -> Seq<char> {
    if n < 0 {
        seq!['-'] + dec_digits((-n) as nat)
    } else {
        dec_digits(n as nat)
    }
}

/// Whether every character of `s` is a decimal digit.
pub open spec fn all_digits(s: Seq<char>) -> bool {
    forall|i: int| 0 <= i < s.len() ==> is_digit(#[trigger] s[i])
}

/// The value of a digit string, most significant digit first.
pub open spec fn digits_value(s: Seq<char>) -> nat
    decreases s.len(),
{
    if s.len() == 0 {
        0
    } else {
        digits_value(s.drop_last()) * 10 + digit_val(s.last())
    }
}

/// The digits of a decimal token, after any leading sign.
pub open spec fn parse_body(s: Seq<char>) -> Seq<char> {
    if s.len() > 0 && (s[0] == '-' || s[0] == '+') {
        s.drop_first()
    } else {
        s
    }
}

/// Whether a decimal token carries a minus sign.
pub open spec fn parse_neg(s: Seq<char>) -> bool {
    s.len() > 0 && s[0] == '-'
}

/// What `str::parse::<i32>` accepts and returns: an optional sign followed by
/// at least one digit, whose value fits in an `i32`.
pub open spec fn parse_i32(s: Seq<char>) -> Option<int> {
    if parse_body(s).len() == 0 || !all_digits(parse_body(s)) {
        None
    } else {
        let v = if parse_neg(s) {
            -(digits_value(parse_body(s)) as int)
        } else {
            digits_value(parse_body(s)) as int
        };
        if i32::MIN <= v <= i32::MAX {
            Some(v)
        } else {
            None
        }
    }
}

fn digit_str(d: u64) -> (r: &'static str)
    requires
        d < 10,
    ensures
        r@ == seq![digit_char(d as nat)],
{
    proof {
        reveal_strlit("0");
        reveal_strlit("1");
        reveal_strlit("2");
        reveal_strlit("3");
        reveal_strlit("4");
        reveal_strlit("5");
        reveal_strlit("6");
        reveal_strlit("7");
        reveal_strlit("8");
        reveal_strlit("9");
    }
    let r = if d == 0 {
        "0"
    } else if d == 1 {
        "1"
    } else if d == 2 {
        "2"
    } else if d == 3 {
        "3"
    } else if d == 4 {
        "4"
    } else if d == 5 {
        "5"
    } else if d == 6 {
        "6"
    } else if d == 7 {
        "7"
    } else if d == 8 {
        "8"
    } else {
        "9"
    };
    proof {
        assert(r@ =~= seq![digit_char(d as nat)]);
    }
    r
}

/// Renders `n` in decimal.
pub fn u64_to_string(n: u64) -> (r: String)
    ensures
        r@ == dec_digits(n as nat),
    decreases n,
{
    if n < 10 {
        digit_str(n).to_owned()
    } else {
        let prefix = u64_to_string(n / 10);
        prefix.concat(digit_str(n % 10))
    }
}

/// Renders `n` in decimal, with a minus sign when negative.
pub fn i64_to_string(n: i64) -> (r: String)
    ensures
        r@ == dec_int(n as int),
{
    if n >= 0 {
        u64_to_string(n as u64)
    } else {
        let mag: u64 = (-(n as i128)) as u64;
        proof {
            reveal_strlit("-");
            assert("-"@ =~= seq!['-']);
        }
        let digits = u64_to_string(mag);
        let r = "-".to_owned().concat(digits.as_str());
        proof {
            assert(r@ == dec_int(n as int));
        }
        r
    }
}

/// A longer digit string never has a smaller value.
proof fn lemma_digits_value_take_le(s: Seq<char>, i: int)
    requires
        0 <= i <= s.len(),
    ensures
        digits_value(s.take(i)) <= digits_value(s),
    decreases s.len() - i,
{
    if i < s.len() {
        assert(s.take(i + 1).drop_last() =~= s.take(i));
        assert(s.take(i + 1).last() == s[i]);
        assert(digits_value(s.take(i)) <= digits_value(s.take(i + 1)));
        lemma_digits_value_take_le(s, i + 1);
    } else {
        assert(s.take(i) =~= s);
    }
}

/// Parses `token` exactly as `str::parse::<i32>` does.
pub fn parse_i32_str(token: &str) -> (r: Option<i32>)
    ensures
        r matches Some(v) ==> parse_i32(token@) == Some(v as int),
        r is None ==> parse_i32(token@) is None,
{
    let len = token.unicode_len();
    if len == 0 {
        return None;
    }
    let first = token.get_char(0);
    let neg = first == '-';
    let start: usize = if neg || first == '+' {
        1
    } else {
        0
    };
    let ghost body = parse_body(token@);
    proof {
        assert(body =~= token@.subrange(start as int, len as int));
    }
    if start == len {
        return None;
    }
    let mut acc: u64 = 0;
    let mut i: usize = start;
    while i < len
        invariant
            start <= i <= len,
            len == token@.len(),
            start == 0 || start == 1,
            neg == parse_neg(token@),
            body == parse_body(token@),
            body =~= token@.subrange(start as int, len as int),
            all_digits(token@.subrange(start as int, i as int)),
            acc == digits_value(token@.subrange(start as int, i as int)),
            acc <= 2147483648,
        decreases len - i,
    {
        let c = token.get_char(i);
        let code = c as u32;
        if code < 48 || code > 57 {
            proof {
                assert(body[i - start] == token@[i as int]);
                assert(!is_digit(body[i - start]));
            }
            return None;
        }
        proof {
            let prefix = token@.subrange(start as int, i as int);
            let next = token@.subrange(start as int, i + 1);
            assert(next.drop_last() =~= prefix);
            assert(next.last() == token@[i as int]);
        }
        acc = acc * 10 + ((code - 48) as u64);
        i = i + 1;
        if acc > 2147483648 {
            proof {
                let done = token@.subrange(start as int, i as int);
                assert(done =~= body.take(i - start));
                lemma_digits_value_take_le(body, i - start);
                assert(digits_value(body) >= acc);
            }
            return None;
        }
    }
    proof {
        assert(token@.subrange(start as int, i as int) =~= body);
    }
    if neg {
        if acc == 2147483648 {
            Some(i32::MIN)
        } else {
            Some(0i32 - (acc as i32))
        }
    } else {
        if acc > 2147483647 {
            None
        } else {
            Some(acc as i32)
        }
    }
}

} // verus!
