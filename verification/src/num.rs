//! Decimal numbers in text: formatting and the parsing rules of `str::parse::<u32>`.
use vstd::prelude::*;
use vstd::string::*;
use crate::text::{chars_of, digit_val, is_ascii_digit, is_digit_char};

verus! {

pub open spec fn digit_char(d: nat) -> char {
    ((('0' as u32) + d) as u32) as char
}

/// The decimal text of `n`, without leading zeros.
pub open spec fn dec(n: nat) -> Seq<char>
    decreases n,
{
    if n < 10 {
        seq![digit_char(n)]
    } else {
        dec(n / 10).push(digit_char(n % 10))
    }
}

/// The failures of integer parsing, as `std::num::IntErrorKind` names them.
#[derive(Debug, Clone, Copy, PartialEq, Eq, Structural)]
pub enum IntErrorKind {
    Empty,
    InvalidDigit,
    PosOverflow,
}

/// Scans digits left to right from value `acc`: the first non-digit is an
/// invalid digit, the first step past `u32::MAX` an overflow.
pub open spec fn scan_u32(acc: nat, s: Seq<char>) -> Result<u32, IntErrorKind>
    decreases s.len(),
{
    if s.len() == 0 {
        Ok(acc as u32)
    } else if !is_ascii_digit(s[0]) {
        Err(IntErrorKind::InvalidDigit)
    } else if acc * 10 + digit_val(s[0]) > u32::MAX {
        Err(IntErrorKind::PosOverflow)
    } else {
        scan_u32(acc * 10 + digit_val(s[0]), s.drop_first())
    }
}

/// What `s.parse::<u32>()` gives: an optional leading `+`, then decimal digits.
pub open spec fn parse_u32_spec(s: Seq<char>) -> Result<u32, IntErrorKind> {
    if s.len() == 0 {
        Err(IntErrorKind::Empty)
    } else if s.len() == 1 && (s[0] == '+' || s[0] == '-') {
        Err(IntErrorKind::InvalidDigit)
    } else if s[0] == '+' {
        scan_u32(0, s.drop_first())
    } else {
        scan_u32(0, s)
    }
}

fn digit_str(d: u64) -> (r: &'static str)
    requires
        d < 10,
    ensures
        r@ == seq![digit_char(d as nat)],
{
    proof {
        reveal_strlit("0");
        reveal_strlit("1");
        reveal_strlit("2");
        reveal_strlit("3");
        reveal_strlit("4");
        reveal_strlit("5");
        reveal_strlit("6");
        reveal_strlit("7");
        reveal_strlit("8");
        reveal_strlit("9");
    }
    if d == 0 {
        "0"
    } else if d == 1 {
        "1"
    } else if d == 2 {
        "2"
    } else if d == 3 {
        "3"
    } else if d == 4 {
        "4"
    } else if d == 5 {
        "5"
    } else if d == 6 {
        "6"
    } else if d == 7 {
        "7"
    } else if d == 8 {
        "8"
    } else {
        "9"
    }
}

/// Appends the decimal text of `n` to `out`.
pub fn push_dec(out: &mut String, n: u64)
    ensures
        final(out)@ == old(out)@ + dec(n as nat),
    decreases n,
{
    if n < 10 {
        out.append(digit_str(n));
    } else {
        push_dec(out, n / 10);
        out.append(digit_str(n % 10));
        proof {
            assert(old(out)@ + dec(n as nat) =~= old(out)@ + dec((n / 10) as nat) + seq![
                digit_char((n % 10) as nat),
            ]);
        }
    }
}

/// The decimal text of `n` (`n.to_string()`).
pub fn u64_to_string(n: u64) -> (r: String)
    ensures
        r@ == dec(n as nat),
{
    let mut s = String::new();
    push_dec(&mut s, n);
    proof {
        assert(s@ =~= dec(n as nat));
    }
    s
}

/// `s.parse::<u32>()`, with the error kinds that std reports.
pub fn parse_u32(s: &str) -> (r: Result<u32, IntErrorKind>)
    ensures
        r == parse_u32_spec(s@),
{
    let c = chars_of(s);
    let n = c.len();
    if n == 0 {
        return Err(IntErrorKind::Empty);
    }
    if n == 1 && (c[0] == '+' || c[0] == '-') {
        return Err(IntErrorKind::InvalidDigit);
    }
    let mut i: usize = if c[0] == '+' {
        1
    } else {
        0
    };
    let ghost rest = if c@[0] == '+' {
        s@.drop_first()
    } else {
        s@
    };
    proof {
        assert(c@.subrange(i as int, n as int) =~= rest);
    }
    let mut acc: u64 = 0;
    while i < n
        invariant
            c@ == s@,
            n == c@.len(),
            i <= n,
            acc <= u32::MAX,
            parse_u32_spec(s@) == scan_u32(acc as nat, c@.subrange(i as int, n as int)),
        decreases n - i,
    {
        let ch = c[i];
        proof {
            let t = c@.subrange(i as int, n as int);
            assert(t[0] == ch);
            assert(t.drop_first() =~= c@.subrange(i + 1, n as int));
        }
        if !is_digit_char(ch) {
            return Err(IntErrorKind::InvalidDigit);
        }
        let d = (ch as u32 - '0' as u32) as u64;
        if acc * 10 + d > 4294967295u64 {
            return Err(IntErrorKind::PosOverflow);
        }
        acc = acc * 10 + d;
        i = i + 1;
    }
    proof {
        assert(c@.subrange(i as int, n as int).len() == 0);
    }
    Ok(acc as u32)
}


/// The decimal text of a signed integer (`n.to_string()`): a minus sign before
/// the digits of a negative number.
pub open spec fn int_text(n: int) -> Seq<char> {
    if n < 0 {
        seq!['-'] + dec((-n) as nat)
    } else {
        dec(n as nat)
    }
}

/// `n.to_string()` for an `i32`.
pub fn i32_to_string(n: i32) -> (r: String)
    ensures
        r@ == int_text(n as int),
{
    let mut s = String::new();
    if n < 0 {
        s.append("-");
        let m: i64 = n as i64;
        let a: u64 = (0i64 - m) as u64;
        push_dec(&mut s, a);
        proof {
            reveal_strlit("-");
            assert(s@ =~= seq!['-'] + dec((-n) as nat));
        }
    } else {
        push_dec(&mut s, n as u64);
        proof {
            assert(s@ =~= dec(n as nat));
        }
    }
    s
}

} // verus!
