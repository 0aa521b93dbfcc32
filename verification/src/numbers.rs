//! Decimal parsing of command operands.
//!
//! Operands reach the parser as whole tokens, so the grammar is the plain
//! one: an optional sign (`+` for the unsigned types, `+` or `-` for the
//! signed one) followed by one or more ASCII digits, and the value must fit
//! the target type.  The spec functions here say exactly which strings are
//! accepted and what they are worth; the executable parsers are proved
//! against them.

use vstd::prelude::*;

verus! {

/// `c` is an ASCII decimal digit.
pub open spec fn is_dec_digit(c: char) -> bool {
    48 <= c as u32 && c as u32 <= 57
}

/// Numeric value of a digit character.
pub open spec fn digit_val(c: char) -> int {
    c as u32 - 48
}

/// `s` consists of decimal digits only, and holds at least one.
pub open spec fn all_digits(s: Seq<char>) -> bool {
    s.len() > 0 && forall|i: int| 0 <= i < s.len() ==> is_dec_digit(#[trigger] s[i])
}

/// The value of a digit string read in base ten.
pub open spec fn dec_val(s: Seq<char>) -> int
    decreases s.len(),
{
    if s.len() == 0 {
        0
    } else {
        dec_val(s.drop_last()) * 10 + digit_val(s.last())
    }
}

/// The digits of `s` once an optional leading `+` is stripped: the shape the
/// unsigned parsers read.
pub open spec fn unsigned_body(s: Seq<char>) -> Seq<char> {
    if s.len() > 0 && s[0] == '+' {
        s.drop_first()
    } else {
        s
    }
}

/// The digits of `s` once an optional leading `+` or `-` is stripped: the
/// shape the signed parser reads.
pub open spec fn signed_body(s: Seq<char>) -> Seq<char> {
    if s.len() > 0 && (s[0] == '+' || s[0] == '-') {
        s.drop_first()
    } else {
        s
    }
}

/// `s` carries a leading minus sign.
pub open spec fn has_minus(s: Seq<char>) -> bool {
    s.len() > 0 && s[0] == '-'
}

/// The signed value `s` denotes, sign applied.
pub open spec fn signed_val(s: Seq<char>) -> int {
    if has_minus(s) {
        -dec_val(signed_body(s))
    } else {
        dec_val(signed_body(s))
    }
}

/// `s` is accepted by [`parse_u32`].
pub open spec fn is_dec_u32(s: Seq<char>) -> bool {
    all_digits(unsigned_body(s)) && dec_val(unsigned_body(s)) <= u32::MAX
}

/// `s` is accepted by [`parse_u8`].
pub open spec fn is_dec_u8(s: Seq<char>) -> bool {
    all_digits(unsigned_body(s)) && dec_val(unsigned_body(s)) <= u8::MAX
}

/// `s` is accepted by [`parse_i32`].
pub open spec fn is_dec_i32(s: Seq<char>) -> bool {
    all_digits(signed_body(s)) && i32::MIN <= signed_val(s) <= i32::MAX
}

/// A digit string is worth at least zero.
proof fn lemma_dec_val_nonneg(s: Seq<char>)
    requires
        forall|i: int| 0 <= i < s.len() ==> is_dec_digit(#[trigger] s[i]),
    ensures
        dec_val(s) >= 0,
    decreases s.len(),
{
    if s.len() > 0 {
        lemma_dec_val_nonneg(s.drop_last());
    }
}

/// Reading further digits can only grow the value: the value of a prefix is
/// a lower bound for the value of the whole string.
proof fn lemma_dec_val_take_le(s: Seq<char>, k: int)
    requires
        0 <= k <= s.len(),
        forall|i: int| 0 <= i < s.len() ==> is_dec_digit(#[trigger] s[i]),
    ensures
        dec_val(s.take(k)) <= dec_val(s),
    decreases s.len() - k,
{
    if k == s.len() {
        assert(s.take(k) =~= s);
    } else {
        assert(s.take(k + 1).drop_last() =~= s.take(k));
        assert(s.take(k + 1).last() == s[k]);
        lemma_dec_val_nonneg(s.take(k));
        lemma_dec_val_take_le(s, k + 1);
    }
}

/// Parses `s[start..]` as a plain digit string.  `None` when the range is
/// empty, holds a character that is no digit, or is worth more than
/// `u32::MAX` (a bound wide enough for every operand type of the chain).
fn parse_digits(s: &str, start: usize) -> (r: Option<u64>)
    requires
        start as int <= s@.len(),
    ensures
        r is Some <==> all_digits(s@.skip(start as int)) && dec_val(s@.skip(start as int))
            <= u32::MAX,
        r is Some ==> r->0 == dec_val(s@.skip(start as int)),
{
    let ghost body = s@.skip(start as int);
    let n = s.unicode_len();
    if start >= n {
        return None;
    }
    let mut i: usize = start;
    let mut acc: u64 = 0;
    while i < n
        invariant
            start <= i <= n,
            n == s@.len(),
            body == s@.skip(start as int),
            forall|k: int| 0 <= k < i - start ==> is_dec_digit(#[trigger] body[k]),
            acc == dec_val(body.take(i - start)),
            acc <= u32::MAX,
        decreases n - i,
    {
        let c = s.get_char(i);
        let u = c as u32;
        proof {
            assert(body[i - start] == s@[i as int]);
        }
        if u < 48 || u > 57 {
            return None;
        }
        let d = (u - 48) as u64;
        let next = acc * 10 + d;
        proof {
            assert(body.take(i + 1 - start).drop_last() =~= body.take(i - start));
            assert(body.take(i + 1 - start).last() == body[i - start]);
        }
        if next > 0xffff_ffff {
            proof {
                if all_digits(body) {
                    lemma_dec_val_take_le(body, i + 1 - start);
                }
            }
            return None;
        }
        acc = next;
        i = i + 1;
    }
    proof {
        assert(body.take(n - start) =~= body);
    }
    Some(acc)
}

/// Whether the first character of `s` is `c`.  Empty strings answer `false`.
fn first_char_is(s: &str, c: char) -> (r: bool)
    ensures
        r == (s@.len() > 0 && s@[0] == c),
{
    let n = s.unicode_len();
    if n == 0 {
        false
    } else {
        s.get_char(0) == c
    }
}

/// Parses a whole token as a `u32`: optional `+`, then digits, value in
/// range.  Returns the value exactly when the token has that shape.
pub fn parse_u32(s: &str) -> (r: Option<u32>)
    ensures
        r is Some <==> is_dec_u32(s@),
        r is Some ==> r->0 == dec_val(unsigned_body(s@)),
{
    let start: usize = if first_char_is(s, '+') {
        1
    } else {
        0
    };
    proof {
        if start == 1 {
            assert(s@.skip(1) =~= unsigned_body(s@));
        } else {
            assert(s@.skip(0) =~= unsigned_body(s@));
        }
    }
    match parse_digits(s, start) {
        None => None,
        Some(v) => Some(v as u32),
    }
}

/// Parses a whole token as a `u8`: optional `+`, then digits, value at most
/// `255`.  Returns the value exactly when the token has that shape.
pub fn parse_u8(s: &str) -> (r: Option<u8>)
    ensures
        r is Some <==> is_dec_u8(s@),
        r is Some ==> r->0 == dec_val(unsigned_body(s@)),
{
    match parse_u32(s) {
        None => None,
        Some(v) => if v <= 255 {
            Some(v as u8)
        } else {
            None
        },
    }
}

/// Parses a whole token as an `i32`: optional `+` or `-`, then digits, value
/// in range.  Returns the value exactly when the token has that shape.
pub fn parse_i32(s: &str) -> (r: Option<i32>)
    ensures
        r is Some <==> is_dec_i32(s@),
        r is Some ==> r->0 == signed_val(s@),
{
    let negative = first_char_is(s, '-');
    let start: usize = if negative || first_char_is(s, '+') {
        1
    } else {
        0
    };
    proof {
        if start == 1 {
            assert(s@.skip(1) =~= signed_body(s@));
        } else {
            assert(s@.skip(0) =~= signed_body(s@));
        }
    }
    match parse_digits(s, start) {
        None => None,
        Some(v) => {
            if negative {
                if v <= 0x8000_0000 {
                    if v == 0x8000_0000 {
                        Some(i32::MIN)
                    } else {
                        Some(-(v as i32))
                    }
                } else {
                    None
                }
            } else {
                if v <= 0x7fff_ffff {
                    Some(v as i32)
                } else {
                    None
                }
            }
        },
    }
}

} // verus!
