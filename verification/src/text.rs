//! Text helpers: decimal rendering and parsing of integers, and small
//! string utilities used by the parser and the statement renderer.

use vstd::prelude::*;

use crate::expression::Number;
use crate::fp::{fp_of_text, parse_bits};

verus! {

/// An ASCII whitespace character.
pub open spec fn is_space_char(c: char) -> bool {
    c == ' ' || c == '\t' || c == '\r' || c == '\n'
}

/// An ASCII decimal digit.
pub open spec fn is_digit_char(c: char) -> bool {
    '0' <= c && c <= '9'
}

/// The digit character for a value below ten.
pub open spec fn digit_char(d: int) -> char {
    seq!['0', '1', '2', '3', '4', '5', '6', '7', '8', '9'][d]
}

/// The decimal text of a natural number, most significant digit first.
pub open spec fn nat_text(n: nat) -> Seq<char>
    decreases n,
{
    if n < 10 {
        seq![digit_char(n as int)]
    } else {
        nat_text(n / 10).push(digit_char((n % 10) as int))
    }
}

/// The decimal text of an integer: a minus sign before the magnitude when
/// the value is negative.
pub open spec fn int_text(i: int) -> Seq<char> {
    if i < 0 {
        seq!['-'] + nat_text((-i) as nat)
    } else {
        nat_text(i as nat)
    }
}

/// The value of a sequence of decimal digits, most significant first.
pub open spec fn dec_val(s: Seq<char>) -> int
    decreases s.len(),
{
    if s.len() == 0 {
        0
    } else {
        dec_val(s.drop_last()) * 10 + (s.last() as int - '0' as int)
    }
}

/// Every character of `s` is a decimal digit.
pub open spec fn all_digits(s: Seq<char>) -> bool {
    forall|j: int| 0 <= j < s.len() ==> is_digit_char(#[trigger] s[j])
}

proof fn lemma_dec_val_nonneg(s: Seq<char>)
    requires
        all_digits(s),
    ensures
        dec_val(s) >= 0,
    decreases s.len(),
{
    if s.len() > 0 {
        assert(all_digits(s.drop_last()));
        lemma_dec_val_nonneg(s.drop_last());
    }
}

proof fn lemma_dec_val_prefix(s: Seq<char>, i: int)
    requires
        all_digits(s),
        0 <= i <= s.len(),
    ensures
        dec_val(s.subrange(0, i)) <= dec_val(s),
    decreases s.len() - i,
{
    if i == s.len() {
        assert(s.subrange(0, i) =~= s);
    } else {
        let p = s.subrange(0, i);
        let q = s.subrange(0, i + 1);
        assert(q.drop_last() =~= p);
        assert(all_digits(p));
        lemma_dec_val_nonneg(p);
        lemma_dec_val_prefix(s, i + 1);
    }
}

/// The string for a single digit value.
fn digit_str(d: u32) -> (r: &'static str)
    requires
        d < 10,
    ensures
        r@ =~= seq![digit_char(d as int)],
{
    proof {
        reveal_strlit("0");
        reveal_strlit("1");
        reveal_strlit("2");
        reveal_strlit("3");
        reveal_strlit("4");
        reveal_strlit("5");
        reveal_strlit("6");
        reveal_strlit("7");
        reveal_strlit("8");
        reveal_strlit("9");
    }
    match d {
        0 => "0",
        1 => "1",
        2 => "2",
        3 => "3",
        4 => "4",
        5 => "5",
        6 => "6",
        7 => "7",
        8 => "8",
        _ => "9",
    }
}

/// The decimal text of `n`.
pub fn nat_to_string(n: u32) -> (s: String)
    ensures
        s@ == nat_text(n as nat),
    decreases n,
{
    if n < 10 {
        digit_str(n).to_owned()
    } else {
        let mut s = nat_to_string(n / 10);
        s.append(digit_str(n % 10));
        proof {
            assert(s@ =~= nat_text((n / 10) as nat).push(digit_char((n % 10) as int)));
        }
        s
    }
}

/// The decimal text of `i`, with a minus sign when negative.
pub fn int_to_string(i: i32) -> (s: String)
    ensures
        s@ == int_text(i as int),
{
    if i >= 0 {
        nat_to_string(i as u32)
    } else {
        let mag: u32 = (-(i as i64)) as u32;
        let mut s = "-".to_owned();
        let digits = nat_to_string(mag);
        s.append(digits.as_str());
        proof {
            reveal_strlit("-");
            assert(s@ =~= seq!['-'] + nat_text(mag as nat));
        }
        s
    }
}

/// Whether two string slices hold the same characters.
pub fn str_eq(a: &str, b: &str) -> (r: bool)
    ensures
        r == (a@ == b@),
{
    let alen = a.unicode_len();
    let blen = b.unicode_len();
    if alen != blen {
        return false;
    }
    let mut i: usize = 0;
    while i < alen
        invariant
            i <= alen,
            alen == a@.len(),
            alen == blen,
            blen == b@.len(),
            forall|j: int| 0 <= j < i ==> a@[j] == b@[j],
        decreases alen - i,
    {
        if a.get_char(i) != b.get_char(i) {
            return false;
        }
        i = i + 1;
    }
    proof {
        assert(a@ =~= b@);
    }
    true
}

/// Relies on `String::push`: appends one character at the end.
#[verifier::external_body]
pub(crate) fn push_char(s: &mut String, c: char)
    ensures
        final(s)@ == old(s)@.push(c),
{
    s.push(c);
}

/// The value of a run of decimal digits, when it is non-empty and fits an
/// `i32`; `None` otherwise, as an overlong or empty run fails to parse.
pub fn parse_digit_run(s: &str) -> (r: Option<i32>)
    requires
        all_digits(s@),
    ensures
        match r {
            Some(v) => s@.len() > 0 && dec_val(s@) <= i32::MAX && v as int == dec_val(s@),
            None => s@.len() == 0 || dec_val(s@) > i32::MAX,
        },
{
    let len = s.unicode_len();
    if len == 0 {
        return None;
    }
    let mut acc: u64 = 0;
    let mut i: usize = 0;
    while i < len
        invariant
            0 < len == s@.len(),
            i <= len,
            all_digits(s@),
            acc as int == dec_val(s@.subrange(0, i as int)),
            acc <= i32::MAX,
        decreases len - i,
    {
        let c = s.get_char(i);
        let d = (c as u32) - ('0' as u32);
        acc = acc * 10 + d as u64;
        proof {
            assert(s@.subrange(0, i + 1).drop_last() =~= s@.subrange(0, i as int));
        }
        i = i + 1;
        if acc > 0x7fff_ffff {
            proof {
                lemma_dec_val_prefix(s@, i as int);
            }
            return None;
        }
    }
    proof {
        assert(s@.subrange(0, len as int) =~= s@);
    }
    Some(acc as i32)
}

/// `s` without leading whitespace.
pub open spec fn trim_left(s: Seq<char>) -> Seq<char>
    decreases s.len(),
{
    if s.len() > 0 && is_space_char(s[0]) {
        trim_left(s.drop_first())
    } else {
        s
    }
}

/// `s` without trailing whitespace.
pub open spec fn trim_right(s: Seq<char>) -> Seq<char>
    decreases s.len(),
{
    if s.len() > 0 && is_space_char(s.last()) {
        trim_right(s.drop_last())
    } else {
        s
    }
}

/// `s` without surrounding whitespace.
pub open spec fn trim_of(s: Seq<char>) -> Seq<char> {
    trim_right(trim_left(s))
}

/// The digit run of integer text: what follows an optional sign.
pub open spec fn int_digits(t: Seq<char>) -> Seq<char> {
    if t.len() > 0 && (t[0] == '-' || t[0] == '+') {
        t.drop_first()
    } else {
        t
    }
}

/// Whether integer text carries a minus sign.
pub open spec fn int_negative(t: Seq<char>) -> bool {
    t.len() > 0 && t[0] == '-'
}

/// Whether `t` is decimal integer text an `i32` accepts: an optional sign
/// before a non-empty digit run whose value fits.
pub open spec fn valid_i32_text(t: Seq<char>) -> bool {
    let d = int_digits(t);
    d.len() > 0 && all_digits(d) && (if int_negative(t) {
        dec_val(d) <= 0x8000_0000
    } else {
        dec_val(d) <= 0x7fff_ffff
    })
}

/// The value of valid integer text.
pub open spec fn i32_text_val(t: Seq<char>) -> int {
    if int_negative(t) {
        -dec_val(int_digits(t))
    } else {
        dec_val(int_digits(t))
    }
}

/// The number denoted by one input line: surrounding whitespace ignored,
/// integer text first, float text as the fallback.
pub open spec fn input_number(s: Seq<char>) -> Option<Number> {
    let t = trim_of(s);
    if valid_i32_text(t) {
        Some(Number::Integer(i32_text_val(t) as i32))
    } else {
        match fp_of_text(t) {
            Some(b) => Some(Number::Float(b)),
            None => None,
        }
    }
}

/// Parse one input line as a number: an integer when the trimmed text is
/// integer text, else a float, else nothing.
pub fn parse_input_number(line: &str) -> (r: Option<Number>)
    ensures
        r == input_number(line@),
{
    let len = line.unicode_len();
    proof {
        assert(line@.subrange(0, len as int) =~= line@);
    }
    let mut start: usize = 0;
    while start < len && is_space(line.get_char(start))
        invariant
            start <= len == line@.len(),
            trim_left(line@) == trim_left(line@.subrange(start as int, len as int)),
        decreases len - start,
    {
        proof {
            assert(line@.subrange(start as int, len as int).drop_first() =~= line@.subrange(
                start + 1,
                len as int,
            ));
        }
        start = start + 1;
    }
    proof {
        assert(trim_left(line@) =~= line@.subrange(start as int, len as int));
    }
    let mut end: usize = len;
    while end > start && is_space(line.get_char(end - 1))
        invariant
            start <= end <= len == line@.len(),
            trim_left(line@) == line@.subrange(start as int, len as int),
            trim_of(line@) == trim_right(line@.subrange(start as int, end as int)),
        decreases end,
    {
        proof {
            assert(line@.subrange(start as int, end as int).drop_last() =~= line@.subrange(
                start as int,
                end - 1,
            ));
        }
        end = end - 1;
    }
    let core = line.substring_char(start, end);
    proof {
        assert(trim_of(line@) =~= line@.subrange(start as int, end as int));
        assert(core@ == trim_of(line@));
    }
    let clen = core.unicode_len();
    // The integer attempt: an optional sign, then digits within range.
    let mut neg = false;
    let mut di: usize = 0;
    if clen > 0 {
        let c0 = core.get_char(0);
        if c0 == '-' {
            neg = true;
            di = 1;
        } else if c0 == '+' {
            di = 1;
        }
    }
    let ghost d = int_digits(core@);
    proof {
        assert(d =~= core@.subrange(di as int, clen as int));
        assert(neg == int_negative(core@));
    }
    let limit: u64 = if neg {
        0x8000_0000
    } else {
        0x7fff_ffff
    };
    if di < clen {
        let mut acc: u64 = 0;
        let mut i = di;
        let mut ok = true;
        while i < clen && ok
            invariant
                di <= i <= clen == core@.len(),
                di <= 1,
                d == int_digits(core@),
                d =~= core@.subrange(di as int, clen as int),
                neg == int_negative(core@),
                limit == if neg {
                    0x8000_0000u64
                } else {
                    0x7fff_ffffu64
                },
                ok ==> forall|j: int| di <= j < i ==> is_digit_char(#[trigger] core@[j]),
                ok ==> acc as int == dec_val(core@.subrange(di as int, i as int)),
                ok ==> acc <= limit,
                !ok ==> !valid_i32_text(core@),
            decreases clen - i + (if ok {
                1int
            } else {
                0int
            }),
        {
            let c = core.get_char(i);
            let cu = c as u32;
            if cu < 48 || cu > 57 {
                proof {
                    assert(!is_digit_char(core@[i as int]));
                    assert(d[i - di] == core@[i as int]);
                    assert(!all_digits(d));
                }
                ok = false;
            } else {
                acc = acc * 10 + (cu - 48) as u64;
                proof {
                    assert(core@.subrange(di as int, i + 1).drop_last() =~= core@.subrange(
                        di as int,
                        i as int,
                    ));
                    assert(core@.subrange(di as int, i + 1).last() == core@[i as int]);
                    assert(core@[i as int] as int - '0' as int == cu - 48);
                }
                i = i + 1;
                if acc > limit {
                    proof {
                        if all_digits(d) {
                            lemma_dec_val_prefix(d, i - di);
                            assert(d.subrange(0, i - di) =~= core@.subrange(di as int, i as int));
                        }
                    }
                    ok = false;
                }
            }
        }
        if ok {
            proof {
                assert(core@.subrange(di as int, clen as int) =~= d);
                assert(valid_i32_text(core@));
            }
            if neg {
                return Some(Number::Integer((-(acc as i64)) as i32));
            }
            return Some(Number::Integer(acc as i32));
        }
    } else {
        proof {
            assert(d.len() == 0);
        }
    }
    // The float fallback.
    match parse_bits(core) {
        Some(b) => Some(Number::Float(b)),
        None => None,
    }
}

/// Whether every character of the slice is a decimal digit.
pub fn check_digits(s: &str) -> (r: bool)
    ensures
        r == all_digits(s@),
{
    let len = s.unicode_len();
    let mut i: usize = 0;
    while i < len
        invariant
            i <= len == s@.len(),
            forall|j: int| 0 <= j < i ==> is_digit_char(#[trigger] s@[j]),
        decreases len - i,
    {
        let c = s.get_char(i);
        if c < '0' || c > '9' {
            return false;
        }
        i = i + 1;
    }
    true
}

/// Whether the character is ASCII whitespace.
pub fn is_space(c: char) -> (r: bool)
    ensures
        r == is_space_char(c),
{
    c == ' ' || c == '\t' || c == '\r' || c == '\n'
}

} // verus!
