//! Decimal rendering of integers and syntactic checks for numeric strings:
//! unsigned integer parsing as `u64::from_str` accepts it, and the literal
//! grammar that `f64::from_str` accepts.

use vstd::prelude::*;

use crate::strings::chars_to_string;
use crate::strings::lower_seq;
use crate::strings::subvec;

verus! {

/// The character for a single decimal digit value.
pub open spec fn digit_char(d: int) -> char {
    (((48 + d) as u8) as char)
}

/// Decimal representation of a natural number, most significant digit first.
pub open spec fn dec_digits(n: nat) -> Seq<char>
    decreases n,
{
    if n < 10 {
        seq![digit_char(n as int)]
    } else {
        dec_digits(n / 10) + seq![digit_char((n % 10) as int)]
    }
}

/// Decimal representation of an integer, with a leading minus sign when
/// negative.
pub open spec fn dec_int(i: int) -> Seq<char> {
    if i < 0 {
        seq!['-'] + dec_digits((-i) as nat)
    } else {
        dec_digits(i as nat)
    }
}

fn u128_to_chars(n: u128) -> (r: Vec<char>)
    ensures
        r@ == dec_digits(n as nat),
    decreases n,
{
    if n < 10 {
        let d: u8 = (48 + (n as u8));
        let mut r: Vec<char> = Vec::new();
        r.push(d as char);
        proof {
            assert(r@ =~= dec_digits(n as nat));
        }
        r
    } else {
        let mut r = u128_to_chars(n / 10);
        let d: u8 = (48 + ((n % 10) as u8));
        r.push(d as char);
        proof {
            assert(r@ =~= dec_digits(n as nat));
        }
        r
    }
}

/// Decimal text of an unsigned number.
pub fn u128_to_string(n: u128) -> (r: String)
    ensures
        r@ == dec_digits(n as nat),
{
    let v = u128_to_chars(n);
    chars_to_string(&v)
}

pub fn usize_to_string(n: usize) -> (r: String)
    ensures
        r@ == dec_digits(n as nat),
{
    u128_to_string(n as u128)
}

pub fn u16_to_string(n: u16) -> (r: String)
    ensures
        r@ == dec_digits(n as nat),
{
    u128_to_string(n as u128)
}

/// Decimal text of a signed number.
pub fn i128_to_string(n: i128) -> (r: String)
    ensures
        r@ == dec_int(n as int),
{
    if n >= 0 {
        u128_to_string(n as u128)
    } else {
        let mag: u128 = ((-(n + 1)) as u128) + 1;
        proof {
            assert(mag as int == -(n as int));
        }
        let v = u128_to_chars(mag);
        let mut r: Vec<char> = Vec::new();
        r.push('-');
        let mut w = v;
        r.append(&mut w);
        proof {
            assert(r@ =~= dec_int(n as int));
        }
        chars_to_string(&r)
    }
}

pub open spec fn is_digit(c: char) -> bool {
    48 <= c as u32 && c as u32 <= 57
}

pub fn char_is_digit(c: char) -> (r: bool)
    ensures
        r == is_digit(c),
{
    48 <= c as u32 && c as u32 <= 57
}

pub open spec fn digit_val(c: char) -> int {
    c as u32 - 48
}

pub open spec fn all_digits(s: Seq<char>) -> bool {
    forall|i: int| 0 <= i < s.len() ==> is_digit(#[trigger] s[i])
}

/// Numeric value of a digit string, ignoring overflow.
pub open spec fn digits_value(s: Seq<char>) -> int
    decreases s.len(),
{
    if s.len() == 0 {
        0
    } else {
        digits_value(s.subrange(0, s.len() - 1)) * 10 + digit_val(s[s.len() - 1])
    }
}

pub proof fn lemma_digits_value_nonneg(s: Seq<char>)
    requires
        all_digits(s),
    ensures
        digits_value(s) >= 0,
    decreases s.len(),
{
    if s.len() > 0 {
        let p = s.subrange(0, s.len() - 1);
        assert(all_digits(p));
        lemma_digits_value_nonneg(p);
    }
}

proof fn lemma_digits_value_prefix(s: Seq<char>, n: int)
    requires
        all_digits(s),
        0 <= n <= s.len(),
    ensures
        digits_value(s) >= digits_value(s.subrange(0, n)),
    decreases s.len() - n,
{
    if n < s.len() {
        lemma_digits_value_prefix(s, n + 1);
        let p = s.subrange(0, n);
        let q = s.subrange(0, n + 1);
        assert(q.subrange(0, q.len() - 1) =~= p);
        assert(all_digits(p));
        lemma_digits_value_nonneg(p);
        assert(digits_value(q) == digits_value(p) * 10 + digit_val(s[n]));
        assert(digits_value(p) * 10 >= digits_value(p)) by (nonlinear_arith)
            requires
                digits_value(p) >= 0,
        ;
    } else {
        assert(s.subrange(0, n) =~= s);
    }
}

/// The value a digit string denotes, as `u64::from_str` computes it: a
/// possibly `+`-signed non-empty digit string whose value fits in a `u64`.
pub open spec fn spec_parse_u64(s: Seq<char>) -> Option<u64> {
    let t = if s.len() > 0 && s[0] == '+' {
        s.subrange(1, s.len() as int)
    } else {
        s
    };
    if t.len() > 0 && all_digits(t) && digits_value(t) <= u64::MAX {
        Some(digits_value(t) as u64)
    } else {
        None
    }
}

fn parse_digits_u64(v: &Vec<char>) -> (r: Option<u64>)
    requires
        v@.len() > 0,
    ensures
        match r {
            Some(x) => all_digits(v@) && digits_value(v@) == x as int,
            None => !(all_digits(v@) && digits_value(v@) <= u64::MAX),
        },
{
    let mut acc: u64 = 0;
    let mut i: usize = 0;
    while i < v.len()
        invariant
            i <= v@.len(),
            all_digits(v@.subrange(0, i as int)),
            acc as int == digits_value(v@.subrange(0, i as int)),
        decreases v@.len() - i,
    {
        let c = v[i];
        if !char_is_digit(c) {
            proof {
                assert(!all_digits(v@));
            }
            return None;
        }
        let d: u64 = ((c as u32) as u64) - 48;
        if acc > (u64::MAX - d) / 10 {
            proof {
                let p = v@.subrange(0, i as int);
                let q = v@.subrange(0, i + 1);
                assert(q.subrange(0, q.len() - 1) =~= p);
                assert(digits_value(q) == (acc as int) * 10 + digit_val(c));
                assert((acc as int) * 10 + d as int > u64::MAX as int) by (nonlinear_arith)
                    requires
                        acc as int > (u64::MAX as int - d as int) / 10,
                        0 <= d as int <= 9,
                        d as int == (u64::MAX as int - (u64::MAX as int - d as int) % 10) % 10
                            || true,
                ;
                if all_digits(v@) {
                    lemma_digits_value_prefix(v@, i + 1);
                    assert(digits_value(v@) >= digits_value(q));
                }
            }
            return None;
        }
        proof {
            assert((acc as int) * 10 + d as int <= u64::MAX as int) by (nonlinear_arith)
                requires
                    0 <= acc as int <= (u64::MAX as int - d as int) / 10,
                    0 <= d as int <= 9,
            ;
        }
        acc = acc * 10 + d;
        i += 1;
        proof {
            let p = v@.subrange(0, i - 1);
            let q = v@.subrange(0, i as int);
            assert(q.subrange(0, q.len() - 1) =~= p);
            assert(forall|j: int| 0 <= j < i ==> is_digit(#[trigger] q[j]));
        }
    }
    proof {
        assert(v@.subrange(0, v@.len() as int) =~= v@);
    }
    Some(acc)
}

/// Parses an unsigned decimal integer exactly as `u64::from_str` does.
pub fn parse_u64_chars(v: &Vec<char>) -> (r: Option<u64>)
    ensures
        r == spec_parse_u64(v@),
{
    if v.len() == 0 {
        return None;
    }
    if v[0] == '+' {
        if v.len() == 1 {
            return None;
        }
        let w = subvec(v, 1, v.len());
        parse_digits_u64(&w)
    } else {
        let r = parse_digits_u64(v);
        proof {
            if v@[0] == '+' {
            } else {
                assert(spec_parse_u64(v@) == if v@.len() > 0 && all_digits(v@) && digits_value(v@)
                    <= u64::MAX {
                    Some(digits_value(v@) as u64)
                } else {
                    None::<u64>
                });
            }
        }
        r
    }
}

/// Whether the string denotes an unsigned integer in `u16` range, as
/// `u16::from_str` accepts it.
pub open spec fn spec_parse_u16(s: Seq<char>) -> Option<u16> {
    match spec_parse_u64(s) {
        Some(x) => if x <= u16::MAX {
            Some(x as u16)
        } else {
            None
        },
        None => None,
    }
}

pub fn parse_u16_chars(v: &Vec<char>) -> (r: Option<u16>)
    ensures
        r == spec_parse_u16(v@),
{
    match parse_u64_chars(v) {
        Some(x) => if x <= 65535 {
            Some(x as u16)
        } else {
            None
        },
        None => None,
    }
}

/// First index at or after `from` holding a non-digit, or the length.
pub open spec fn scan_digits(s: Seq<char>, from: int) -> int
    decreases s.len() - from,
{
    if from < 0 || from >= s.len() || !is_digit(s[from]) {
        from
    } else {
        scan_digits(s, from + 1)
    }
}

proof fn lemma_scan_digits(s: Seq<char>, from: int)
    requires
        0 <= from <= s.len(),
    ensures
        from <= scan_digits(s, from) <= s.len(),
    decreases s.len() - from,
{
    if from < s.len() && is_digit(s[from]) {
        lemma_scan_digits(s, from + 1);
    }
}

pub proof fn lemma_scan_digits_range(s: Seq<char>, from: int)
    requires
        0 <= from <= s.len(),
    ensures
        forall|k: int| from <= k < scan_digits(s, from) ==> is_digit(#[trigger] s[k]),
    decreases s.len() - from,
{
    if from < s.len() && is_digit(s[from]) {
        lemma_scan_digits(s, from + 1);
        lemma_scan_digits_range(s, from + 1);
    }
}

pub fn scan_digits_vec(v: &Vec<char>, from: usize) -> (r: usize)
    requires
        from <= v@.len(),
    ensures
        r as int == scan_digits(v@, from as int),
        from <= r <= v@.len(),
    decreases v@.len() - from,
{
    proof {
        lemma_scan_digits(v@, from as int);
    }
    if from < v.len() && char_is_digit(v[from]) {
        scan_digits_vec(v, from + 1)
    } else {
        from
    }
}

/// The exponent part of a float literal starting at `from`: `e`/`E`, an
/// optional sign, and at least one digit reaching the end of the string.
pub open spec fn valid_exponent(t: Seq<char>, from: int) -> bool {
    if from == t.len() {
        true
    } else if from < t.len() && (t[from] == 'e' || t[from] == 'E') {
        let p = if from + 1 < t.len() && (t[from + 1] == '+' || t[from + 1] == '-') {
            from + 2
        } else {
            from + 1
        };
        p < t.len() && scan_digits(t, p) == t.len()
    } else {
        false
    }
}

/// An unsigned decimal float literal: digits with at most one point, at least
/// one digit in the mantissa, and an optional exponent.
pub open spec fn is_dec_number(t: Seq<char>) -> bool {
    let a = scan_digits(t, 0);
    if a < t.len() && t[a] == '.' {
        let b = scan_digits(t, a + 1);
        (a + (b - a - 1)) >= 1 && valid_exponent(t, b)
    } else {
        a >= 1 && valid_exponent(t, a)
    }
}

/// The literal grammar accepted by `f64::from_str`: an optional sign, then
/// `inf`, `infinity` or `nan` in any case, or a decimal number.
pub open spec fn is_f64_literal(s: Seq<char>) -> bool {
    let t = if s.len() > 0 && (s[0] == '+' || s[0] == '-') {
        s.subrange(1, s.len() as int)
    } else {
        s
    };
    let l = lower_seq(t);
    l == seq!['i', 'n', 'f'] || l == seq!['i', 'n', 'f', 'i', 'n', 'i', 't', 'y'] || l == seq![
        'n',
        'a',
        'n',
    ] || is_dec_number(t)
}

fn is_dec_number_vec(t: &Vec<char>) -> (r: bool)
    ensures
        r == is_dec_number(t@),
{
    proof {
        lemma_scan_digits(t@, 0);
    }
    let a = scan_digits_vec(t, 0);
    if a < t.len() && t[a] == '.' {
        let b = scan_digits_vec(t, a + 1);
        (a + (b - a - 1)) >= 1 && valid_exponent_vec(t, b)
    } else {
        a >= 1 && valid_exponent_vec(t, a)
    }
}

fn valid_exponent_vec(t: &Vec<char>, from: usize) -> (r: bool)
    requires
        from <= t@.len(),
    ensures
        r == valid_exponent(t@, from as int),
{
    if from == t.len() {
        true
    } else if t[from] == 'e' || t[from] == 'E' {
        let p: usize = if from + 1 < t.len() && (t[from + 1] == '+' || t[from + 1] == '-') {
            from + 2
        } else {
            from + 1
        };
        if p < t.len() {
            let c = scan_digits_vec(t, p);
            c == t.len()
        } else {
            false
        }
    } else {
        false
    }
}

/// Whether `f64::from_str` accepts the string.
pub fn is_f64_literal_chars(v: &Vec<char>) -> (r: bool)
    ensures
        r == is_f64_literal(v@),
{
    let t = if v.len() > 0 && (v[0] == '+' || v[0] == '-') {
        subvec(v, 1, v.len())
    } else {
        v.clone()
    };
    proof {
        if !(v@.len() > 0 && (v@[0] == '+' || v@[0] == '-')) {
            assert(t@ =~= v@);
        }
    }
    let l = crate::strings::lower_chars(&t);
    let inf: Vec<char> = vec!['i', 'n', 'f'];
    let infinity: Vec<char> = vec!['i', 'n', 'f', 'i', 'n', 'i', 't', 'y'];
    let nan: Vec<char> = vec!['n', 'a', 'n'];
    proof {
        assert(inf@ =~= seq!['i', 'n', 'f']);
        assert(infinity@ =~= seq!['i', 'n', 'f', 'i', 'n', 'i', 't', 'y']);
        assert(nan@ =~= seq!['n', 'a', 'n']);
    }
    if crate::strings::eq_chars(&l, &inf) || crate::strings::eq_chars(&l, &infinity)
        || crate::strings::eq_chars(&l, &nan) {
        true
    } else {
        is_dec_number_vec(&t)
    }
}

} // verus!
