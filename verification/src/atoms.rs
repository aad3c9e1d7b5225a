//! Atom classification: a token's text to an atom, in order, first match
//! wins. Text wrapped in `"…"` is a string (a `"` that never closes is a
//! malformed literal); text starting with `:` is a keyword; text that reads
//! as a base-10 integer within machine range is an integer; text that reads
//! as a decimal literal whose exact numerator and power-of-ten denominator
//! fit a machine word is a rational; anything else is a symbol.

use vstd::prelude::*;
use crate::errors::{ErrorModel, RispError};
use crate::rational::{Rational, canon, signed};
use crate::value::{Atom, AtomModel, wf_atom};

verus! {

/// The largest integer-token magnitude: positive tokens up to `2^63 - 1`,
/// negative ones up to `2^63`, mirroring a signed 64-bit word.
pub const INT_POS_MAG: u64 = 0x7fff_ffff_ffff_ffff;

pub const INT_NEG_MAG: u64 = 0x8000_0000_0000_0000;

pub open spec fn is_digit(c: char) -> bool {
    '0' <= c && c <= '9'
}

pub open spec fn digit_val(c: char) -> nat {
    (c as u32 - '0' as u32) as nat
}

/// The value of a digit string, most significant digit first.
pub open spec fn digits_val(t: Seq<char>) -> nat
    decreases t.len(),
{
    if t.len() == 0 {
        0
    } else {
        digits_val(t.drop_last()) * 10 + digit_val(t.last())
    }
}

pub open spec fn all_digits(t: Seq<char>) -> bool {
    forall|i: int| 0 <= i < t.len() ==> is_digit(#[trigger] t[i])
}

/// Ten to the `k`.
pub open spec fn pow10(k: nat) -> nat
    decreases k,
{
    if k == 0 {
        1
    } else {
        10 * pow10((k - 1) as nat)
    }
}

/// The position of the first `.` at or after `i`, or the length if none.
pub open spec fn find_dot(t: Seq<char>, i: int) -> int
    recommends
        0 <= i <= t.len(),
    decreases t.len() - i,
    when 0 <= i <= t.len()
{
    if i < t.len() {
        if t[i] == '.' {
            i
        } else {
            find_dot(t, i + 1)
        }
    } else {
        i
    }
}

pub open spec fn has_sign(t: Seq<char>) -> bool {
    t.len() > 0 && (t[0] == '+' || t[0] == '-')
}

pub open spec fn is_neg(t: Seq<char>) -> bool {
    t.len() > 0 && t[0] == '-'
}

/// The token with its sign character, if any, removed.
pub open spec fn unsigned_part(t: Seq<char>) -> Seq<char> {
    if has_sign(t) {
        t.drop_first()
    } else {
        t
    }
}

/// A base-10 integer token: an optional sign, then digits, within the
/// magnitude a signed 64-bit word can hold.
pub open spec fn is_int_tok(t: Seq<char>) -> bool {
    let u = unsigned_part(t);
    &&& u.len() > 0
    &&& all_digits(u)
    &&& digits_val(u) <= if is_neg(t) {
        INT_NEG_MAG as nat
    } else {
        INT_POS_MAG as nat
    }
}

/// The integer part of a decimal token's unsigned text.
pub open spec fn dec_int_part(u: Seq<char>) -> Seq<char> {
    u.subrange(0, find_dot(u, 0))
}

/// The fractional part of a decimal token's unsigned text.
pub open spec fn dec_frac_part(u: Seq<char>) -> Seq<char> {
    if find_dot(u, 0) < u.len() {
        u.subrange(find_dot(u, 0) + 1, u.len() as int)
    } else {
        Seq::empty()
    }
}

/// The exact numerator of a decimal token's unsigned text.
pub open spec fn dec_num(u: Seq<char>) -> nat {
    digits_val(dec_int_part(u)) * pow10(dec_frac_part(u).len()) + digits_val(dec_frac_part(u))
}

/// The power-of-ten denominator of a decimal token's unsigned text.
pub open spec fn dec_den(u: Seq<char>) -> nat {
    pow10(dec_frac_part(u).len())
}

/// A decimal token: an optional sign, then digits with at most one `.` and
/// at least one digit, whose exact numerator and denominator fit a machine
/// word. Digit strings too long for that are not numbers and fall through
/// to symbols.
pub open spec fn is_dec_tok(t: Seq<char>) -> bool {
    let u = unsigned_part(t);
    &&& u.len() > 0
    &&& all_digits(dec_int_part(u))
    &&& all_digits(dec_frac_part(u))
    &&& dec_int_part(u).len() + dec_frac_part(u).len() >= 1
    &&& dec_num(u) <= u64::MAX as nat
    &&& dec_den(u) <= u64::MAX as nat
}

/// A well-formed string token: wrapped in `"…"` with no internal `"`.
pub open spec fn is_string_tok(t: Seq<char>) -> bool {
    &&& t.len() >= 2
    &&& t[0] == '"'
    &&& t.last() == '"'
    &&& forall|i: int| 1 <= i < t.len() - 1 ==> t[i] != '"'
}

/// Classification of one token's text into an atom, first match wins.
pub open spec fn spec_classify(t: Seq<char>) -> Result<AtomModel, ErrorModel> {
    if t.len() > 0 && t[0] == '"' {
        if is_string_tok(t) {
            Ok(AtomModel::Str(t.subrange(1, t.len() - 1)))
        } else {
            Err(ErrorModel::TokenizeMalformedLiteral(t))
        }
    } else if t.len() > 0 && t[0] == ':' {
        Ok(AtomModel::Keyword(t))
    } else if is_int_tok(t) {
        Ok(AtomModel::Number(signed(is_neg(t), digits_val(unsigned_part(t))), 1))
    } else if is_dec_tok(t) {
        let p = canon(signed(is_neg(t), dec_num(unsigned_part(t))), dec_den(unsigned_part(t)) as int);
        Ok(AtomModel::Number(p.0, p.1))
    } else {
        Ok(AtomModel::Symbol(t))
    }
}

/// Reading one more digit multiplies by ten and adds it.
pub proof fn lemma_digits_val_step(t: Seq<char>, i: int)
    requires
        0 <= i < t.len(),
    ensures
        digits_val(t.take(i + 1)) == digits_val(t.take(i)) * 10 + digit_val(t[i]),
{
    assert(t.take(i + 1).drop_last() =~= t.take(i));
    assert(t.take(i + 1).last() == t[i]);
}

/// A prefix of a digit string never exceeds the whole string's value.
pub proof fn lemma_digits_val_prefix_le(t: Seq<char>, i: int)
    requires
        0 <= i <= t.len(),
    ensures
        digits_val(t.take(i)) <= digits_val(t),
    decreases t.len() - i,
{
    if i == t.len() {
        assert(t.take(i) =~= t);
    } else {
        lemma_digits_val_step(t, i);
        assert(digits_val(t.take(i)) <= digits_val(t.take(i)) * 10 + digit_val(t[i]))
            by (nonlinear_arith);
        lemma_digits_val_prefix_le(t, i + 1);
    }
}

/// Ten to the `k` grows with `k`.
pub proof fn lemma_pow10_mono(j: nat, k: nat)
    requires
        j <= k,
    ensures
        pow10(j) <= pow10(k),
        pow10(j) >= 1,
    decreases k,
{
    if j == k {
        if k > 0 {
            lemma_pow10_mono((j - 1) as nat, (k - 1) as nat);
            assert(pow10((k - 1) as nat) <= 10 * pow10((k - 1) as nat)) by (nonlinear_arith)
                requires
                    pow10((k - 1) as nat) >= 0,
            ;
        }
    } else {
        lemma_pow10_mono(j, (k - 1) as nat);
        assert(pow10((k - 1) as nat) <= 10 * pow10((k - 1) as nat)) by (nonlinear_arith)
            requires
                pow10((k - 1) as nat) >= 0,
        ;
    }
}

/// A bounded position whose earlier characters are not dots and that sits
/// on a dot or at the end is where the first dot is found.
pub proof fn lemma_find_dot_is(t: Seq<char>, i: int, j: int)
    requires
        0 <= i <= j <= t.len(),
        forall|k: int| i <= k < j ==> (#[trigger] t[k]) != '.',
        j == t.len() || t[j] == '.',
    ensures
        find_dot(t, i) == j,
    decreases j - i,
{
    if i < j {
        lemma_find_dot_is(t, i + 1, j);
    }
}

/// Computes `a * b + c` on machine words, reporting overflow exactly.
fn mul_add_checked(a: u64, b: u64, c: u64) -> (r: Option<u64>)
    requires
        b >= 1,
    ensures
        match r {
            Some(v) => v as nat == a as nat * b as nat + c as nat,
            None => a as nat * b as nat + c as nat > u64::MAX as nat,
        },
{
    let q = (u64::MAX - c) / b;
    proof {
        vstd::arithmetic::div_mod::lemma_fundamental_div_mod((u64::MAX - c) as int, b as int);
        vstd::arithmetic::div_mod::lemma_mod_division_less_than_divisor(
            (u64::MAX - c) as int,
            b as int,
        );
    }
    let ghost rem = (u64::MAX - c) as int % b as int;
    if a > q {
        proof {
            assert(a as int * b as int + c > u64::MAX) by (nonlinear_arith)
                requires
                    a as int >= q as int + 1,
                    (u64::MAX - c) as int == b as int * q as int + rem,
                    0 <= rem < b as int,
                    b >= 1,
            ;
        }
        None
    } else {
        proof {
            assert(a as int * b as int + c <= u64::MAX) by (nonlinear_arith)
                requires
                    a as int <= q as int,
                    (u64::MAX - c) as int == b as int * q as int + rem,
                    0 <= rem,
                    b >= 1,
            ;
        }
        Some(a * b + c)
    }
}

/// True when every character of `s` in `[from, to)` is a digit.
fn scan_all_digits(s: &str, from: usize, to: usize) -> (b: bool)
    requires
        from <= to <= s@.len(),
    ensures
        b == all_digits(s@.subrange(from as int, to as int)),
{
    let ghost t = s@.subrange(from as int, to as int);
    let mut i = from;
    while i < to
        invariant
            from <= i <= to <= s@.len(),
            t == s@.subrange(from as int, to as int),
            forall|k: int| 0 <= k < i - from ==> is_digit(#[trigger] t[k]),
        decreases to - i,
    {
        let c = s.get_char(i);
        proof {
            assert(t[i - from] == c);
        }
        if !(c >= '0' && c <= '9') {
            return false;
        }
        i += 1;
    }
    true
}

/// The value of the digit run of `s` in `[from, to)`, or nothing when it
/// exceeds a machine word.
fn digits_to_u64(s: &str, from: usize, to: usize) -> (r: Option<u64>)
    requires
        from <= to <= s@.len(),
        all_digits(s@.subrange(from as int, to as int)),
    ensures
        match r {
            Some(v) => v as nat == digits_val(s@.subrange(from as int, to as int)),
            None => digits_val(s@.subrange(from as int, to as int)) > u64::MAX as nat,
        },
{
    let ghost t = s@.subrange(from as int, to as int);
    let mut acc: u64 = 0;
    let mut i = from;
    while i < to
        invariant
            from <= i <= to <= s@.len(),
            t == s@.subrange(from as int, to as int),
            all_digits(t),
            acc as nat == digits_val(t.take(i - from)),
        decreases to - i,
    {
        let c = s.get_char(i);
        proof {
            assert(t[i - from] == c);
            assert(is_digit(c));
        }
        let d = (c as u32 - '0' as u32) as u64;
        proof {
            assert(d as nat == digit_val(c));
            lemma_digits_val_step(t, i - from);
        }
        match mul_add_checked(acc, 10, d) {
            Some(v) => {
                acc = v;
            },
            None => {
                proof {
                    lemma_digits_val_prefix_le(t, i - from + 1);
                }
                return None;
            },
        }
        i += 1;
    }
    proof {
        assert(t.take(to - from) =~= t);
    }
    Some(acc)
}

/// Ten to the `k` on machine words, or nothing when it overflows.
fn pow10_u64(k: usize) -> (r: Option<u64>)
    ensures
        match r {
            Some(v) => v as nat == pow10(k as nat),
            None => pow10(k as nat) > u64::MAX as nat,
        },
{
    let mut acc: u64 = 1;
    let mut i: usize = 0;
    while i < k
        invariant
            0 <= i <= k,
            acc as nat == pow10(i as nat),
        decreases k - i,
    {
        match mul_add_checked(acc, 10, 0) {
            Some(v) => {
                acc = v;
            },
            None => {
                proof {
                    lemma_pow10_mono((i + 1) as nat, k as nat);
                    assert(pow10((i + 1) as nat) == 10 * pow10(i as nat));
                    assert(10 * pow10(i as nat) == pow10(i as nat) * 10 + 0) by (nonlinear_arith);
                }
                return None;
            },
        }
        proof {
            assert(pow10((i + 1) as nat) == 10 * pow10(i as nat));
            assert(10 * pow10(i as nat) == pow10(i as nat) * 10 + 0) by (nonlinear_arith);
        }
        i += 1;
    }
    Some(acc)
}

/// The position of the first `.` of `s` in `[from, to)`, or `to` if none.
fn scan_dot(s: &str, from: usize, to: usize) -> (j: usize)
    requires
        from <= to <= s@.len(),
    ensures
        from <= j <= to,
        j - from == find_dot(s@.subrange(from as int, to as int), 0),
        j < to ==> s@[j as int] == '.',
{
    let ghost t = s@.subrange(from as int, to as int);
    let mut i = from;
    while i < to && s.get_char(i) != '.'
        invariant
            from <= i <= to <= s@.len(),
            t == s@.subrange(from as int, to as int),
            forall|k: int| 0 <= k < i - from ==> (#[trigger] t[k]) != '.',
        decreases to - i,
    {
        proof {
            assert(t[i - from] == s@[i as int]);
        }
        i += 1;
    }
    proof {
        if i < to {
            assert(t[i - from] == s@[i as int]);
        }
        lemma_find_dot_is(t, 0, i - from);
    }
    i
}

impl Atom {
    /// Classifies one token's text into an atom: a string, keyword, number
    /// or symbol, or the malformed-literal error for an unclosed `"`.
    pub fn from_str(s: &str) -> (r: Result<Atom, RispError>)
        ensures
            match r {
                Ok(a) => spec_classify(s@) == Ok::<AtomModel, ErrorModel>(a@) && wf_atom(a),
                Err(e) => spec_classify(s@) == Err::<AtomModel, ErrorModel>(e@),
            },
    {
        let n = s.unicode_len();
        // String literals.
        if n > 0 && s.get_char(0) == '"' {
            if n >= 2 && s.get_char(n - 1) == '"' {
                let mut i: usize = 1;
                while i < n - 1
                    invariant
                        1 <= i <= n - 1,
                        n == s@.len(),
                        n >= 2,
                        s@[0] == '"',
                        s@[n - 1] == '"',
                        forall|k: int| 1 <= k < i ==> s@[k] != '"',
                    decreases n - i,
                {
                    if s.get_char(i) == '"' {
                        proof {
                            assert(!is_string_tok(s@)) by {
                                assert(s@[i as int] == '"');
                                assert(1 <= i as int && (i as int) < s@.len() - 1);
                            }
                        }
                        return Err(RispError::TokenizeMalformedLiteral(s.to_owned()));
                    }
                    i += 1;
                }
                proof {
                    assert(is_string_tok(s@));
                }
                return Ok(Atom::Str(s.substring_char(1, n - 1).to_owned()));
            } else {
                proof {
                    assert(!is_string_tok(s@));
                }
                return Err(RispError::TokenizeMalformedLiteral(s.to_owned()));
            }
        }
        // Keywords.
        if n > 0 && s.get_char(0) == ':' {
            return Ok(Atom::Keyword(s.to_owned()));
        }
        // Numbers: optional sign, then digits, with at most one dot.
        let ghost t = s@;
        let sign = n > 0 && (s.get_char(0) == '+' || s.get_char(0) == '-');
        let neg = n > 0 && s.get_char(0) == '-';
        let a: usize = if sign {
            1
        } else {
            0
        };
        proof {
            assert(unsigned_part(t) =~= t.subrange(a as int, n as int));
        }
        // Integers.
        if a < n && scan_all_digits(s, a, n) {
            if let Some(v) = digits_to_u64(s, a, n) {
                let bound = if neg {
                    INT_NEG_MAG
                } else {
                    INT_POS_MAG
                };
                if v <= bound {
                    return Ok(Atom::Number(Rational::from_integer(neg, v)));
                }
            }
        }
        // Decimals.
        if a < n {
            let dot = scan_dot(s, a, n);
            let ghost u = t.subrange(a as int, n as int);
            let frac_from = if dot < n {
                dot + 1
            } else {
                n
            };
            proof {
                assert(dec_int_part(u) =~= t.subrange(a as int, dot as int));
                assert(dec_frac_part(u) =~= t.subrange(frac_from as int, n as int));
            }
            if (dot > a || frac_from < n) && scan_all_digits(s, a, dot) && scan_all_digits(
                s,
                frac_from,
                n,
            ) {
                if let Some(den) = pow10_u64(n - frac_from) {
                    if let Some(ip) = digits_to_u64(s, a, dot) {
                        if let Some(fp) = digits_to_u64(s, frac_from, n) {
                            proof {
                                lemma_pow10_mono(0, (n - frac_from) as nat);
                            }
                            if let Some(num) = mul_add_checked(ip, den, fp) {
                                return Ok(Atom::Number(Rational::new(neg, num, den)));
                            }
                        } else {
                            proof {
                                lemma_dec_num_ge_frac(u);
                            }
                        }
                    } else {
                        proof {
                            lemma_pow10_mono(0, (n - frac_from) as nat);
                            lemma_dec_num_ge_int(u);
                        }
                    }
                }
            }
        }
        // Symbols.
        Ok(Atom::Symbol(s.to_owned()))
    }
}

/// The decimal numerator is at least the value of the integer digits.
proof fn lemma_dec_num_ge_int(u: Seq<char>)
    requires
        pow10(dec_frac_part(u).len()) >= 1,
    ensures
        dec_num(u) >= digits_val(dec_int_part(u)),
{
    assert(digits_val(dec_int_part(u)) * pow10(dec_frac_part(u).len()) >= digits_val(
        dec_int_part(u),
    )) by (nonlinear_arith)
        requires
            pow10(dec_frac_part(u).len()) >= 1,
            digits_val(dec_int_part(u)) >= 0,
    ;
}

/// The decimal numerator is at least the value of the fractional digits.
proof fn lemma_dec_num_ge_frac(u: Seq<char>)
    ensures
        dec_num(u) >= digits_val(dec_frac_part(u)),
{
    assert(digits_val(dec_int_part(u)) * pow10(dec_frac_part(u).len()) >= 0) by (nonlinear_arith);
}

} // verus!
