//! The plural operand tuple and its derivation from machine integers and
//! decimal strings.

use vstd::prelude::*;

use crate::digits::{
    all_digit_chars, digits_value, is_u64_digits, lemma_all_zeros_value, lemma_digits_value_nonneg,
    lemma_digits_value_take_le, parse_digits, trim_zeros, trimmed_len,
};

verus! {

/// The five plural operands of a number, always describing its absolute
/// value:
///
/// - `i`: the integer part;
/// - `v`: how many fraction digits are visible, trailing zeros included;
/// - `w`: how many fraction digits are visible, trailing zeros excluded;
/// - `f`: the visible fraction digits read as an integer;
/// - `t`: the visible fraction digits without trailing zeros, read as an
///   integer.
#[derive(Debug, Clone, Copy, PartialEq, Eq, Structural)]
pub struct PluralOperands {
    /// Integer part of the number.
    pub i: u64,
    /// Count of visible fraction digits, trailing zeros included.
    pub v: usize,
    /// Count of visible fraction digits, trailing zeros excluded.
    pub w: usize,
    /// Visible fraction digits as an integer, trailing zeros included.
    pub f: u64,
    /// Visible fraction digits as an integer, trailing zeros excluded.
    pub t: u64,
}

/// Why a string could not be turned into operands.
#[derive(Debug, PartialEq, Eq, Structural)]
pub enum OperandsError {
    /// The input string was empty.
    Empty,
    /// The input could not be parsed as a non-negative decimal number.
    Invalid,
}

/// The shape every operand tuple derived here has: no more significant
/// fraction digits than visible ones, and no fraction at all when no
/// fraction digits are visible.
pub open spec fn operands_wf(op: PluralOperands) -> bool {
    &&& op.w <= op.v
    &&& op.v == 0 ==> op.w == 0 && op.f == 0 && op.t == 0
}

/// The input with a single leading minus sign removed: the derivation works
/// on the absolute value and discards the sign.
pub open spec fn unsigned_part(s: Seq<char>) -> Seq<char> {
    if s.len() > 0 && s[0] == '-' {
        s.subrange(1, s.len() as int)
    } else {
        s
    }
}

/// A non-empty string denotes a non-negative decimal number: after the
/// optional minus sign, either digits alone, or digits, one point and
/// further digits, with both digit groups non-empty and small enough for a
/// `u64`.
pub open spec fn valid_number(s: Seq<char>) -> bool {
    let u = unsigned_part(s);
    match u.index_of_first('.') {
        Some(d) => is_u64_digits(u.take(d)) && is_u64_digits(u.skip(d + 1)),
        None => is_u64_digits(u),
    }
}

/// The operands a valid decimal string denotes. The digits before the first
/// point give `i`; the digits after it give the fraction fields, with `w`
/// and `t` taken from the fraction digits after trailing-zero removal.
pub open spec fn operands_of(s: Seq<char>) -> PluralOperands {
    let u = unsigned_part(s);
    match u.index_of_first('.') {
        Some(d) => (PluralOperands {
            i: digits_value(u.take(d)) as u64,
            v: u.skip(d + 1).len() as usize,
            w: trim_zeros(u.skip(d + 1)).len() as usize,
            f: digits_value(u.skip(d + 1)) as u64,
            t: digits_value(trim_zeros(u.skip(d + 1))) as u64,
        }),
        None => (PluralOperands { i: digits_value(u) as u64, v: 0, w: 0, f: 0, t: 0 }),
    }
}

/// Position of the first '.' at or after `from`, if any.
fn find_dot(s: &str, from: usize) -> (r: Option<usize>)
    requires
        from <= s@.len(),
    ensures
        match r {
            Some(d) => from <= d < s@.len() && s@[d as int] == '.' && forall|k: int|
                from <= k < d ==> s@[k] != '.',
            None => forall|k: int| from <= k < s@.len() ==> s@[k] != '.',
        },
{
    let len = s.unicode_len();
    let mut j = from;
    while j < len
        invariant
            from <= j <= len,
            len == s@.len(),
            forall|k: int| from <= k < j ==> s@[k] != '.',
        decreases len - j,
    {
        if s.get_char(j) == '.' {
            return Some(j);
        }
        j = j + 1;
    }
    None
}

impl PluralOperands {
    /// Derive the operands from a decimal string.
    ///
    /// The empty string fails with `Empty`. A string that does not denote a
    /// non-negative decimal number — a character other than a digit, a
    /// leading minus sign or a single point; an empty digit group; a digit
    /// group whose value exceeds `u64::MAX` — fails with `Invalid`.
    pub fn from_str(input: &str) -> (r: Result<PluralOperands, OperandsError>)
        ensures
            match r {
                Ok(op) => input@.len() > 0 && valid_number(input@) && op == operands_of(input@),
                Err(e) => {
                    &&& (e == OperandsError::Empty <==> input@.len() == 0)
                    &&& (e == OperandsError::Invalid <==> input@.len() > 0 && !valid_number(
                        input@,
                    ))
                },
            },
    {
        let len = input.unicode_len();
        if len == 0 {
            return Err(OperandsError::Empty);
        }
        let start: usize = if input.get_char(0) == '-' {
            1
        } else {
            0
        };
        let ghost u = unsigned_part(input@);
        proof {
            assert(u =~= input@.subrange(start as int, len as int));
        }
        let dot = find_dot(input, start);
        match dot {
            None => {
                proof {
                    u.index_of_first_ensures('.');
                    assert forall|k: int| 0 <= k < u.len() implies u[k] != '.' by {
                        assert(u[k] == input@[start + k]);
                    }
                    assert(u.index_of_first('.') is None);
                }
                match parse_digits(input, start, len) {
                    Some(x) => {
                        proof {
                            lemma_digits_value_nonneg(u);
                        }
                        Ok(PluralOperands { i: x, v: 0, w: 0, f: 0, t: 0 })
                    },
                    None => Err(OperandsError::Invalid),
                }
            },
            Some(d) => {
                proof {
                    u.index_of_first_ensures('.');
                    assert(u[d - start] == input@[d as int]);
                    assert(u.contains('.')) by {
                        assert(u[d - start] == '.');
                    }
                    let idx = u.index_of_first('.').unwrap();
                    if idx < d - start {
                        assert(u[idx] == input@[start + idx]);
                        assert(false);
                    }
                    if idx > d - start {
                        assert(u[d - start] != '.');
                        assert(false);
                    }
                    assert(u.index_of_first('.') == Some(d - start));
                    assert(u.take(d - start) =~= input@.subrange(start as int, d as int));
                    assert(u.skip(d - start + 1) =~= input@.subrange(d as int + 1, len as int));
                }
                let ghost ip = u.take(d - start);
                let ghost fp = u.skip(d - start + 1);
                let int_part = match parse_digits(input, start, d) {
                    Some(x) => x,
                    None => {
                        return Err(OperandsError::Invalid);
                    },
                };
                let frac_from = d + 1;
                let f = match parse_digits(input, frac_from, len) {
                    Some(x) => x,
                    None => {
                        return Err(OperandsError::Invalid);
                    },
                };
                let v = len - frac_from;
                let w = trimmed_len(input, frac_from, len);
                proof {
                    assert(trim_zeros(fp) == fp.take(w as int));
                    lemma_digits_value_nonneg(ip);
                    lemma_digits_value_nonneg(fp);
                }
                let t = if w == 0 {
                    proof {
                        assert(fp.take(0) =~= Seq::<char>::empty());
                        lemma_all_zeros_value(fp);
                    }
                    f
                } else if w == v {
                    proof {
                        assert(fp.take(w as int) =~= fp);
                    }
                    f
                } else {
                    proof {
                        assert forall|k: int| 0 <= k < fp.take(w as int).len() implies
                            crate::digits::is_digit_char(#[trigger] fp.take(w as int)[k]) by {
                            assert(fp.take(w as int)[k] == fp[k]);
                        }
                        lemma_digits_value_take_le(fp, w as int);
                        assert(fp.take(w as int) =~= input@.subrange(
                            frac_from as int,
                            frac_from + w,
                        ));
                    }
                    parse_digits(input, frac_from, frac_from + w).unwrap()
                };
                Ok(PluralOperands { i: int_part, v, w, f, t })
            },
        }
    }

    /// Derive the operands from an unsigned integer: the value is the
    /// integer part, and there are no fraction digits.
    pub fn from_unsigned(input: u64) -> (r: PluralOperands)
        ensures
            r == unsigned_operands(input),
    {
        PluralOperands { i: input, v: 0, w: 0, f: 0, t: 0 }
    }

    /// Derive the operands from a signed integer, discarding the sign: the
    /// result equals the derivation from the absolute value. Fails with
    /// `Invalid` exactly when the value has no representable absolute
    /// value, that is, for the most negative value.
    pub fn try_from_signed(input: i64) -> (r: Result<PluralOperands, OperandsError>)
        ensures
            r == signed_operands(input),
    {
        if input == i64::MIN {
            Err(OperandsError::Invalid)
        } else {
            let magnitude: i64 = if input < 0 {
                -input
            } else {
                input
            };
            Ok(PluralOperands { i: magnitude as u64, v: 0, w: 0, f: 0, t: 0 })
        }
    }
}

/// The absolute value of a signed integer, as the unsigned type of the same
/// width.
pub open spec fn abs_value(x: i64) -> u64 {
    if x < 0 {
        (-(x as int)) as u64
    } else {
        x as u64
    }
}

/// The operands of an unsigned integer: the value itself as the integer
/// part, and no fraction digits.
pub open spec fn unsigned_operands(n: u64) -> PluralOperands {
    PluralOperands { i: n, v: 0, w: 0, f: 0, t: 0 }
}

/// The operands of a signed integer: those of its absolute value, except
/// that the most negative value, which has no representable absolute value,
/// is rejected as `Invalid`.
pub open spec fn signed_operands(x: i64) -> Result<PluralOperands, OperandsError> {
    if x == i64::MIN {
        Err(OperandsError::Invalid)
    } else {
        Ok(unsigned_operands(abs_value(x)))
    }
}

impl From<u64> for PluralOperands {
    /// The operands of an unsigned integer: the value itself and no
    /// fraction digits.
    fn from(input: u64) -> (r: Self) {
        PluralOperands { i: input, v: 0, w: 0, f: 0, t: 0 }
    }
}

impl vstd::std_specs::convert::FromSpecImpl<u64> for PluralOperands {
    open spec fn obeys_from_spec() -> bool {
        true
    }

    open spec fn from_spec(x: u64) -> Self {
        unsigned_operands(x)
    }
}

impl TryFrom<i64> for PluralOperands {
    type Error = OperandsError;

    /// The operands of the absolute value; `Invalid` for the most negative
    /// value, which has none.
    fn try_from(input: i64) -> (r: Result<Self, OperandsError>) {
        PluralOperands::try_from_signed(input)
    }
}

impl vstd::std_specs::convert::TryFromSpecImpl<i64> for PluralOperands {
    open spec fn obeys_try_from_spec() -> bool {
        true
    }

    open spec fn try_from_spec(x: i64) -> Result<Self, OperandsError> {
        signed_operands(x)
    }
}

} // verus!
