//! Fixed-point decimal digit sequences, queried by magnitude, and the
//! derivation of operands from them.
//!
//! A value stores one decimal digit per magnitude in an inclusive range:
//! magnitude 0 is the units digit, positive magnitudes are integer digits,
//! negative magnitudes are fraction digits. Magnitudes outside the stored
//! range read as 0. Digit accumulation into 64 bits wraps around silently on
//! very high precision values, a documented limitation; the contracts state
//! that wrapping exactly, and state the exact digit value whenever it fits.

use vstd::prelude::*;

use crate::operands::{operands_wf, PluralOperands};

verus! {

/// The modulus of 64-bit wraparound.
pub open spec fn wrap_modulus() -> int {
    0x1_0000_0000_0000_0000
}

/// Digit-by-digit accumulation of a most-significant-first digit sequence
/// into 64 bits: each step multiplies by ten, adds the digit and wraps.
pub open spec fn wrap_acc(s: Seq<int>) -> int
    decreases s.len(),
{
    if s.len() == 0 {
        0
    } else {
        (wrap_acc(s.drop_last()) * 10 + s.last()) % wrap_modulus()
    }
}

/// The exact number a most-significant-first digit sequence denotes.
pub open spec fn seq_value(s: Seq<int>) -> int
    decreases s.len(),
{
    if s.len() == 0 {
        0
    } else {
        seq_value(s.drop_last()) * 10 + s.last()
    }
}

/// How many digits at the least-significant end of the sequence are zero.
pub open spec fn trailing_zero_count(s: Seq<int>) -> int
    decreases s.len(),
{
    if s.len() > 0 && s.last() == 0 {
        1 + trailing_zero_count(s.drop_last())
    } else {
        0
    }
}

/// `n` with its trailing decimal zeros removed; zero stays zero.
pub open spec fn strip_zeros(n: int) -> int
    decreases n,
{
    if n > 0 && n % 10 == 0 {
        strip_zeros(n / 10)
    } else {
        n
    }
}

/// A sequence of digits denotes a non-negative number.
pub proof fn lemma_seq_value_nonneg(s: Seq<int>)
    requires
        forall|k: int| 0 <= k < s.len() ==> 0 <= #[trigger] s[k],
    ensures
        seq_value(s) >= 0,
    decreases s.len(),
{
    if s.len() > 0 {
        assert forall|k: int| 0 <= k < s.drop_last().len() implies 0 <= #[trigger] s.drop_last()[k] by {
            assert(s.drop_last()[k] == s[k]);
        }
        assert(s.last() == s[s.len() - 1]);
        lemma_seq_value_nonneg(s.drop_last());
    }
}

/// When the denoted number fits in 64 bits, the wrapping accumulation
/// computes it exactly.
pub proof fn lemma_wrap_acc_exact(s: Seq<int>)
    requires
        forall|k: int| 0 <= k < s.len() ==> 0 <= #[trigger] s[k],
        seq_value(s) <= u64::MAX,
    ensures
        wrap_acc(s) == seq_value(s),
    decreases s.len(),
{
    if s.len() > 0 {
        assert forall|k: int| 0 <= k < s.drop_last().len() implies 0 <= #[trigger] s.drop_last()[k] by {
            assert(s.drop_last()[k] == s[k]);
        }
        assert(s.last() == s[s.len() - 1]);
        lemma_seq_value_nonneg(s.drop_last());
        assert(seq_value(s.drop_last()) <= u64::MAX);
        lemma_wrap_acc_exact(s.drop_last());
    }
}

/// A run of decimal digits addressed by magnitude: `digits[k]` is the digit
/// at magnitude `mag_high - k`, and magnitudes outside
/// `[mag_low, mag_high]` hold the digit 0.
pub struct DecimalDigits {
    /// The stored digits, most significant first.
    pub digits: Vec<u8>,
    /// The highest magnitude with a stored digit.
    pub mag_high: i16,
    /// The lowest magnitude with a stored digit.
    pub mag_low: i16,
}

impl DecimalDigits {
    /// One stored digit per magnitude of the range, each a single decimal
    /// digit.
    pub open spec fn wf(&self) -> bool {
        &&& self.mag_low <= self.mag_high
        &&& self.digits@.len() == self.mag_high - self.mag_low + 1
        &&& forall|k: int| 0 <= k < self.digits@.len() ==> #[trigger] self.digits@[k] <= 9
    }

    /// The digit at magnitude `m`: 0 outside the stored range.
    pub open spec fn digit_at_spec(&self, m: int) -> int {
        if self.mag_low <= m <= self.mag_high {
            self.digits@[self.mag_high - m] as int
        } else {
            0
        }
    }

    /// How many integer digit positions the value spans: magnitudes
    /// `mag_high` down to 0.
    pub open spec fn int_len(&self) -> int {
        if self.mag_high >= 0 {
            self.mag_high + 1
        } else {
            0
        }
    }

    /// How many fraction digit positions the value stores: magnitudes -1
    /// down to `mag_low`.
    pub open spec fn fraction_len(&self) -> int {
        if self.mag_low < 0 {
            -(self.mag_low as int)
        } else {
            0
        }
    }

    /// The integer digits, most significant first.
    pub open spec fn int_digits(&self) -> Seq<int> {
        Seq::new(self.int_len() as nat, |k: int| self.digit_at_spec(self.mag_high - k))
    }

    /// The fraction digits, most significant first.
    pub open spec fn frac_digits(&self) -> Seq<int> {
        Seq::new(self.fraction_len() as nat, |k: int| self.digit_at_spec(-1 - k))
    }

    /// Read the digit at magnitude `m`; magnitudes without a stored digit
    /// report 0.
    pub fn digit_at(&self, m: i16) -> (d: u8)
        requires
            self.wf(),
        ensures
            d as int == self.digit_at_spec(m as int),
            d <= 9,
    {
        if m < self.mag_low || m > self.mag_high {
            0
        } else {
            let idx = (self.mag_high as i32 - m as i32) as usize;
            self.digits[idx]
        }
    }
}

/// One 64-bit wrapping accumulation step: multiply by ten and add a digit.
fn wrap_step(acc: u64, d: u8) -> (r: u64)
    ensures
        r == (acc * 10 + d) % wrap_modulus(),
{
    let wide: u128 = acc as u128 * 10 + d as u128;
    (wide % 0x1_0000_0000_0000_0000u128) as u64
}

impl PluralOperands {
    /// Derive the operands from a fixed-point decimal digit sequence. This
    /// never fails: the integer part and the fraction part are accumulated
    /// digit by digit with 64-bit wraparound, `v` counts the stored
    /// fraction positions, `w` drops the trailing zero digits, and `t` is
    /// `f` with its trailing decimal zeros removed. Whenever the digits
    /// denote values that fit in 64 bits — every practical case — `i` and
    /// `f` are those exact values.
    pub fn from_decimal(dec: &DecimalDigits) -> (r: PluralOperands)
        requires
            dec.wf(),
        ensures
            r.i == wrap_acc(dec.int_digits()),
            r.f == wrap_acc(dec.frac_digits()),
            r.v == dec.fraction_len(),
            r.w == dec.fraction_len() - trailing_zero_count(dec.frac_digits()),
            r.t == strip_zeros(r.f as int),
            seq_value(dec.int_digits()) <= u64::MAX ==> r.i == seq_value(dec.int_digits()),
            seq_value(dec.frac_digits()) <= u64::MAX ==> r.f == seq_value(dec.frac_digits()),
            operands_wf(r),
    {
        let ghost ids = dec.int_digits();
        let ghost fds = dec.frac_digits();

        let n_int: usize = if dec.mag_high >= 0 {
            (dec.mag_high as i32 + 1) as usize
        } else {
            0
        };
        let mut i_acc: u64 = 0;
        let mut k: usize = 0;
        while k < n_int
            invariant
                dec.wf(),
                ids == dec.int_digits(),
                n_int == dec.int_len(),
                k <= n_int,
                i_acc == wrap_acc(ids.take(k as int)),
            decreases n_int - k,
        {
            let mag = (dec.mag_high as i32 - k as i32) as i16;
            let d = dec.digit_at(mag);
            proof {
                assert(ids.take(k + 1).drop_last() =~= ids.take(k as int));
                assert(ids.take(k + 1).last() == ids[k as int]);
                assert(ids[k as int] == dec.digit_at_spec(dec.mag_high - k));
            }
            i_acc = wrap_step(i_acc, d);
            k = k + 1;
        }
        proof {
            assert(ids.take(n_int as int) =~= ids);
        }

        let v: usize = if dec.mag_low < 0 {
            (-(dec.mag_low as i32)) as usize
        } else {
            0
        };
        let mut f_acc: u64 = 0;
        let mut ntz: usize = 0;
        let mut k: usize = 0;
        while k < v
            invariant
                dec.wf(),
                fds == dec.frac_digits(),
                v == dec.fraction_len(),
                k <= v,
                ntz <= k,
                f_acc == wrap_acc(fds.take(k as int)),
                ntz == trailing_zero_count(fds.take(k as int)),
            decreases v - k,
        {
            let mag = (-1i32 - k as i32) as i16;
            let d = dec.digit_at(mag);
            proof {
                assert(fds.take(k + 1).drop_last() =~= fds.take(k as int));
                assert(fds.take(k + 1).last() == fds[k as int]);
                assert(fds[k as int] == dec.digit_at_spec(-1 - k));
            }
            if d == 0 {
                ntz = ntz + 1;
            } else {
                ntz = 0;
            }
            f_acc = wrap_step(f_acc, d);
            k = k + 1;
        }
        proof {
            assert(fds.take(v as int) =~= fds);
        }

        let mut t_val: u64 = f_acc;
        while t_val > 0 && t_val % 10 == 0
            invariant
                strip_zeros(t_val as int) == strip_zeros(f_acc as int),
            decreases t_val,
        {
            t_val = t_val / 10;
        }

        proof {
            if seq_value(ids) <= u64::MAX {
                assert forall|j: int| 0 <= j < ids.len() implies 0 <= #[trigger] ids[j] by {}
                lemma_wrap_acc_exact(ids);
            }
            if seq_value(fds) <= u64::MAX {
                assert forall|j: int| 0 <= j < fds.len() implies 0 <= #[trigger] fds[j] by {}
                lemma_wrap_acc_exact(fds);
            }
        }

        PluralOperands { i: i_acc, v, w: v - ntz, f: f_acc, t: t_val }
    }
}

} // verus!
