//! The laws the derivation obeys, stated and proved over the specification
//! functions that the executable functions' contracts use.

use vstd::prelude::*;

use crate::digits::{
    all_digit_chars, dec_string_of, digits_value, is_digit_char, is_u64_digits,
    lemma_dec_string_of_len, lemma_dec_string_of_value, lemma_digits_value_bound,
    lemma_digits_value_nonneg, lemma_digits_value_take_le, lemma_leading_zeros_value,
    lemma_pow10_le, lemma_trim_zeros_len, lemma_trim_zeros_prefix, pow10, trim_zeros,
};
use crate::operands::{
    abs_value, operands_of, operands_wf, signed_operands, unsigned_operands, unsigned_part,
    valid_number, OperandsError, PluralOperands,
};

verus! {

/// A run of `k` zero characters.
pub open spec fn zero_chars(k: int) -> Seq<char>
    decreases k,
{
    if k <= 0 {
        Seq::empty()
    } else {
        zero_chars(k - 1).push('0')
    }
}

/// A run of zero characters has the asked-for length and holds only '0'.
pub proof fn lemma_zero_chars(k: int)
    ensures
        zero_chars(k).len() == if k <= 0 {
            0int
        } else {
            k
        },
        forall|j: int| 0 <= j < zero_chars(k).len() ==> #[trigger] zero_chars(k)[j] == '0',
    decreases k,
{
    if k > 0 {
        lemma_zero_chars(k - 1);
        assert forall|j: int| 0 <= j < zero_chars(k).len() implies #[trigger] zero_chars(k)[j]
            == '0' by {
            if j < k - 1 {
                assert(zero_chars(k)[j] == zero_chars(k - 1)[j]);
            }
        }
    }
}

/// The decimal string a formatter produces for the reconstructed value
/// `i + t / 10^v` with exactly `v` fraction digits: the integer part, and
/// for `v > 0` a point followed by `t` padded on the left with zeros to `v`
/// digits.
pub open spec fn reconstruction_string(op: PluralOperands) -> Seq<char> {
    if op.v == 0 {
        dec_string_of(op.i as int)
    } else {
        dec_string_of(op.i as int) + seq!['.'] + zero_chars(
            op.v as int - dec_string_of(op.t as int).len() as int,
        ) + dec_string_of(op.t as int)
    }
}

/// Deriving operands from an unsigned integer and from its canonical
/// decimal string form agree: both give the integer part alone and no
/// fraction digits.
pub proof fn lemma_unsigned_matches_string(n: u64)
    ensures
        valid_number(dec_string_of(n as int)),
        operands_of(dec_string_of(n as int)) == unsigned_operands(n),
{
    let s = dec_string_of(n as int);
    lemma_dec_string_of_value(n as int);
    assert(is_digit_char(s[0]));
    assert(unsigned_part(s) == s);
    s.index_of_first_ensures('.');
    match s.index_of_first('.') {
        Some(d) => {
            assert(is_digit_char(s[d]));
            assert(s[d] == '.');
            assert(false);
        },
        None => {},
    }
    assert(is_u64_digits(s));
}

/// Deriving from a signed integer other than the minimum representable
/// value equals deriving from its absolute value; the minimum, which has no
/// representable absolute value, fails with `Invalid`.
pub proof fn lemma_signed_matches_unsigned(x: i64)
    ensures
        x != i64::MIN ==> signed_operands(x) == Ok::<PluralOperands, OperandsError>(
            unsigned_operands(abs_value(x)),
        ),
        x == i64::MIN ==> signed_operands(x) == Err::<PluralOperands, OperandsError>(
            OperandsError::Invalid,
        ),
{
}

/// Every operand tuple derived from a valid decimal string is well formed:
/// `w <= v`, and when no fraction digits are visible the fraction fields
/// are all zero.
pub proof fn lemma_operands_well_formed(s: Seq<char>)
    requires
        valid_number(s),
        s.len() <= usize::MAX,
    ensures
        operands_wf(operands_of(s)),
{
    let u = unsigned_part(s);
    u.index_of_first_ensures('.');
    match u.index_of_first('.') {
        Some(d) => {
            let fp = u.skip(d + 1);
            lemma_trim_zeros_len(fp);
        },
        None => {},
    }
}

/// Re-deriving operands from the reconstruction string of a valid input
/// preserves `i` and `v`; it preserves `f` exactly when the input had no
/// trailing fraction zeros, that is, when `f == t`.
pub proof fn lemma_rederive_reconstruction(s: Seq<char>)
    requires
        valid_number(s),
        s.len() <= usize::MAX,
    ensures
        valid_number(reconstruction_string(operands_of(s))),
        operands_of(reconstruction_string(operands_of(s))).i == operands_of(s).i,
        operands_of(reconstruction_string(operands_of(s))).v == operands_of(s).v,
        operands_of(s).f == operands_of(s).t ==> operands_of(
            reconstruction_string(operands_of(s)),
        ).f == operands_of(s).f,
{
    let op = operands_of(s);
    let u = unsigned_part(s);
    u.index_of_first_ensures('.');
    match u.index_of_first('.') {
        None => {
            lemma_unsigned_matches_string(op.i);
        },
        Some(d) => {
            let ip = u.take(d);
            let fp = u.skip(d + 1);
            lemma_digits_value_nonneg(ip);
            lemma_digits_value_nonneg(fp);

            // The trimmed fraction is a digit prefix of the fraction, so its
            // value is a valid `u64` too.
            let w0 = trim_zeros(fp).len() as int;
            lemma_trim_zeros_len(fp);
            lemma_trim_zeros_prefix(fp);
            assert(all_digit_chars(trim_zeros(fp))) by {
                assert forall|k: int| 0 <= k < trim_zeros(fp).len() implies is_digit_char(
                    #[trigger] trim_zeros(fp)[k],
                ) by {
                    assert(trim_zeros(fp)[k] == fp.take(w0)[k]);
                    assert(fp.take(w0)[k] == fp[k]);
                }
            }
            lemma_digits_value_take_le(fp, w0);
            assert(op.t as int == digits_value(trim_zeros(fp)));
            assert(op.i as int == digits_value(ip));
            assert(op.f as int == digits_value(fp));
            assert(op.v as int == fp.len());

            let istr = dec_string_of(op.i as int);
            let tstr = dec_string_of(op.t as int);
            let z = zero_chars(op.v as int - tstr.len() as int);
            lemma_dec_string_of_value(op.i as int);
            lemma_dec_string_of_value(op.t as int);

            // `t` fits in the visible fraction width, so the padded fraction
            // string has exactly `v` digits.
            lemma_digits_value_bound(trim_zeros(fp));
            lemma_pow10_le(w0, op.v as int);
            lemma_dec_string_of_len(op.t as int, op.v as int);
            lemma_zero_chars(op.v as int - tstr.len() as int);

            let pad = z + tstr;
            lemma_leading_zeros_value(z, tstr);
            assert(pad.len() == op.v as int);
            assert(all_digit_chars(pad)) by {
                assert forall|k: int| 0 <= k < pad.len() implies is_digit_char(
                    #[trigger] pad[k],
                ) by {
                    if k < z.len() {
                        assert(pad[k] == z[k]);
                        assert(z[k] == '0');
                    } else {
                        assert(pad[k] == tstr[k - z.len()]);
                    }
                }
            }
            assert(is_u64_digits(pad));

            let r = reconstruction_string(op);
            assert(r =~= istr + seq!['.'] + pad);
            let d0 = istr.len() as int;
            assert(r.len() == d0 + 1 + pad.len());
            assert forall|j: int| 0 <= j < d0 implies r[j] == istr[j] by {}
            assert(r[d0] == '.');
            assert forall|j: int| d0 + 1 <= j < r.len() implies r[j] == pad[j - d0 - 1] by {}

            // The reconstruction starts with a digit, so it carries no sign,
            // and its first point is the one written after the integer part.
            assert(is_digit_char(r[0]));
            assert(unsigned_part(r) == r);
            r.index_of_first_ensures('.');
            assert(r.contains('.')) by {
                assert(r[d0] == '.');
            }
            let idx = r.index_of_first('.').unwrap();
            if idx < d0 {
                assert(is_digit_char(r[idx]));
                assert(false);
            }
            if idx > d0 {
                assert(r[d0] != '.');
                assert(false);
            }
            assert(r.index_of_first('.') == Some(d0));
            assert(r.take(d0) =~= istr);
            assert(r.skip(d0 + 1) =~= pad);
            assert(is_u64_digits(istr));
        },
    }
}

} // verus!
