//! Decimal digit strings, viewed as sequences of characters: the number such
//! a string denotes, trailing-zero trimming, and a verified substring parser.

use vstd::prelude::*;

verus! {

/// `c` is one of the characters '0' through '9'.
pub open spec fn is_digit_char(c: char) -> bool {
    48 <= c as int && c as int <= 57
}

/// The numeric value of a digit character.
pub open spec fn digit_value(c: char) -> int {
    c as int - 48
}

/// Every character of `s` is a decimal digit.
pub open spec fn all_digit_chars(s: Seq<char>) -> bool {
    forall|k: int| 0 <= k < s.len() ==> is_digit_char(#[trigger] s[k])
}

/// The non-negative integer a digit string denotes, most significant digit
/// first. The empty string denotes zero.
pub open spec fn digits_value(s: Seq<char>) -> int
    decreases s.len(),
{
    if s.len() == 0 {
        0
    } else {
        digits_value(s.drop_last()) * 10 + digit_value(s.last())
    }
}

/// A digit string whose value a `u64` can hold: non-empty, digits only, and
/// the denoted value is at most `u64::MAX`.
pub open spec fn is_u64_digits(s: Seq<char>) -> bool {
    &&& s.len() > 0
    &&& all_digit_chars(s)
    &&& digits_value(s) <= u64::MAX
}

/// `s` with its trailing '0' characters removed.
pub open spec fn trim_zeros(s: Seq<char>) -> Seq<char>
    decreases s.len(),
{
    if s.len() > 0 && s.last() == '0' {
        trim_zeros(s.drop_last())
    } else {
        s
    }
}

/// The digit character for a value between 0 and 9.
pub open spec fn digit_char(d: int) -> char {
    (d + 48) as char
}

/// The canonical decimal digit string of a non-negative number: no sign, no
/// point, no superfluous leading zeros.
pub open spec fn dec_string_of(n: int) -> Seq<char>
    decreases n,
{
    if n < 10 {
        seq![digit_char(n)]
    } else {
        dec_string_of(n / 10).push(digit_char(n % 10))
    }
}

/// The k-th power of ten.
pub open spec fn pow10(k: int) -> int
    decreases k,
{
    if k <= 0 {
        1
    } else {
        10 * pow10(k - 1)
    }
}

/// A digit string denotes a non-negative number.
pub proof fn lemma_digits_value_nonneg(s: Seq<char>)
    requires
        all_digit_chars(s),
    ensures
        digits_value(s) >= 0,
    decreases s.len(),
{
    if s.len() > 0 {
        assert(all_digit_chars(s.drop_last())) by {
            assert forall|k: int| 0 <= k < s.drop_last().len() implies is_digit_char(
                #[trigger] s.drop_last()[k],
            ) by {
                assert(s.drop_last()[k] == s[k]);
            }
        }
        lemma_digits_value_nonneg(s.drop_last());
    }
}

/// Extending a digit string to the right never decreases its value.
pub proof fn lemma_digits_value_take_le(s: Seq<char>, k: int)
    requires
        all_digit_chars(s),
        0 <= k <= s.len(),
    ensures
        0 <= digits_value(s.take(k)) <= digits_value(s),
    decreases s.len() - k,
{
    assert(all_digit_chars(s.take(k))) by {
        assert forall|j: int| 0 <= j < s.take(k).len() implies is_digit_char(
            #[trigger] s.take(k)[j],
        ) by {
            assert(s.take(k)[j] == s[j]);
        }
    }
    lemma_digits_value_nonneg(s.take(k));
    if k == s.len() {
        assert(s.take(k) =~= s);
    } else {
        assert(s.take(k + 1).drop_last() =~= s.take(k));
        assert(s.take(k + 1).last() == s[k]);
        assert(digits_value(s.take(k + 1)) == digits_value(s.take(k)) * 10 + digit_value(s[k]));
        assert(digits_value(s.take(k)) * 10 >= digits_value(s.take(k)));
        lemma_digits_value_take_le(s, k + 1);
    }
}

/// A string of '0' characters denotes zero.
pub proof fn lemma_all_zeros_value(s: Seq<char>)
    requires
        forall|k: int| 0 <= k < s.len() ==> #[trigger] s[k] == '0',
    ensures
        digits_value(s) == 0,
    decreases s.len(),
{
    if s.len() > 0 {
        assert(s.last() == s[s.len() - 1]);
        assert forall|k: int| 0 <= k < s.drop_last().len() implies #[trigger] s.drop_last()[k]
            == '0' by {
            assert(s.drop_last()[k] == s[k]);
        }
        lemma_all_zeros_value(s.drop_last());
    }
}

/// Trimming keeps a prefix: if every character from position `w` on is '0'
/// and the character just before `w` (if any) is not, then trimming removes
/// exactly the characters from `w` on.
pub proof fn lemma_trim_zeros_at(s: Seq<char>, w: int)
    requires
        0 <= w <= s.len(),
        forall|k: int| w <= k < s.len() ==> #[trigger] s[k] == '0',
        w > 0 ==> s[w - 1] != '0',
    ensures
        trim_zeros(s) == s.take(w),
    decreases s.len(),
{
    if w == s.len() {
        if s.len() > 0 {
            assert(s.last() == s[s.len() - 1]);
        }
        assert(s.take(w) =~= s);
    } else {
        assert(s.last() == s[s.len() - 1]);
        assert forall|k: int| w <= k < s.drop_last().len() implies #[trigger] s.drop_last()[k]
            == '0' by {
            assert(s.drop_last()[k] == s[k]);
        }
        if w > 0 {
            assert(s.drop_last()[w - 1] == s[w - 1]);
        }
        lemma_trim_zeros_at(s.drop_last(), w);
        assert(s.drop_last().take(w) =~= s.take(w));
    }
}

/// Trimming trailing zeros never lengthens a string.
pub proof fn lemma_trim_zeros_len(s: Seq<char>)
    ensures
        trim_zeros(s).len() <= s.len(),
    decreases s.len(),
{
    if s.len() > 0 && s.last() == '0' {
        lemma_trim_zeros_len(s.drop_last());
    }
}

/// Trimming trailing zeros keeps a prefix of the string.
pub proof fn lemma_trim_zeros_prefix(s: Seq<char>)
    ensures
        trim_zeros(s) == s.take(trim_zeros(s).len() as int),
    decreases s.len(),
{
    if s.len() > 0 && s.last() == '0' {
        lemma_trim_zeros_prefix(s.drop_last());
        lemma_trim_zeros_len(s.drop_last());
        assert(s.drop_last().take(trim_zeros(s).len() as int) =~= s.take(
            trim_zeros(s).len() as int,
        ));
    } else {
        assert(s.take(s.len() as int) =~= s);
    }
}

/// Powers of ten do not decrease with the exponent.
pub proof fn lemma_pow10_le(a: int, b: int)
    requires
        a <= b,
    ensures
        pow10(a) <= pow10(b),
    decreases b - a,
{
    if a < b {
        lemma_pow10_le(a, b - 1);
        lemma_pow10_pos(b - 1);
    }
}

/// The canonical decimal string of a number denotes that number, consists
/// of digits, and is never empty.
pub proof fn lemma_dec_string_of_value(n: int)
    requires
        n >= 0,
    ensures
        dec_string_of(n).len() > 0,
        all_digit_chars(dec_string_of(n)),
        digits_value(dec_string_of(n)) == n,
    decreases n,
{
    if n < 10 {
        let s = dec_string_of(n);
        assert(s =~= seq![digit_char(n)]);
        assert(s.drop_last() =~= Seq::<char>::empty());
        assert(s.last() == digit_char(n));
        assert(digit_char(n) as int == n + 48);
        assert(digits_value(Seq::<char>::empty()) == 0);
        assert(digits_value(s) == digits_value(s.drop_last()) * 10 + digit_value(s.last()));
        assert forall|k: int| 0 <= k < s.len() implies is_digit_char(#[trigger] s[k]) by {
            assert(s[k] == digit_char(n));
        }
    } else {
        lemma_dec_string_of_value(n / 10);
        let p = dec_string_of(n / 10);
        let s = dec_string_of(n);
        assert(s.drop_last() =~= p);
        assert(s.last() == digit_char(n % 10));
        assert(digit_char(n % 10) as int == n % 10 + 48);
        assert(digits_value(s) == (n / 10) * 10 + n % 10);
        assert forall|k: int| 0 <= k < s.len() implies is_digit_char(#[trigger] s[k]) by {
            if k < p.len() {
                assert(s[k] == p[k]);
            } else {
                assert(s[k] == digit_char(n % 10));
            }
        }
    }
}

/// A digit string of length `k` denotes a number below the k-th power of
/// ten.
pub proof fn lemma_digits_value_bound(s: Seq<char>)
    requires
        all_digit_chars(s),
    ensures
        digits_value(s) < pow10(s.len() as int),
    decreases s.len(),
{
    if s.len() > 0 {
        assert(all_digit_chars(s.drop_last())) by {
            assert forall|k: int| 0 <= k < s.drop_last().len() implies is_digit_char(
                #[trigger] s.drop_last()[k],
            ) by {
                assert(s.drop_last()[k] == s[k]);
            }
        }
        lemma_digits_value_bound(s.drop_last());
        assert(s.last() == s[s.len() - 1]);
        assert(pow10(s.len() as int) == 10 * pow10(s.len() - 1));
    }
}

/// A number below the k-th power of ten has a canonical decimal string of
/// at most `k` digits.
pub proof fn lemma_dec_string_of_len(n: int, k: int)
    requires
        0 <= n < pow10(k),
        1 <= k,
    ensures
        dec_string_of(n).len() <= k,
    decreases n,
{
    if n >= 10 {
        assert(pow10(k) == 10 * pow10(k - 1));
        if k == 1 {
            assert(pow10(1) == 10);
            assert(false);
        }
        assert(n / 10 < pow10(k - 1)) by {
            assert(n <= 10 * pow10(k - 1) - 1);
            assert(n / 10 <= (10 * pow10(k - 1) - 1) / 10) by (nonlinear_arith)
                requires
                    n <= 10 * pow10(k - 1) - 1,
                    n >= 0,
            ;
            assert((10 * pow10(k - 1) - 1) / 10 == pow10(k - 1) - 1) by (nonlinear_arith)
                requires
                    pow10(k - 1) >= 1,
            ;
            assert(pow10(k - 1) >= 1) by {
                lemma_pow10_pos(k - 1);
            }
        }
        lemma_dec_string_of_len(n / 10, k - 1);
    }
}

/// Powers of ten are positive.
pub proof fn lemma_pow10_pos(k: int)
    ensures
        pow10(k) >= 1,
    decreases k,
{
    if k > 0 {
        lemma_pow10_pos(k - 1);
    }
}

/// Leading zero characters do not change the number a digit string denotes.
pub proof fn lemma_leading_zeros_value(z: Seq<char>, s: Seq<char>)
    requires
        forall|k: int| 0 <= k < z.len() ==> #[trigger] z[k] == '0',
    ensures
        digits_value(z + s) == digits_value(s),
    decreases s.len(),
{
    if s.len() == 0 {
        assert(z + s =~= z);
        lemma_all_zeros_value(z);
    } else {
        assert((z + s).drop_last() =~= z + s.drop_last());
        assert((z + s).last() == s.last());
        lemma_leading_zeros_value(z, s.drop_last());
    }
}

/// Parse the characters of `s` at positions `[from, to)` as a decimal `u64`.
/// Returns `None` exactly when that substring is not a `u64` digit string:
/// when it is empty, holds a character other than '0' through '9', or
/// denotes a value above `u64::MAX`.
pub fn parse_digits(s: &str, from: usize, to: usize) -> (r: Option<u64>)
    requires
        from <= to <= s@.len(),
    ensures
        match r {
            Some(x) => is_u64_digits(s@.subrange(from as int, to as int)) && x == digits_value(
                s@.subrange(from as int, to as int),
            ),
            None => !is_u64_digits(s@.subrange(from as int, to as int)),
        },
{
    if from == to {
        return None;
    }
    let ghost sub = s@.subrange(from as int, to as int);
    let mut acc: u64 = 0;
    let mut i: usize = from;
    while i < to
        invariant
            from <= i <= to <= s@.len(),
            sub == s@.subrange(from as int, to as int),
            all_digit_chars(s@.subrange(from as int, i as int)),
            acc == digits_value(s@.subrange(from as int, i as int)),
        decreases to - i,
    {
        let c = s.get_char(i);
        let code = c as u32;
        if code < 48 || code > 57 {
            proof {
                assert(sub[i - from] == s@[i as int]);
                assert(!is_digit_char(sub[i - from]));
            }
            return None;
        }
        let d = (code - 48) as u64;
        let wide: u128 = acc as u128 * 10 + d as u128;
        proof {
            assert(s@.subrange(from as int, i + 1).drop_last() =~= s@.subrange(
                from as int,
                i as int,
            ));
            assert(s@.subrange(from as int, i + 1).last() == s@[i as int]);
            assert(digit_value(s@[i as int]) == d);
            assert(digits_value(s@.subrange(from as int, i + 1)) == acc * 10 + d);
        }
        if wide > u64::MAX as u128 {
            proof {
                assert(sub.take(i + 1 - from) =~= s@.subrange(from as int, i + 1));
                if all_digit_chars(sub) {
                    lemma_digits_value_take_le(sub, i + 1 - from);
                }
            }
            return None;
        }
        acc = wide as u64;
        proof {
            assert forall|k: int| 0 <= k < s@.subrange(from as int, i + 1).len() implies
                is_digit_char(#[trigger] s@.subrange(from as int, i + 1)[k]) by {
                if k < i - from {
                    assert(s@.subrange(from as int, i + 1)[k] == s@.subrange(
                        from as int,
                        i as int,
                    )[k]);
                } else {
                    assert(s@.subrange(from as int, i + 1)[k] == s@[i as int]);
                }
            }
        }
        i = i + 1;
    }
    proof {
        assert(s@.subrange(from as int, i as int) =~= sub);
    }
    Some(acc)
}

/// The number of characters of `s@[from..to)` left once trailing '0'
/// characters are removed.
pub fn trimmed_len(s: &str, from: usize, to: usize) -> (w: usize)
    requires
        from <= to <= s@.len(),
    ensures
        w <= to - from,
        trim_zeros(s@.subrange(from as int, to as int)) == s@.subrange(from as int, to as int).take(
            w as int,
        ),
        forall|k: int| w <= k < to - from ==> #[trigger] s@.subrange(from as int, to as int)[k]
            == '0',
{
    let ghost sub = s@.subrange(from as int, to as int);
    let mut w: usize = to - from;
    loop
        invariant
            w <= to - from,
            from <= to <= s@.len(),
            sub == s@.subrange(from as int, to as int),
            forall|k: int| w <= k < sub.len() ==> #[trigger] sub[k] == '0',
        ensures
            w <= to - from,
            forall|k: int| w <= k < sub.len() ==> #[trigger] sub[k] == '0',
            w > 0 ==> sub[w - 1] != '0',
        decreases w,
    {
        if w == 0 {
            break;
        }
        let c = s.get_char(from + w - 1);
        proof {
            assert(sub[w - 1] == s@[from + w - 1]);
        }
        if c != '0' {
            break;
        }
        w = w - 1;
    }
    proof {
        lemma_trim_zeros_at(sub, w as int);
    }
    w
}

} // verus!
