//! Fixed-point decimal with nine fractional digits.
//!
//! A [`Decimal`] is an `i128` count of units of `10^-9`. It is exact: parsing
//! never rounds, and every arithmetic operation either returns an exact or
//! explicitly rounded result or a typed [`ArithError`]. Nothing saturates,
//! wraps or clamps.
use vstd::prelude::*;

use vstd::string::{StringExecFns, StringSliceAdditionalSpecFns};

use crate::text::{decimal_text, join, usize_text};

use crate::digits::{
    all_ascii, all_digits, ascii_string, digit_run_end, digits_val, is_digit, lemma_digit_run_end,
    lemma_digits_val_concat, lemma_digits_val_nonneg, lemma_digits_val_prefix,
    lemma_digits_val_zeros, lemma_pow10_add, lemma_pow10_small, lemma_pow10_step, lemma_pow10_mono, lemma_pow10_pos, lemma_spec_digits,
    lemma_spec_digits_len, pow10, push_digits, spec_digits, zeros,
};

verus! {

/// Number of fractional digits a [`Decimal`] carries.
pub const SCALE: u32 = 9;

/// `10^SCALE`.
pub const ONE_UNITS: i128 = 1_000_000_000;

/// An exact decimal value `units / 10^9`.
#[derive(Clone, Copy, PartialEq, Eq, Hash, Debug)]
pub struct Decimal {
    units: i128,
}

/// Rounding applied when a result has more than [`SCALE`] fractional digits,
/// or when [`Decimal::round_to_scale`] drops digits.
#[derive(Clone, Copy, PartialEq, Eq, Hash, Debug)]
pub enum Rounding {
    /// Round to nearest; an exact tie goes to the even last digit.
    HalfEven,
    /// Discard the excess digits (truncate toward zero).
    TowardZero,
}

/// Why a decimal string was refused.
#[derive(Clone, Copy, PartialEq, Eq, Debug)]
pub enum DecimalError {
    /// The input was empty.
    Empty,
    /// The input does not match `-?(0|[1-9][0-9]*)(\.[0-9]{1,9})?`; `offset`
    /// is the byte where matching failed.
    Syntax { offset: usize },
    /// More than nine fractional digits. Refused, never rounded.
    TooPrecise,
    /// The value does not fit in the `i128` unit range.
    OutOfRange,
}

/// Why an arithmetic operation produced no value.
#[derive(Clone, Copy, PartialEq, Eq, Debug)]
pub enum ArithError {
    /// The result, or a declared intermediate, does not fit in `i128` units.
    Overflow,
    /// The divisor was zero.
    DivisionByZero,
    /// A requested scale was greater than [`SCALE`].
    InvalidScale,
}

// ---------------------------------------------------------------------------
// The mathematical model.

pub open spec fn in_i128(v: int) -> bool {
    i128::MIN <= v <= i128::MAX
}

pub open spec fn abs(v: int) -> int {
    if v < 0 {
        -v
    } else {
        v
    }
}

/// The unit count of a decimal text with the given sign, integer digits and
/// (at most nine) fractional digits.
pub open spec fn units_of(neg: bool, int_part: Seq<u8>, frac: Seq<u8>) -> int {
    let mag = digits_val(int_part) * pow10(9) + digits_val(frac) * pow10((9 - frac.len()) as nat);
    if neg {
        -mag
    } else {
        mag
    }
}

pub open spec fn ranged(v: int) -> Result<int, DecimalError> {
    if in_i128(v) {
        Ok(v)
    } else {
        Err(DecimalError::OutOfRange)
    }
}

/// What [`Decimal::parse`] answers for the bytes `b`: the unit count of
/// `-?(0|[1-9][0-9]*)(\.[0-9]{1,9})?`, or the first refusal.
pub open spec fn spec_parse(b: Seq<u8>) -> Result<int, DecimalError> {
    if b.len() == 0 {
        Err(DecimalError::Empty)
    } else {
        let neg = b[0] == 45u8;
        let st: int = if neg {
            1
        } else {
            0
        };
        let ie = digit_run_end(b, st);
        if ie == st {
            Err(DecimalError::Syntax { offset: st as usize })
        } else if ie - st > 1 && b[st] == 48u8 {
            Err(DecimalError::Syntax { offset: (st + 1) as usize })
        } else if ie == b.len() {
            ranged(units_of(neg, b.subrange(st, ie), Seq::empty()))
        } else if b[ie] != 46u8 {
            Err(DecimalError::Syntax { offset: ie as usize })
        } else {
            let fs = ie + 1;
            let fe = digit_run_end(b, fs);
            if fe == fs {
                Err(DecimalError::Syntax { offset: fs as usize })
            } else if fe < b.len() {
                Err(DecimalError::Syntax { offset: fe as usize })
            } else if fe - fs > 9 {
                Err(DecimalError::TooPrecise)
            } else {
                ranged(units_of(neg, b.subrange(st, ie), b.subrange(fs, fe)))
            }
        }
    }
}

/// `f` without its trailing decimal zeros, and how many were removed.
pub open spec fn strip_zeros(f: nat) -> (nat, nat)
    decreases f,
{
    if f > 0 && f % 10 == 0 {
        let r = strip_zeros(f / 10);
        (r.0, r.1 + 1)
    } else {
        (f, 0)
    }
}

/// The fractional digits of `f` units (`1..10^9`): nine digits, zero
/// padded on the left, with the trailing zeros removed.
pub open spec fn frac_text(f: nat) -> Seq<u8> {
    let g = strip_zeros(f).0;
    let t = strip_zeros(f).1;
    zeros((9 - t - spec_digits(g).len()) as nat) + spec_digits(g)
}

/// The canonical text of `u` units: no trailing fractional zeros, no `.`
/// when integral, never `-0`.
pub open spec fn canonical_text(u: int) -> Seq<u8> {
    let m = abs(u);
    let ip = m / 1_000_000_000;
    let fp = m % 1_000_000_000;
    let sign = if u < 0 {
        seq![45u8]
    } else {
        Seq::<u8>::empty()
    };
    let frac = if fp == 0 {
        Seq::<u8>::empty()
    } else {
        seq![46u8] + frac_text(fp as nat)
    };
    sign + spec_digits(ip as nat) + frac
}

/// The quotient `n / d` truncated toward zero.
pub open spec fn trunc_div(n: int, d: int) -> int {
    let q = abs(n) / abs(d);
    if (n < 0) != (d < 0) {
        -q
    } else {
        q
    }
}

/// `n / d` rounded to an integer: truncated, or to nearest with exact
/// ties to the even integer.
pub open spec fn round_div(n: int, d: int, mode: Rounding) -> int {
    let q = trunc_div(n, d);
    let rem = n - q * d;
    if rem == 0 || mode == Rounding::TowardZero {
        q
    } else if 2 * abs(rem) > abs(d) || (2 * abs(rem) == abs(d) && q % 2 != 0) {
        if (n < 0) != (d < 0) {
            q - 1
        } else {
            q + 1
        }
    } else {
        q
    }
}

/// A decimal result seen as its unit count.
pub open spec fn units_result(r: Result<Decimal, DecimalError>) -> Result<int, DecimalError> {
    match r {
        Ok(d) => Ok(d@),
        Err(e) => Err(e),
    }
}

/// An arithmetic result seen as its unit count.
pub open spec fn arith_result(r: Result<Decimal, ArithError>) -> Result<int, ArithError> {
    match r {
        Ok(d) => Ok(d@),
        Err(e) => Err(e),
    }
}

/// The arithmetic answer for an exact value `v`.
pub open spec fn fitted(v: int) -> Result<int, ArithError> {
    if in_i128(v) {
        Ok(v)
    } else {
        Err(ArithError::Overflow)
    }
}

impl View for Decimal {
    type V = int;

    closed spec fn view(&self) -> int {
        self.units as int
    }
}

// ---------------------------------------------------------------------------
// Lemmas.

proof fn lemma_pow10_9()
    ensures
        pow10(9) == 1_000_000_000,
{
    reveal_with_fuel(pow10, 10);
}

proof fn lemma_view_range(d: Decimal)
    ensures
        in_i128(d@),
{
}

proof fn lemma_strip_zeros(f: nat)
    requires
        f >= 1,
    ensures
        strip_zeros(f).0 * pow10(strip_zeros(f).1) == f,
        strip_zeros(f).0 >= 1,
        strip_zeros(f).0 % 10 != 0,
    decreases f,
{
    if f % 10 == 0 {
        lemma_strip_zeros(f / 10);
        let r = strip_zeros(f / 10);
        assert(pow10(r.1 + 1) == 10 * pow10(r.1));
        assert(r.0 * (10 * pow10(r.1)) == 10 * (r.0 * pow10(r.1))) by (nonlinear_arith);
    }
}

/// The fractional text of `f` units is one to nine digits whose value,
/// scaled back by the dropped zeros, is `f`.
proof fn lemma_frac_text(f: nat)
    requires
        1 <= f < 1_000_000_000,
    ensures
        1 <= frac_text(f).len() <= 9,
        all_digits(frac_text(f)),
        all_ascii(frac_text(f)),
        digits_val(frac_text(f)) * pow10((9 - frac_text(f).len()) as nat) == f,
{
    lemma_strip_zeros(f);
    let g = strip_zeros(f).0;
    let t = strip_zeros(f).1;
    lemma_spec_digits(g);
    lemma_pow10_9();
    lemma_pow10_pos(t);
    // g < 10^(9 - t): otherwise g * 10^t would reach 10^9.
    if t > 9 {
        lemma_pow10_mono(9, t);
        assert(g * pow10(t) >= pow10(t)) by (nonlinear_arith)
            requires
                g >= 1,
                pow10(t) >= 1,
        ;
        assert(false);
    }
    lemma_pow10_add((9 - t) as nat, t);
    if g >= pow10((9 - t) as nat) {
        assert(g * pow10(t) >= pow10((9 - t) as nat) * pow10(t)) by (nonlinear_arith)
            requires
                g >= pow10((9 - t) as nat),
                pow10(t) >= 1,
        ;
        assert(false);
    }
    if t == 9 {
        assert(pow10(0) == 1);
        assert(false);
    }
    lemma_spec_digits_len(g, (9 - t) as nat);
    let z = zeros((9 - t - spec_digits(g).len()) as nat);
    lemma_digits_val_zeros((9 - t - spec_digits(g).len()) as nat);
    lemma_digits_val_concat(z, spec_digits(g));
    let ft = frac_text(f);
    assert(ft == z + spec_digits(g));
    assert(ft.len() == 9 - t);
    assert(digits_val(ft) == g);
    assert forall|i: int| 0 <= i < ft.len() implies is_digit(#[trigger] ft[i]) by {
        if i < z.len() {
            assert(ft[i] == z[i]);
        } else {
            assert(ft[i] == spec_digits(g)[i - z.len()]);
        }
    }
    assert forall|i: int| 0 <= i < ft.len() implies #[trigger] ft[i] < 128 by {
        assert(is_digit(ft[i]));
    }
}

/// The central law of the canonical form: parsing the canonical text of any
/// unit count gives that unit count back.
pub proof fn lemma_parse_canonical(u: int)
    requires
        in_i128(u),
    ensures
        spec_parse(canonical_text(u)) == Ok::<int, DecimalError>(u),
{
    let m = abs(u);
    let ip = m / 1_000_000_000;
    let fp = m % 1_000_000_000;
    let d = spec_digits(ip as nat);
    lemma_spec_digits(ip as nat);
    lemma_pow10_9();
    let sign = if u < 0 {
        seq![45u8]
    } else {
        Seq::<u8>::empty()
    };
    let frac = if fp == 0 {
        Seq::<u8>::empty()
    } else {
        seq![46u8] + frac_text(fp as nat)
    };
    let b = canonical_text(u);
    assert(b == sign + d + frac);
    let st: int = sign.len() as int;
    let ie = st + d.len();
    assert(b[0] == 45u8 <==> u < 0) by {
        if u >= 0 {
            assert(b[0] == d[0]);
            assert(is_digit(d[0]));
        }
    }
    assert forall|j: int| st <= j < ie implies is_digit(#[trigger] b[j]) by {
        assert(b[j] == d[j - st]);
    }
    if fp != 0 {
        assert(b[ie] == 46u8);
    }
    lemma_digit_run_end(b, st, ie);
    assert(b.subrange(st, ie) =~= d);
    if d.len() > 1 {
        assert(b[st] == d[0]);
    }
    if fp == 0 {
        assert(b.len() == ie);
        assert(digits_val(Seq::<u8>::empty()) == 0);
        assert(m == ip * 1_000_000_000);
    } else {
        lemma_frac_text(fp as nat);
        let ft = frac_text(fp as nat);
        let fs = ie + 1;
        assert forall|j: int| fs <= j < b.len() implies is_digit(#[trigger] b[j]) by {
            assert(b[j] == ft[j - fs]);
        }
        lemma_digit_run_end(b, fs, b.len() as int);
        assert(b.subrange(fs, b.len() as int) =~= ft);
        assert(m == ip * 1_000_000_000 + fp);
    }
}

/// The law in terms of decimals: [`Decimal::parse`] inverts
/// [`Decimal::to_canonical_string`] exactly.
pub proof fn law_parse_inverts_canonical(d: Decimal)
    ensures
        spec_parse(canonical_text(d@)) == Ok::<int, DecimalError>(d@),
{
    lemma_parse_canonical(d@);
}

/// Addition is exact: subtracting what was added gives back the first
/// operand, whenever the sum fits.
pub proof fn law_sum_then_difference_round_trips(a: Decimal, b: Decimal)
    requires
        fitted(a@ + b@) is Ok,
    ensures
        fitted(fitted(a@ + b@)->Ok_0 - b@) == Ok::<int, ArithError>(a@),
{
    assert(in_i128(a@));
}

/// `10^e` for small `e`.
fn pow10_i128(e: u32) -> (r: i128)
    requires
        e <= 18,
    ensures
        r == pow10(e as nat),
        r >= 1,
{
    let mut r: i128 = 1;
    let mut k: u32 = 0;
    proof {
        reveal_with_fuel(pow10, 19);
        assert(pow10(18) == 1_000_000_000_000_000_000);
        lemma_pow10_mono(e as nat, 18);
        assert(pow10(0) == 1);
    }
    while k < e
        invariant
            k <= e <= 18,
            r == pow10(k as nat),
            pow10(e as nat) <= 1_000_000_000_000_000_000,
        decreases e - k,
    {
        proof {
            lemma_pow10_mono((k + 1) as nat, e as nat);
            lemma_pow10_step(k as nat);
            lemma_pow10_pos(k as nat);
            assert(r * 10 <= 1_000_000_000_000_000_000);
        }
        r = r * 10;
        k = k + 1;
    }
    proof {
        lemma_pow10_pos(e as nat);
    }
    r
}

/// The magnitude of `n` as an unsigned number.
fn magnitude(n: i128) -> (r: u128)
    ensures
        r as int == abs(n as int),
{
    if n < 0 {
        ((-(n + 1)) as u128) + 1
    } else {
        n as u128
    }
}

/// `n / d` with the given rounding. `d` must be non-zero.
pub fn div_round(n: i128, d: i128, rounding: Rounding) -> (r: Result<i128, ArithError>)
    requires
        d != 0,
    ensures
        r matches Ok(v) ==> v == round_div(n as int, d as int, rounding),
        r is Ok <==> in_i128(round_div(n as int, d as int, rounding)),
        r matches Err(e) ==> e == ArithError::Overflow,
{
    let an = magnitude(n);
    let ad = magnitude(d);
    let qm = an / ad;
    let rm = an % ad;
    let neg = (n < 0) != (d < 0);
    let ghost q = trunc_div(n as int, d as int);
    let ghost rem = n as int - q * d as int;
    proof {
        assert(qm == abs(n as int) / abs(d as int));
        assert(an == qm * ad + rm) by (nonlinear_arith)
            requires
                qm == an / ad,
                rm == an % ad,
                ad > 0,
        ;
        assert(abs(rem) == rm) by (nonlinear_arith)
            requires
                q == (if neg {
                    -(qm as int)
                } else {
                    qm as int
                }),
                rem == n - q * d,
                an == qm * ad + rm,
                an == abs(n as int),
                ad == abs(d as int),
                neg == ((n < 0) != (d < 0)),
        ;
        assert((q % 2 != 0) == (qm % 2 != 0));
        if ad >= 2 {
            assert(qm * 2 <= an) by (nonlinear_arith)
                requires
                    qm == an / ad,
                    ad >= 2,
            ;
        }
        assert(rm < ad);
    }
    let mut adj: u128 = qm;
    let away = match rounding {
        Rounding::HalfEven => {
            if rm == 0 {
                false
            } else {
                let twice = rm * 2;
                twice > ad || (twice == ad && qm % 2 != 0)
            }
        },
        Rounding::TowardZero => false,
    };
    if away {
        adj = qm + 1;
    }
    if neg {
        if adj > 170141183460469231731687303715884105728u128 {
            Err(ArithError::Overflow)
        } else if adj == 170141183460469231731687303715884105728u128 {
            Ok(i128::MIN)
        } else {
            Ok(-(adj as i128))
        }
    } else {
        if adj > 170141183460469231731687303715884105727u128 {
            Err(ArithError::Overflow)
        } else {
            Ok(adj as i128)
        }
    }
}

impl Decimal {
    /// Zero.
    pub fn zero() -> (r: Decimal)
        ensures
            r@ == 0,
    {
        Decimal { units: 0 }
    }

    /// The decimal `units / 10^9`.
    pub fn from_units(units: i128) -> (r: Decimal)
        ensures
            r@ == units,
    {
        Decimal { units }
    }

    /// The raw unit count (`value * 10^9`).
    pub fn units(&self) -> (r: i128)
        ensures
            r == self@,
    {
        self.units
    }

    /// The integer `v`. Always fits: `|i64| * 10^9 < 2^127`.
    pub fn from_i64(v: i64) -> (r: Decimal)
        ensures
            r@ == v * 1_000_000_000,
    {
        Decimal { units: v as i128 * ONE_UNITS }
    }

    /// True when the value is strictly below zero.
    pub fn is_negative(&self) -> (r: bool)
        ensures
            r == (self@ < 0),
    {
        self.units < 0
    }

    /// `self < other`, by value.
    pub fn lt(&self, other: &Decimal) -> (r: bool)
        ensures
            r == (self@ < other@),
    {
        self.units < other.units
    }

    /// `self <= other`, by value.
    pub fn le(&self, other: &Decimal) -> (r: bool)
        ensures
            r == (self@ <= other@),
    {
        self.units <= other.units
    }

    /// `self == other`, by value.
    pub fn same(&self, other: &Decimal) -> (r: bool)
        ensures
            r == (self@ == other@),
    {
        self.units == other.units
    }

    /// Parse `-?(0|[1-9][0-9]*)(\.[0-9]{1,9})?` exactly.
    ///
    /// No whitespace, `+`, exponent, leading zero, bare or trailing `.` is
    /// accepted. Trailing fractional zeros are accepted (`1.50` equals `1.5`),
    /// and `-0` equals zero. More than nine fractional digits is
    /// [`DecimalError::TooPrecise`]; a value outside the `i128` unit range is
    /// [`DecimalError::OutOfRange`].
    pub fn parse(s: &str) -> (r: Result<Decimal, DecimalError>)
        ensures
            units_result(r) == spec_parse(s.spec_bytes()),
    {
        let b = s.as_bytes();
        Self::parse_bytes(b)
    }

    /// [`Decimal::parse`] on the UTF-8 bytes of the text.
    pub fn parse_bytes(b: &[u8]) -> (r: Result<Decimal, DecimalError>)
        ensures
            units_result(r) == spec_parse(b@),
    {
        let n = b.len();
        if n == 0 {
            return Err(DecimalError::Empty);
        }
        let mut i: usize = 0;
        let negative = b[0] == 45u8;
        if negative {
            i = 1;
        }
        let int_start = i;
        while i < n && 48 <= b[i] && b[i] <= 57
            invariant
                int_start <= i <= n,
                n == b@.len(),
                int_start <= 1,
                forall|j: int| int_start <= j < i ==> is_digit(#[trigger] b@[j]),
                digit_run_end(b@, int_start as int) == digit_run_end(b@, i as int),
            decreases n - i,
        {
            i = i + 1;
        }
        let int_end = i;
        assert(digit_run_end(b@, int_end as int) == int_end);
        if int_end == int_start {
            return Err(DecimalError::Syntax { offset: int_start });
        }
        if int_end - int_start > 1 && b[int_start] == 48u8 {
            return Err(DecimalError::Syntax { offset: int_start + 1 });
        }
        let mut frac_start = int_end;
        let mut frac_end = int_end;
        if i < n {
            if b[i] != 46u8 {
                return Err(DecimalError::Syntax { offset: i });
            }
            i = i + 1;
            frac_start = i;
            while i < n && 48 <= b[i] && b[i] <= 57
                invariant
                    frac_start <= i <= n,
                    n == b@.len(),
                    forall|j: int| frac_start <= j < i ==> is_digit(#[trigger] b@[j]),
                    digit_run_end(b@, frac_start as int) == digit_run_end(b@, i as int),
                decreases n - i,
            {
                i = i + 1;
            }
            frac_end = i;
            assert(digit_run_end(b@, frac_end as int) == frac_end);
            if frac_end == frac_start {
                return Err(DecimalError::Syntax { offset: frac_start });
            }
            if i < n {
                return Err(DecimalError::Syntax { offset: i });
            }
            if frac_end - frac_start > 9 {
                return Err(DecimalError::TooPrecise);
            }
        }
        let ghost int_seq = b@.subrange(int_start as int, int_end as int);
        let ghost frac_seq = b@.subrange(frac_start as int, frac_end as int);
        let ghost neg = negative;
        assert(all_digits(int_seq));
        assert(all_digits(frac_seq));
        assert(frac_seq.len() <= 9);
        assert(spec_parse(b@) == ranged(units_of(neg, int_seq, frac_seq))) by {
            if frac_end == int_end {
                assert(frac_seq =~= Seq::<u8>::empty());
            }
        }
        // Magnitude in u128 so that i128::MIN's magnitude (2^127) is reachable.
        let mut mag: u128 = 0;
        let mut k = int_start;
        proof {
            lemma_digits_val_nonneg(frac_seq);
            lemma_pow10_pos((9 - frac_seq.len()) as nat);
            lemma_pow10_9();
            assert(digits_val(frac_seq) * pow10((9 - frac_seq.len()) as nat) >= 0)
                by (nonlinear_arith)
                requires
                    digits_val(frac_seq) >= 0,
                    pow10((9 - frac_seq.len()) as nat) >= 1,
            ;
        }
        while k < int_end
            invariant
                int_start <= k <= int_end <= n,
                n == b@.len(),
                int_seq == b@.subrange(int_start as int, int_end as int),
                all_digits(int_seq),
                mag == digits_val(b@.subrange(int_start as int, k as int)),
                spec_parse(b@) == ranged(units_of(neg, int_seq, frac_seq)),
                digits_val(frac_seq) * pow10((9 - frac_seq.len()) as nat) >= 0,
            decreases int_end - k,
        {
            proof {
                assert(b@.subrange(int_start as int, k + 1).drop_last() =~= b@.subrange(
                    int_start as int,
                    k as int,
                ));
                assert(b@[k as int] == int_seq[k - int_start]);
                lemma_pow10_9();
            }
            let d = (b[k] - 48) as u128;
            if mag > (340282366920938463463374607431768211455u128 - d) / 10 {
                proof {
                    assert(b@.subrange(int_start as int, k + 1) =~= int_seq.take(
                        k + 1 - int_start,
                    ));
                    lemma_digits_val_prefix(int_seq, k + 1 - int_start);
                    assert(digits_val(int_seq) > 340282366920938463463374607431768211455int);
                    assert(digits_val(int_seq) * pow10(9) >= digits_val(int_seq))
                        by (nonlinear_arith)
                        requires
                            digits_val(int_seq) >= 0,
                            pow10(9) >= 1,
                    ;
                }
                return Err(DecimalError::OutOfRange);
            }
            mag = mag * 10 + d;
            k = k + 1;
        }
        assert(b@.subrange(int_start as int, int_end as int) == int_seq);
        if mag > 340282366920938463463374607431768211455u128 / 1_000_000_000u128 {
            proof {
                assert(digits_val(int_seq) * pow10(9) > 340282366920938463463374607431768211455int)
                    by (nonlinear_arith)
                    requires
                        digits_val(int_seq) > 340282366920938463463374607431768211455int
                            / 1_000_000_000,
                        pow10(9) == 1_000_000_000,
                ;
            }
            return Err(DecimalError::OutOfRange);
        }
        assert(mag * 1_000_000_000 <= 340282366920938463463374607431768211455int) by (nonlinear_arith)
            requires
                mag <= 340282366920938463463374607431768211455int / 1_000_000_000,
        ;
        mag = mag * 1_000_000_000u128;
        let mut frac: u128 = 0;
        let mut k = frac_start;
        while k < frac_end
            invariant
                frac_start <= k <= frac_end <= n,
                frac_end - frac_start <= 9,
                n == b@.len(),
                frac_seq == b@.subrange(frac_start as int, frac_end as int),
                all_digits(frac_seq),
                frac == digits_val(b@.subrange(frac_start as int, k as int)),
                frac < pow10((k - frac_start) as nat),
                pow10((k - frac_start) as nat) <= 1_000_000_000,
            decreases frac_end - k,
        {
            proof {
                assert(b@.subrange(frac_start as int, k + 1).drop_last() =~= b@.subrange(
                    frac_start as int,
                    k as int,
                ));
                assert(b@[k as int] == frac_seq[k - frac_start]);
                lemma_pow10_mono((k + 1 - frac_start) as nat, 9);
                lemma_pow10_9();
            }
            frac = frac * 10 + (b[k] - 48) as u128;
            k = k + 1;
        }
        assert(b@.subrange(frac_start as int, frac_end as int) == frac_seq);
        let factor = pow10_i128(9 - (frac_end - frac_start) as u32);
        proof {
            lemma_pow10_add(((frac_end - frac_start) as nat), (9 - (frac_end - frac_start)) as nat);
            lemma_pow10_9();
            assert(frac * factor < 1_000_000_000) by (nonlinear_arith)
                requires
                    frac < pow10((frac_end - frac_start) as nat),
                    factor >= 1,
                    pow10((frac_end - frac_start) as nat) * factor == 1_000_000_000,
            ;
        }
        let frac = frac * (factor as u128);
        if mag > 340282366920938463463374607431768211455u128 - frac {
            return Err(DecimalError::OutOfRange);
        }
        mag = mag + frac;
        assert(mag == abs(units_of(neg, int_seq, frac_seq)));
        let limit: u128 = 170141183460469231731687303715884105727;
        let units: i128 = if negative {
            if mag == limit + 1 {
                i128::MIN
            } else if mag > limit {
                return Err(DecimalError::OutOfRange);
            } else {
                -(mag as i128)
            }
        } else if mag > limit {
            return Err(DecimalError::OutOfRange);
        } else {
            mag as i128
        };
        Ok(Decimal { units })
    }

    /// The canonical form: no trailing fractional zeros, no `.` when
    /// integral, never `-0`. [`Decimal::parse`] inverts it exactly.
    pub fn to_canonical_string(&self) -> (r: String)
        ensures
            vstd::utf8::encode_utf8(r@) == canonical_text(self@),
    {
        let u = self.units;
        let mag = magnitude(u);
        let ip = mag / 1_000_000_000u128;
        let fp = mag % 1_000_000_000u128;
        let mut out: Vec<u8> = Vec::new();
        if u < 0 {
            out.push(45u8);
        }
        push_digits(ip, &mut out);
        let ghost head = out@;
        if fp != 0 {
            out.push(46u8);
            let mut g = fp;
            let mut width: usize = 9;
            proof {
                lemma_pow10_9();
                reveal_with_fuel(pow10, 2);
            }
            while g % 10 == 0
                invariant
                    1 <= width <= 9,
                    g >= 1,
                    g * pow10((9 - width) as nat) == fp,
                    g < pow10(width as nat),
                    strip_zeros(g as nat).0 == strip_zeros(fp as nat).0,
                    strip_zeros(g as nat).1 + (9 - width) == strip_zeros(fp as nat).1,
                decreases g,
            {
                proof {
                    lemma_pow10_small();
                    if width == 1 {
                        assert(false);
                    }
                    lemma_pow10_step((width - 1) as nat);
                    lemma_pow10_step((9 - width) as nat);
                    assert((g / 10) * pow10((9 - width + 1) as nat) == fp) by (nonlinear_arith)
                        requires
                            g % 10 == 0,
                            g * pow10((9 - width) as nat) == fp,
                            pow10((9 - width + 1) as nat) == 10 * pow10((9 - width) as nat),
                    ;
                    assert(g / 10 < pow10((width - 1) as nat)) by (nonlinear_arith)
                        requires
                            g < pow10(width as nat),
                            pow10(width as nat) == 10 * pow10((width - 1) as nat),
                    ;
                }
                g = g / 10;
                width = width - 1;
            }
            let mut tmp: Vec<u8> = Vec::new();
            push_digits(g, &mut tmp);
            proof {
                assert(tmp@ == spec_digits(g as nat));
                lemma_spec_digits_len(g as nat, width as nat);
                assert(strip_zeros(g as nat) == (g as nat, 0nat));
            }
            let mut z = tmp.len();
            let ghost before_pad = out@;
            while z < width
                invariant
                    tmp.len() <= z <= width,
                    out@ == before_pad + zeros((z - tmp.len()) as nat),
                decreases width - z,
            {
                out.push(48u8);
                z = z + 1;
                proof {
                    assert(out@ =~= before_pad + zeros((z - tmp.len()) as nat));
                }
            }
            let ghost before_digits = out@;
            let mut j: usize = 0;
            while j < tmp.len()
                invariant
                    j <= tmp.len(),
                    out@ == before_digits + tmp@.take(j as int),
                decreases tmp.len() - j,
            {
                out.push(tmp[j]);
                j = j + 1;
                proof {
                    assert(out@ =~= before_digits + tmp@.take(j as int));
                }
            }
            proof {
                assert(tmp@.take(tmp.len() as int) =~= tmp@);
                assert(out@ =~= head + (seq![46u8] + frac_text(fp as nat)));
            }
        }
        proof {
            lemma_spec_digits(ip as nat);
            let ct = canonical_text(self@);
            assert(out@ =~= ct);
            if fp != 0 {
                lemma_frac_text(fp as nat);
            }
            assert forall|i: int| 0 <= i < out@.len() implies #[trigger] out@[i] < 128 by {
                let sl: int = if u < 0 { 1 } else { 0 };
                let dl = spec_digits(ip as nat).len();
                if i >= sl && i < sl + dl {
                    assert(out@[i] == spec_digits(ip as nat)[i - sl]);
                } else if i >= sl + dl + 1 {
                    assert(out@[i] == frac_text(fp as nat)[i - sl - dl - 1]);
                }
            }
        }
        ascii_string(out)
    }

    /// Exact sum, or [`ArithError::Overflow`].
    pub fn checked_add(self, rhs: Decimal) -> (r: Result<Decimal, ArithError>)
        ensures
            arith_result(r) == fitted(self@ + rhs@),
    {
        match self.units.checked_add(rhs.units) {
            Some(u) => Ok(Decimal { units: u }),
            None => Err(ArithError::Overflow),
        }
    }

    /// Exact difference, or [`ArithError::Overflow`].
    pub fn checked_sub(self, rhs: Decimal) -> (r: Result<Decimal, ArithError>)
        ensures
            arith_result(r) == fitted(self@ - rhs@),
    {
        match self.units.checked_sub(rhs.units) {
            Some(u) => Ok(Decimal { units: u }),
            None => Err(ArithError::Overflow),
        }
    }

    /// Product rounded to nine fractional digits.
    ///
    /// Declared bound: the exact intermediate `units_a * units_b` must fit in
    /// `i128`; otherwise [`ArithError::Overflow`], even if the rounded result
    /// would fit.
    pub fn checked_mul(self, rhs: Decimal, rounding: Rounding) -> (r: Result<Decimal, ArithError>)
        ensures
            arith_result(r) == (if in_i128(self@ * rhs@) {
                fitted(round_div(self@ * rhs@, 1_000_000_000, rounding))
            } else {
                Err(ArithError::Overflow)
            }),
    {
        let p = match self.units.checked_mul(rhs.units) {
            Some(p) => p,
            None => return Err(ArithError::Overflow),
        };
        match div_round(p, ONE_UNITS, rounding) {
            Ok(u) => Ok(Decimal { units: u }),
            Err(e) => Err(e),
        }
    }

    /// Quotient rounded to nine fractional digits.
    ///
    /// Declared bound: the intermediate `units_a * 10^9` must fit in `i128`;
    /// otherwise [`ArithError::Overflow`]. A zero divisor is
    /// [`ArithError::DivisionByZero`].
    pub fn checked_div(self, rhs: Decimal, rounding: Rounding) -> (r: Result<Decimal, ArithError>)
        ensures
            arith_result(r) == (if rhs@ == 0 {
                Err(ArithError::DivisionByZero)
            } else if !in_i128(self@ * 1_000_000_000) {
                Err(ArithError::Overflow)
            } else {
                fitted(round_div(self@ * 1_000_000_000, rhs@, rounding))
            }),
    {
        if rhs.units == 0 {
            return Err(ArithError::DivisionByZero);
        }
        let n = match self.units.checked_mul(ONE_UNITS) {
            Some(n) => n,
            None => return Err(ArithError::Overflow),
        };
        match div_round(n, rhs.units, rounding) {
            Ok(u) => Ok(Decimal { units: u }),
            Err(e) => Err(e),
        }
    }

    /// Round to `scale` fractional digits (`0..=9`); a larger scale is
    /// [`ArithError::InvalidScale`]. Rounding away from zero at the edge of
    /// the range is [`ArithError::Overflow`].
    pub fn round_to_scale(self, scale: u32, rounding: Rounding) -> (r: Result<Decimal, ArithError>)
        ensures
            arith_result(r) == (if scale > 9 {
                Err(ArithError::InvalidScale)
            } else {
                fitted(
                    round_div(self@, pow10((9 - scale) as nat), rounding) * pow10(
                        (9 - scale) as nat,
                    ),
                )
            }),
    {
        if scale > SCALE {
            return Err(ArithError::InvalidScale);
        }
        let factor = pow10_i128(SCALE - scale);
        let q = match div_round(self.units, factor, rounding) {
            Ok(q) => q,
            Err(e) => {
                proof {
                    let rq = round_div(self@, factor as int, rounding);
                    assert(!in_i128(rq * factor)) by (nonlinear_arith)
                        requires
                            !in_i128(rq),
                            factor >= 1,
                    ;
                }
                return Err(e);
            },
        };
        match q.checked_mul(factor) {
            Some(u) => Ok(Decimal { units: u }),
            None => Err(ArithError::Overflow),
        }
    }
}


/// What a refused decimal text is told.
pub open spec fn decimal_error_text(e: DecimalError) -> Seq<char> {
    match e {
        DecimalError::Empty => "empty decimal"@,
        DecimalError::Syntax { offset } => "malformed decimal at byte "@ + decimal_text(offset as nat),
        DecimalError::TooPrecise => "decimal has more than 9 fractional digits"@,
        DecimalError::OutOfRange => "decimal out of range"@,
    }
}

impl DecimalError {
    /// The refusal as text.
    pub fn message(&self) -> (r: String)
        ensures
            r@ == decimal_error_text(*self),
    {
        match self {
            DecimalError::Empty => String::from_str("empty decimal"),
            DecimalError::Syntax { offset } => join("malformed decimal at byte ", usize_text(*offset).as_str()),
            DecimalError::TooPrecise => String::from_str("decimal has more than 9 fractional digits"),
            DecimalError::OutOfRange => String::from_str("decimal out of range"),
        }
    }
}

/// What a refused operation is told.
pub open spec fn arith_error_text(e: ArithError) -> Seq<char> {
    match e {
        ArithError::Overflow => "decimal arithmetic overflow"@,
        ArithError::DivisionByZero => "decimal division by zero"@,
        ArithError::InvalidScale => "scale exceeds 9"@,
    }
}

impl ArithError {
    /// The refusal as text.
    pub fn message(&self) -> (r: String)
        ensures
            r@ == arith_error_text(*self),
    {
        match self {
            ArithError::Overflow => String::from_str("decimal arithmetic overflow"),
            ArithError::DivisionByZero => String::from_str("decimal division by zero"),
            ArithError::InvalidScale => String::from_str("scale exceeds 9"),
        }
    }
}

} // verus!
