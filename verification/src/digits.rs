//! Decimal digit strings: their value, the digit string of a number, and
//! the ASCII text helpers the parsers and writers share.
use vstd::prelude::*;

verus! {

/// `10^n`.
pub open spec fn pow10(n: nat) -> int
    decreases n,
{
    if n == 0 {
        1
    } else {
        10 * pow10((n - 1) as nat)
    }
}

/// An ASCII decimal digit.
pub open spec fn is_digit(c: u8) -> bool {
    48 <= c <= 57
}

/// Every byte is an ASCII decimal digit.
pub open spec fn all_digits(s: Seq<u8>) -> bool {
    forall|i: int| 0 <= i < s.len() ==> is_digit(#[trigger] s[i])
}

/// Every byte is ASCII.
pub open spec fn all_ascii(s: Seq<u8>) -> bool {
    forall|i: int| 0 <= i < s.len() ==> #[trigger] s[i] < 128
}

/// The value of a string of decimal digits, most significant first.
pub open spec fn digits_val(s: Seq<u8>) -> int
    decreases s.len(),
{
    if s.len() == 0 {
        0
    } else {
        digits_val(s.drop_last()) * 10 + (s.last() - 48)
    }
}

/// The end of the run of digits that starts at `i`.
pub open spec fn digit_run_end(s: Seq<u8>, i: int) -> int
    decreases s.len() - i,
{
    if 0 <= i < s.len() && is_digit(s[i]) {
        digit_run_end(s, i + 1)
    } else {
        i
    }
}

/// The shortest decimal digit string of `n` (`"0"` for zero).
pub open spec fn spec_digits(n: nat) -> Seq<u8>
    decreases n,
{
    if n < 10 {
        seq![(48 + n) as u8]
    } else {
        spec_digits(n / 10).push((48 + n % 10) as u8)
    }
}

/// `n` zero digits.
pub open spec fn zeros(n: nat) -> Seq<u8> {
    Seq::new(n, |i: int| 48u8)
}

pub proof fn lemma_pow10_small()
    ensures
        pow10(0) == 1,
        pow10(1) == 10,
        pow10(2) == 100,
        pow10(9) == 1_000_000_000,
{
    reveal_with_fuel(pow10, 10);
}

pub proof fn lemma_pow10_step(n: nat)
    ensures
        pow10(n + 1) == 10 * pow10(n),
{
    assert(((n + 1) as nat - 1) as nat == n);
}

pub proof fn lemma_pow10_pos(n: nat)
    ensures
        pow10(n) >= 1,
    decreases n,
{
    if n > 0 {
        lemma_pow10_pos((n - 1) as nat);
    }
}

pub proof fn lemma_pow10_add(a: nat, b: nat)
    ensures
        pow10(a + b) == pow10(a) * pow10(b),
    decreases a,
{
    if a > 0 {
        lemma_pow10_add((a - 1) as nat, b);
        assert(pow10(a + b) == 10 * pow10((a - 1 + b) as nat));
        assert(10 * (pow10((a - 1) as nat) * pow10(b)) == (10 * pow10((a - 1) as nat)) * pow10(b))
            by (nonlinear_arith);
    }
}

pub proof fn lemma_pow10_mono(a: nat, b: nat)
    requires
        a <= b,
    ensures
        pow10(a) <= pow10(b),
    decreases b,
{
    if a < b {
        lemma_pow10_mono(a, (b - 1) as nat);
        lemma_pow10_pos((b - 1) as nat);
    }
}

pub proof fn lemma_digits_val_nonneg(s: Seq<u8>)
    requires
        all_digits(s),
    ensures
        digits_val(s) >= 0,
    decreases s.len(),
{
    if s.len() > 0 {
        lemma_digits_val_nonneg(s.drop_last());
    }
}

/// `digits_val(a + b) == digits_val(a) * 10^|b| + digits_val(b)`.
pub proof fn lemma_digits_val_concat(a: Seq<u8>, b: Seq<u8>)
    ensures
        digits_val(a + b) == digits_val(a) * pow10(b.len()) + digits_val(b),
    decreases b.len(),
{
    if b.len() == 0 {
        assert(a + b =~= a);
    } else {
        lemma_digits_val_concat(a, b.drop_last());
        assert((a + b).drop_last() =~= a + b.drop_last());
        assert((a + b).last() == b.last());
        let p = pow10((b.len() - 1) as nat);
        assert(pow10(b.len()) == 10 * p);
        assert((digits_val(a) * p + digits_val(b.drop_last())) * 10 + (b.last() - 48)
            == digits_val(a) * (10 * p) + (digits_val(b.drop_last()) * 10 + (b.last() - 48)))
            by (nonlinear_arith);
    }
}

pub proof fn lemma_digits_val_zeros(n: nat)
    ensures
        digits_val(zeros(n)) == 0,
        all_digits(zeros(n)),
    decreases n,
{
    if n > 0 {
        lemma_digits_val_zeros((n - 1) as nat);
        assert(zeros(n).drop_last() =~= zeros((n - 1) as nat));
    }
}

/// A digit string is at least as large as any of its prefixes.
pub proof fn lemma_digits_val_prefix(s: Seq<u8>, k: int)
    requires
        all_digits(s),
        0 <= k <= s.len(),
    ensures
        digits_val(s) >= digits_val(s.take(k)),
    decreases s.len() - k,
{
    if k < s.len() {
        lemma_digits_val_prefix(s, k + 1);
        assert(s.take(k + 1).drop_last() =~= s.take(k));
        assert(s.take(k + 1).last() == s[k]);
        assert(is_digit(s[k]));
        assert(all_digits(s.take(k))) by {
            assert forall|i: int| 0 <= i < s.take(k).len() implies is_digit(#[trigger] s.take(k)[i]) by {
                assert(s.take(k)[i] == s[i]);
            }
        }
        lemma_digits_val_nonneg(s.take(k));
    } else {
        assert(s.take(k) =~= s);
    }
}

/// The value of a digit string is below `10^len`.
pub proof fn lemma_digits_val_bound(s: Seq<u8>)
    requires
        all_digits(s),
    ensures
        0 <= digits_val(s) < pow10(s.len()),
    decreases s.len(),
{
    if s.len() > 0 {
        lemma_digits_val_bound(s.drop_last());
    }
}

pub proof fn lemma_spec_digits(n: nat)
    ensures
        digits_val(spec_digits(n)) == n,
        all_digits(spec_digits(n)),
        spec_digits(n).len() >= 1,
        n >= 1 ==> spec_digits(n)[0] != 48u8,
        n < pow10(spec_digits(n).len()),
        spec_digits(n).len() >= 2 ==> n >= pow10((spec_digits(n).len() - 1) as nat),
    decreases n,
{
    lemma_pow10_small();
    if n >= 10 {
        lemma_spec_digits(n / 10);
        let s = spec_digits(n / 10);
        let c = (48 + n % 10) as u8;
        assert(spec_digits(n) == s.push(c));
        assert(s.push(c).drop_last() =~= s);
        assert(s.push(c).last() == c);
        assert(spec_digits(n)[0] == s[0]);
        let l = s.len();
        lemma_pow10_step(l);
        assert(digits_val(spec_digits(n)) == (n / 10) * 10 + n % 10);
        assert(n < 10 * pow10(l)) by (nonlinear_arith)
            requires
                n / 10 < pow10(l),
        ;
        if l >= 2 {
            lemma_pow10_step((l - 1) as nat);
            assert(n >= 10 * pow10((l - 1) as nat)) by (nonlinear_arith)
                requires
                    n / 10 >= pow10((l - 1) as nat),
            ;
        } else {
            assert(n >= 10);
        }
        assert forall|i: int| 0 <= i < spec_digits(n).len() implies is_digit(
            #[trigger] spec_digits(n)[i],
        ) by {
            if i < l {
                assert(spec_digits(n)[i] == s[i]);
            }
        }
    } else {
        let c = (48 + n) as u8;
        assert(spec_digits(n) == seq![c]);
        assert(seq![c].drop_last() =~= Seq::<u8>::empty());
        assert(seq![c].last() == c);
        assert(digits_val(Seq::<u8>::empty()) == 0);
        assert(c - 48 == n);
    }
}

/// A digit string of length at most `k` stands for a number below `10^k`.
pub proof fn lemma_spec_digits_len(n: nat, k: nat)
    requires
        k >= 1,
        n < pow10(k),
    ensures
        spec_digits(n).len() <= k,
{
    lemma_spec_digits(n);
    let l = spec_digits(n).len();
    if l > k {
        lemma_pow10_mono(k, (l - 1) as nat);
    }
}

/// The run of digits starting at `i` ends at `e` when `i..e` are digits
/// and `e` is the end or a non-digit.
pub proof fn lemma_digit_run_end(s: Seq<u8>, i: int, e: int)
    requires
        0 <= i <= e <= s.len(),
        forall|j: int| i <= j < e ==> is_digit(#[trigger] s[j]),
        e == s.len() || !is_digit(s[e]),
    ensures
        digit_run_end(s, i) == e,
    decreases e - i,
{
    if i < e {
        lemma_digit_run_end(s, i + 1, e);
    }
}

/// Facts about the run of digits that starts at `i`.
pub proof fn lemma_digit_run_end_facts(s: Seq<u8>, i: int)
    requires
        0 <= i <= s.len(),
    ensures
        i <= digit_run_end(s, i) <= s.len(),
        forall|j: int| i <= j < digit_run_end(s, i) ==> is_digit(#[trigger] s[j]),
        digit_run_end(s, i) == s.len() || !is_digit(s[digit_run_end(s, i)]),
    decreases s.len() - i,
{
    if i < s.len() && is_digit(s[i]) {
        lemma_digit_run_end_facts(s, i + 1);
    }
}

/// ASCII bytes are valid UTF-8.
pub proof fn lemma_ascii_valid_utf8(s: Seq<u8>)
    requires
        all_ascii(s),
    ensures
        vstd::utf8::valid_utf8(s),
{
    assert(vstd::utf8::partial_valid_utf8(s, 0)) by {
        assert(s.subrange(0, 0).len() == 0);
    }
    vstd::utf8::partial_valid_utf8_extend_ascii_block(s, 0, s.len() as int);
    assert(s.subrange(0, s.len() as int) =~= s);
}

/// Append the decimal digits of `n` to `out`.
pub fn push_digits(n: u128, out: &mut Vec<u8>)
    ensures
        final(out)@ == old(out)@ + spec_digits(n as nat),
    decreases n,
{
    if n >= 10 {
        push_digits(n / 10, out);
        out.push((48 + n % 10) as u8);
        proof {
            assert(spec_digits(n as nat) == spec_digits((n / 10) as nat).push((48 + n % 10) as u8));
        }
    } else {
        out.push((48 + n) as u8);
        proof {
            assert(spec_digits(n as nat) =~= seq![(48 + n) as u8]);
        }
    }
}

/// A `String` holding exactly `bytes`, when they are valid UTF-8.
#[verifier::external_body]
pub(crate) fn string_from_utf8(bytes: Vec<u8>) -> (r: Option<String>)
    ensures
        r is Some <==> vstd::utf8::valid_utf8(bytes@),
        r matches Some(s) ==> s@ == vstd::utf8::decode_utf8(bytes@),
{
    String::from_utf8(bytes).ok()
}

/// A `String` of ASCII bytes.
pub fn ascii_string(bytes: Vec<u8>) -> (r: String)
    requires
        all_ascii(bytes@),
    ensures
        r@ == vstd::utf8::decode_utf8(bytes@),
        vstd::utf8::encode_utf8(r@) == bytes@,
{
    proof {
        lemma_ascii_valid_utf8(bytes@);
        vstd::utf8::decode_utf8_encode_utf8(bytes@);
    }
    let ghost b = bytes@;
    match string_from_utf8(bytes) {
        Some(s) => s,
        None => {
            proof {
                assert(false);
            }
            String::new()
        },
    }
}

} // verus!
