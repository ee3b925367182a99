//! Small text helpers shared by the validators: byte lengths, Unicode
//! white space, ASCII lower case, and the location paths of refusals.
use vstd::prelude::*;
use vstd::string::{StrSliceExecFns, StringExecFns};
use vstd::utf8::encode_utf8;

use crate::digits::{ascii_string, is_digit, lemma_spec_digits, push_digits, spec_digits};
use crate::order::byte_len;

verus! {

/// A character with the Unicode `White_Space` property, the set `str::trim`
/// removes.
pub open spec fn is_white_space(c: char) -> bool {
    let u = c as u32;
    (0x09 <= u <= 0x0D) || u == 0x20 || u == 0x85 || u == 0xA0 || u == 0x1680 || (0x2000 <= u
        <= 0x200A) || u == 0x2028 || u == 0x2029 || u == 0x202F || u == 0x205F || u == 0x3000
}

/// Every character is white space (true of the empty text).
pub open spec fn is_blank_text(s: Seq<char>) -> bool {
    forall|i: int| 0 <= i < s.len() ==> is_white_space(#[trigger] s[i])
}

/// ASCII upper case letters to lower case; every other character unchanged.
pub open spec fn ascii_lower(c: char) -> char {
    if 'A' <= c <= 'Z' {
        ((c as u32) + 32) as char
    } else {
        c
    }
}

/// A text with its ASCII letters in lower case.
pub open spec fn lower_text(s: Seq<char>) -> Seq<char> {
    s.map_values(|c: char| ascii_lower(c))
}

/// The decimal text of `n`.
pub open spec fn number_text(n: nat) -> Seq<char> {
    spec_digits(n).map_values(|b: u8| b as char)
}

/// The length of `s` in UTF-8 bytes.
pub fn byte_count(s: &str) -> (r: usize)
    ensures
        r == byte_len(s@),
{
    s.as_bytes().len()
}

/// Whether `s` is empty or all white space.
pub fn is_blank(s: &str) -> (r: bool)
    ensures
        r == is_blank_text(s@),
{
    let n = s.unicode_len();
    let mut i: usize = 0;
    while i < n
        invariant
            n == s@.len(),
            i <= n,
            forall|k: int| 0 <= k < i ==> is_white_space(#[trigger] s@[k]),
        decreases n - i,
    {
        let c = s.get_char(i);
        let u = c as u32;
        let ws = (0x09 <= u && u <= 0x0D) || u == 0x20 || u == 0x85 || u == 0xA0 || u == 0x1680 || (
        0x2000 <= u && u <= 0x200A) || u == 0x2028 || u == 0x2029 || u == 0x202F || u == 0x205F
            || u == 0x3000;
        if !ws {
            return false;
        }
        i = i + 1;
    }
    true
}

/// `s` with its ASCII letters in lower case: `str::to_ascii_lowercase`.
#[verifier::external_body]
pub fn to_ascii_lower(s: &str) -> (r: String)
    ensures
        r@ == lower_text(s@),
{
    s.to_ascii_lowercase()
}

/// `a` followed by `b`.
pub fn join(a: &str, b: &str) -> (r: String)
    ensures
        r@ == a@ + b@,
{
    let mut r = String::from_str(a);
    r.append(b);
    r
}

/// The decimal text of `i`.
pub fn index_text(i: usize) -> (r: String)
    ensures
        encode_utf8(r@) == spec_digits(i as nat),
{
    let mut bytes: Vec<u8> = Vec::new();
    push_digits(i as u128, &mut bytes);
    proof {
        assert(bytes@ =~= spec_digits(i as nat));
        lemma_spec_digits(i as nat);
        assert forall|k: int| 0 <= k < bytes@.len() implies #[trigger] bytes@[k] < 128 by {
            assert(is_digit(spec_digits(i as nat)[k]));
        }
    }
    ascii_string(bytes)
}

/// `prefix` followed by `name`, `[`, the decimal text of `i` and `]`.
pub fn indexed(prefix: &str, name: &str, i: usize) -> (r: String)
    ensures
        exists|d: Seq<char>|
            encode_utf8(d) == spec_digits(i as nat) && r@ == prefix@ + name@ + "["@ + d + "]"@,
{
    let mut r = String::from_str(prefix);
    r.append(name);
    r.append("[");
    let d = index_text(i);
    r.append(d.as_str());
    r.append("]");
    r
}

/// `r` is `s` cut to at most `max` UTF-8 bytes on a character boundary: the
/// longest prefix of `s` that fits.
pub open spec fn is_cut(r: Seq<char>, s: Seq<char>, max: int) -> bool {
    &&& r.len() <= s.len()
    &&& s.take(r.len() as int) == r
    &&& byte_len(r) <= max
    &&& (r.len() == s.len() || byte_len(s.take(r.len() + 1 as int)) > max)
}

/// The UTF-8 width of a character.
pub open spec fn char_width(c: char) -> nat {
    let u = c as u32;
    if u <= 0x7F {
        1
    } else if u <= 0x7FF {
        2
    } else if u <= 0xFFFF {
        3
    } else {
        4
    }
}

/// Encoding distributes over concatenation.
pub proof fn lemma_encode_concat(a: Seq<char>, b: Seq<char>)
    ensures
        encode_utf8(a + b) == encode_utf8(a) + encode_utf8(b),
    decreases a.len(),
{
    if a.len() == 0 {
        assert(a + b =~= b);
        assert(encode_utf8(a) =~= Seq::<u8>::empty());
        assert(encode_utf8(a) + encode_utf8(b) =~= encode_utf8(b));
    } else {
        lemma_encode_concat(a.drop_first(), b);
        assert((a + b).drop_first() =~= a.drop_first() + b);
        assert((a + b)[0] == a[0]);
        assert(encode_utf8(a + b) =~= encode_utf8(a) + encode_utf8(b));
    }
}

/// One more character adds its width.
pub proof fn lemma_byte_len_step(s: Seq<char>, k: int)
    requires
        0 <= k < s.len(),
    ensures
        byte_len(s.take(k + 1)) == byte_len(s.take(k)) + char_width(s[k]),
{
    assert(s.take(k + 1) =~= s.take(k) + seq![s[k]]);
    lemma_encode_concat(s.take(k), seq![s[k]]);
    vstd::utf8::char_is_scalar(s[k]);
    let one = seq![s[k]];
    assert(one.drop_first() =~= Seq::<char>::empty());
    assert(encode_utf8(one) =~= vstd::utf8::encode_scalar(s[k] as u32) + encode_utf8(one.drop_first()));
}

/// A prefix is no longer than the whole, in bytes.
pub proof fn lemma_byte_len_prefix(s: Seq<char>, k: int)
    requires
        0 <= k <= s.len(),
    ensures
        byte_len(s.take(k)) <= byte_len(s),
{
    assert(s =~= s.take(k) + s.skip(k));
    lemma_encode_concat(s.take(k), s.skip(k));
}

/// The UTF-8 width of `c`.
pub fn width_of(c: char) -> (r: usize)
    ensures
        r == char_width(c),
{
    let u = c as u32;
    if u <= 0x7F {
        1
    } else if u <= 0x7FF {
        2
    } else if u <= 0xFFFF {
        3
    } else {
        4
    }
}


/// The decimal text of a number, as characters.
pub open spec fn decimal_text(n: nat) -> Seq<char> {
    vstd::utf8::decode_utf8(spec_digits(n))
}

/// The decimal text of `n`.
pub fn usize_text(n: usize) -> (r: String)
    ensures
        r@ == decimal_text(n as nat),
{
    let r = index_text(n);
    proof {
        vstd::utf8::encode_utf8_decode_utf8(r@);
    }
    r
}

/// The decimal text of `n`.
pub fn u64_text(n: u64) -> (r: String)
    ensures
        r@ == decimal_text(n as nat),
{
    let mut bytes: Vec<u8> = Vec::new();
    push_digits(n as u128, &mut bytes);
    proof {
        assert(bytes@ =~= spec_digits(n as nat));
        lemma_spec_digits(n as nat);
        assert forall|k: int| 0 <= k < bytes@.len() implies #[trigger] bytes@[k] < 128 by {
            assert(is_digit(spec_digits(n as nat)[k]));
        }
    }
    let r = ascii_string(bytes);
    r
}

/// What `{:?}` writes for a text: the text quoted, with escapes.
pub uninterp spec fn debug_text(s: Seq<char>) -> Seq<char>;

/// `s` quoted as `{:?}` writes a `str`: its `Debug` formatting.
#[verifier::external_body]
pub fn debug_quoted(s: &str) -> (r: String)
    ensures
        r@ == debug_text(s@),
{
    format!("{s:?}")
}

/// `a` followed by `b` and `c`.
pub fn join3(a: &str, b: &str, c: &str) -> (r: String)
    ensures
        r@ == a@ + b@ + c@,
{
    let mut r = String::from_str(a);
    r.append(b);
    r.append(c);
    r
}

/// `a`, `b`, `c` and `d`, in that order.
pub fn join4(a: &str, b: &str, c: &str, d: &str) -> (r: String)
    ensures
        r@ == a@ + b@ + c@ + d@,
{
    let mut r = String::from_str(a);
    r.append(b);
    r.append(c);
    r.append(d);
    r
}

/// The length of the longest prefix of `s`, from `k` characters on, that
/// fits in `max` bytes.
pub open spec fn cut_len(s: Seq<char>, max: int, k: int) -> int
    decreases s.len() - k,
{
    if 0 <= k < s.len() && byte_len(s.take(k + 1)) <= max {
        cut_len(s, max, k + 1)
    } else {
        k
    }
}

/// `s` cut to at most `max` bytes on a character boundary.
pub open spec fn cut_of(s: Seq<char>, max: int) -> Seq<char> {
    s.take(cut_len(s, max, 0))
}

/// Longer prefixes are no shorter in bytes.
pub proof fn lemma_byte_len_mono(s: Seq<char>, a: int, b: int)
    requires
        0 <= a <= b <= s.len(),
    ensures
        byte_len(s.take(a)) <= byte_len(s.take(b)),
{
    lemma_byte_len_prefix(s.take(b), a);
    assert(s.take(b).take(a) =~= s.take(a));
}

/// The cut is the one text that `is_cut` describes.
pub proof fn lemma_cut_unique(r: Seq<char>, s: Seq<char>, max: int)
    requires
        is_cut(r, s, max),
        max >= 0,
    ensures
        r == cut_of(s, max),
{
    lemma_cut_len_from(r, s, max, 0);
}

proof fn lemma_cut_len_from(r: Seq<char>, s: Seq<char>, max: int, k: int)
    requires
        is_cut(r, s, max),
        0 <= k <= r.len(),
    ensures
        cut_len(s, max, k) == r.len(),
    decreases r.len() - k,
{
    if k < r.len() {
        lemma_byte_len_mono(s, k + 1, r.len() as int);
        assert(s.take(r.len() as int) == r);
        lemma_cut_len_from(r, s, max, k + 1);
    } else {
        if k < s.len() {
            assert(byte_len(s.take(k + 1)) > max);
        }
    }
}

proof fn lemma_cut_len_fits(s: Seq<char>, max: int, k: int)
    requires
        0 <= k <= s.len(),
        byte_len(s.take(k)) <= max,
    ensures
        k <= cut_len(s, max, k) <= s.len(),
        byte_len(s.take(cut_len(s, max, k))) <= max,
    decreases s.len() - k,
{
    if k < s.len() && byte_len(s.take(k + 1)) <= max {
        lemma_cut_len_fits(s, max, k + 1);
    }
}

/// A cut text is a prefix within the bound, and cutting it again changes
/// nothing.
pub proof fn law_cut_is_idempotent(s: Seq<char>, max: int)
    requires
        max >= 0,
    ensures
        cut_of(s, max).is_prefix_of(s),
        byte_len(cut_of(s, max)) <= max,
        cut_of(cut_of(s, max), max) == cut_of(s, max),
{
    assert(s.take(0) =~= Seq::<char>::empty());
    assert(encode_utf8(Seq::<char>::empty()) =~= Seq::<u8>::empty());
    lemma_cut_len_fits(s, max, 0);
    let r = cut_of(s, max);
    assert(r.take(r.len() as int) =~= r);
    lemma_cut_unique(r, r, max);
}


/// Texts joined by commas.
pub open spec fn comma_joined(s: Seq<Seq<char>>) -> Seq<char>
    decreases s.len(),
{
    if s.len() == 0 {
        Seq::empty()
    } else if s.len() == 1 {
        s[0]
    } else {
        comma_joined(s.drop_last()) + ","@ + s.last()
    }
}

/// The texts of `v` joined by commas.
pub fn join_commas(v: &Vec<String>) -> (r: String)
    ensures
        r@ == comma_joined(v@.map_values(|s: String| s@)),
{
    let ghost t = v@.map_values(|s: String| s@);
    let mut r = String::new();
    let mut i: usize = 0;
    while i < v.len()
        invariant
            t == v@.map_values(|s: String| s@),
            i <= v@.len(),
            r@ == comma_joined(t.take(i as int)),
        decreases v@.len() - i,
    {
        proof {
            assert(t.take(i + 1).drop_last() =~= t.take(i as int));
        }
        if i > 0 {
            r.append(",");
        }
        r.append(v[i].as_str());
        proof {
            if i == 0 {
                assert(r@ =~= t.take(1)[0]);
            }
        }
        i = i + 1;
    }
    proof {
        assert(t.take(v@.len() as int) =~= t);
    }
    r
}

} // verus!
