//! Canonical bytes and digests: the errors of the canonical writer, the
//! byte order of object keys, and the tagged digest that identifies a
//! document.
use sha2::{Digest, Sha256};
use vstd::prelude::*;
use vstd::string::{StringExecFns, StringSliceAdditionalSpecFns};
use vstd::utf8::encode_utf8;

use crate::digits::{ascii_string, push_digits, spec_digits};
use crate::rules::program::int_text;
use crate::rules::eval::integer_text;
use crate::text::{decimal_text, join, join3, usize_text};
use crate::ids::{is_digest_bytes, is_lower_hex};
use crate::order::{str_lt, text_lt};

verus! {

/// Why a value has no canonical form.
#[derive(Debug, Clone, PartialEq, Eq)]
pub enum CanonicalError {
    /// A fractional or exponent number, at a JSON pointer path.
    FractionalNumber { path: String },
    /// The value could not be serialized.
    Serialize { message: String },
    /// The written bytes do not parse back to an equal value: a non-finite
    /// number, which JSON writes as `null`.
    NotRoundTrip,
}

/// The SHA-256 digest of `data`, as `sha2::Sha256` computes it.
pub uninterp spec fn sha256(data: Seq<u8>) -> Seq<u8>;

/// The SHA-256 digest of `data`: `sha2::Sha256::digest`, whose output is
/// always 32 bytes.
#[verifier::external_body]
fn sha256_digest(data: &[u8]) -> (r: Vec<u8>)
    ensures
        r@ == sha256(data@),
        r@.len() == 32,
{
    Sha256::digest(data).to_vec()
}

/// The lowercase hexadecimal digit of `v` (`0..16`).
pub open spec fn hex_digit(v: int) -> u8 {
    if v < 10 {
        (48 + v) as u8
    } else {
        (87 + v) as u8
    }
}

/// Two lowercase hexadecimal digits per byte, high nibble first.
pub open spec fn hex_bytes(d: Seq<u8>) -> Seq<u8> {
    Seq::new(
        2 * d.len(),
        |i: int|
            if i % 2 == 0 {
                hex_digit((d[i / 2] / 16) as int)
            } else {
                hex_digit((d[i / 2] % 16) as int)
            },
    )
}

/// The bytes a tagged digest hashes: the tag, a zero byte, the bytes.
pub open spec fn tagged_input(tag: Seq<char>, bytes: Seq<u8>) -> Seq<u8> {
    encode_utf8(tag) + seq![0u8] + bytes
}

/// The text of a tagged digest: `sha256:` and the hex digest.
pub open spec fn tagged_text(tag: Seq<char>, bytes: Seq<u8>) -> Seq<u8> {
    seq![115u8, 104u8, 97u8, 50u8, 53u8, 54u8, 58u8] + hex_bytes(sha256(tagged_input(tag, bytes)))
}

/// `sha256:` and the lowercase hex SHA-256 of `tag || 0x00 || bytes`.
pub fn tagged_digest(tag: &str, bytes: &[u8]) -> (r: String)
    ensures
        encode_utf8(r@) == tagged_text(tag@, bytes@),
        is_digest_bytes(encode_utf8(r@)),
{
    let mut data: Vec<u8> = Vec::new();
    let t = tag.as_bytes();
    let mut i: usize = 0;
    while i < t.len()
        invariant
            i <= t@.len(),
            data@ == t@.take(i as int),
        decreases t@.len() - i,
    {
        data.push(t[i]);
        proof {
            assert(data@ =~= t@.take(i + 1));
        }
        i = i + 1;
    }
    data.push(0u8);
    let mut j: usize = 0;
    let ghost head = data@;
    while j < bytes.len()
        invariant
            j <= bytes@.len(),
            data@ == head + bytes@.take(j as int),
        decreases bytes@.len() - j,
    {
        data.push(bytes[j]);
        proof {
            assert(data@ =~= head + bytes@.take(j + 1));
        }
        j = j + 1;
    }
    proof {
        assert(t@.take(t@.len() as int) =~= t@);
        assert(bytes@.take(bytes@.len() as int) =~= bytes@);
        assert(data@ =~= tagged_input(tag@, bytes@));
    }
    let d = sha256_digest(data.as_slice());
    let mut out: Vec<u8> = vec![115u8, 104u8, 97u8, 50u8, 53u8, 54u8, 58u8];
    let ghost prefix = out@;
    let mut k: usize = 0;
    while k < d.len()
        invariant
            d@.len() == 32,
            k <= 32,
            out@ == prefix + hex_bytes(d@).take(2 * k),
            forall|m: int| 0 <= m < out@.len() ==> #[trigger] out@[m] < 128,
        decreases 32 - k,
    {
        let b = d[k];
        let hi = b / 16;
        let lo = b % 16;
        let h: u8 = if hi < 10 {
            48 + hi
        } else {
            87 + hi
        };
        let l: u8 = if lo < 10 {
            48 + lo
        } else {
            87 + lo
        };
        out.push(h);
        out.push(l);
        proof {
            assert(hex_bytes(d@)[2 * k] == h);
            assert(hex_bytes(d@)[2 * k + 1] == l);
            assert(out@ =~= prefix + hex_bytes(d@).take(2 * k + 2));
        }
        k = k + 1;
    }
    proof {
        assert(hex_bytes(d@).take(64) =~= hex_bytes(d@));
        assert(out@ =~= tagged_text(tag@, bytes@));
        assert(out@.subrange(0, 7) =~= crate::ids::digest_prefix());
        assert forall|m: int| 7 <= m < 71 implies crate::ids::is_lower_hex(#[trigger] out@[m]) by {
            assert(out@[m] == hex_bytes(d@)[m - 7]);
        }
    }
    ascii_string(out)
}

/// Every byte of `d` as two lowercase hexadecimal digits, high nibble
/// first.
pub fn hex(d: &[u8]) -> (r: String)
    requires
        2 * d@.len() <= usize::MAX,
    ensures
        encode_utf8(r@) == hex_bytes(d@),
        forall|m: int| 0 <= m < hex_bytes(d@).len() ==> is_lower_hex(#[trigger] hex_bytes(d@)[m]),
{
    let mut out: Vec<u8> = Vec::new();
    let mut k: usize = 0;
    while k < d.len()
        invariant
            k <= d@.len(),
            out@ == hex_bytes(d@).take(2 * k),
            forall|m: int| 0 <= m < out@.len() ==> is_lower_hex(#[trigger] out@[m]),
        decreases d@.len() - k,
    {
        let b = d[k];
        let hi = b / 16;
        let lo = b % 16;
        let h: u8 = if hi < 10 {
            48 + hi
        } else {
            87 + hi
        };
        let l: u8 = if lo < 10 {
            48 + lo
        } else {
            87 + lo
        };
        out.push(h);
        out.push(l);
        proof {
            assert(hex_bytes(d@)[2 * k] == h);
            assert(hex_bytes(d@)[2 * k + 1] == l);
            assert(out@ =~= hex_bytes(d@).take(2 * k + 2));
        }
        k = k + 1;
    }
    proof {
        assert(hex_bytes(d@).take(2 * d@.len() as int) =~= hex_bytes(d@));
        assert forall|m: int| 0 <= m < out@.len() implies #[trigger] out@[m] < 128 by {
            assert(is_lower_hex(out@[m]));
        }
    }
    ascii_string(out)
}

/// The lowercase hexadecimal SHA-256 of `bytes`: 64 digits.
pub fn content_reference(bytes: &[u8]) -> (r: String)
    ensures
        encode_utf8(r@) == hex_bytes(sha256(bytes@)),
        hex_bytes(sha256(bytes@)).len() == 64,
        forall|m: int| 0 <= m < 64 ==> is_lower_hex(#[trigger] hex_bytes(sha256(bytes@))[m]),
{
    let d = sha256_digest(bytes);
    hex(d.as_slice())
}

/// Texts in non-decreasing order.
pub open spec fn nondecreasing(s: Seq<String>) -> bool {
    forall|i: int, j: int| 0 <= i < j < s.len() ==> !text_lt((#[trigger] s[j])@, (#[trigger] s[i])@)
}

/// Object keys in byte order, whatever order they came in.
pub fn sorted_keys<'k>(keys: Vec<&'k String>) -> (r: Vec<&'k String>)
    ensures
        r@.len() == keys@.len(),
        r@.map_values(|k: &String| *k).to_multiset() == keys@.map_values(|k: &String| *k).to_multiset(),
        nondecreasing(r@.map_values(|k: &String| *k)),
{
    let mut out: Vec<&'k String> = Vec::new();
    let mut i: usize = 0;
    let ghost all = keys@.map_values(|k: &String| *k);
    proof {
        assert(all.take(0) =~= Seq::<String>::empty());
        assert(out@.map_values(|k: &String| *k) =~= Seq::<String>::empty());
    }
    while i < keys.len()
        invariant
            all == keys@.map_values(|k: &String| *k),
            i <= keys@.len(),
            out@.len() == i,
            out@.map_values(|k: &String| *k).to_multiset() == all.take(i as int).to_multiset(),
            nondecreasing(out@.map_values(|k: &String| *k)),
        decreases keys@.len() - i,
    {
        let x = keys[i];
        let ghost before = out@.map_values(|k: &String| *k);
        let mut j: usize = 0;
        while j < out.len() && !str_lt(x.as_str(), out[j].as_str())
            invariant
                j <= out@.len(),
                before == out@.map_values(|k: &String| *k),
                forall|m: int| 0 <= m < j ==> !text_lt(x@, (#[trigger] before[m])@),
            decreases out@.len() - j,
        {
            j = j + 1;
        }
        out.insert(j, x);
        proof {
            let now = out@.map_values(|k: &String| *k);
            assert(now =~= before.insert(j as int, *x));
            assert(all.take(i + 1) =~= all.take(i as int).push(*x));
            vstd::seq_lib::to_multiset_insert(before, j as int, *x);
            vstd::seq_lib::to_multiset_build(all.take(i as int), *x);
            assert forall|a: int, b: int| 0 <= a < b < now.len() implies !text_lt(
                (#[trigger] now[b])@,
                (#[trigger] now[a])@,
            ) by {
                if a < j && b == j {
                } else if a == j && b > j {
                    // x sorts before out[j], which is no later than before[b - 1].
                    crate::order::lemma_text_lt_order(before[b - 1]@, x@, before[j as int]@);
                    crate::order::lemma_text_lt_order(before[b - 1]@, before[j as int]@, x@);
                    if j < before.len() {
                        assert(!text_lt(before[b - 1]@, before[j as int]@)) by {
                            if b - 1 > j {
                            }
                        }
                    }
                } else if a < j && b > j {
                    assert(!text_lt(before[b - 1]@, before[a]@));
                } else if a > j {
                    assert(!text_lt(before[b - 1]@, before[a - 1]@));
                } else {
                    assert(!text_lt(before[b]@, before[a]@));
                }
            }
        }
        i = i + 1;
    }
    proof {
        assert(all.take(keys@.len() as int) =~= all);
    }
    out
}

/// A JSON value, as the canonical writer reads it. A number is an `i64`,
/// else a `u64`, else fractional: for a fractional number the host supplies
/// its record form, the binary64 text.
#[derive(Debug, PartialEq, Eq)]
pub enum Json {
    Null,
    Bool(bool),
    Int(i64),
    UInt(u64),
    Fractional { record: Vec<u8> },
    Str(String),
    Array(Vec<Json>),
    /// Members in any order; each key once.
    Object(Vec<(String, Json)>),
}

/// How JSON writes one byte of a string: `"`, `\` and the control bytes
/// escaped, the short forms where JSON has them, every other byte as is.
pub open spec fn escape_byte(b: u8) -> Seq<u8> {
    if b == 0x22 {
        seq![0x5cu8, 0x22u8]
    } else if b == 0x5c {
        seq![0x5cu8, 0x5cu8]
    } else if b == 0x08 {
        seq![0x5cu8, 0x62u8]
    } else if b == 0x09 {
        seq![0x5cu8, 0x74u8]
    } else if b == 0x0a {
        seq![0x5cu8, 0x6eu8]
    } else if b == 0x0c {
        seq![0x5cu8, 0x66u8]
    } else if b == 0x0d {
        seq![0x5cu8, 0x72u8]
    } else if b < 0x20 {
        seq![0x5cu8, 0x75u8, 0x30u8, 0x30u8, hex_digit((b / 16) as int), hex_digit((b % 16) as int)]
    } else {
        seq![b]
    }
}

/// The bytes of a string, escaped.
pub open spec fn escaped(s: Seq<u8>) -> Seq<u8>
    decreases s.len(),
{
    if s.len() == 0 {
        Seq::empty()
    } else {
        escaped(s.drop_last()) + escape_byte(s.last())
    }
}

/// A JSON string: quoted, escaped as `serde_json` escapes it.
pub open spec fn json_string(s: Seq<char>) -> Seq<u8> {
    seq![0x22u8] + escaped(encode_utf8(s)) + seq![0x22u8]
}

/// Append the JSON string of `s`, as `serde_json::to_string` writes a `str`.
pub(crate) fn write_str(s: &str, out: &mut Vec<u8>)
    ensures
        final(out)@ == old(out)@ + json_string(s@),
{
    let b = s.as_bytes();
    let ghost start = out@;
    out.push(0x22u8);
    let mut i: usize = 0;
    proof {
        assert(b@.take(0) =~= Seq::<u8>::empty());
        assert(out@ =~= start + seq![0x22u8] + escaped(b@.take(0)));
    }
    while i < b.len()
        invariant
            b@ == s.spec_bytes(),
            i <= b@.len(),
            out@ == start + seq![0x22u8] + escaped(b@.take(i as int)),
        decreases b@.len() - i,
    {
        let c = b[i];
        let ghost before = out@;
        if c == 0x22u8 {
            out.push(0x5cu8);
            out.push(0x22u8);
        } else if c == 0x5cu8 {
            out.push(0x5cu8);
            out.push(0x5cu8);
        } else if c == 0x08u8 {
            out.push(0x5cu8);
            out.push(0x62u8);
        } else if c == 0x09u8 {
            out.push(0x5cu8);
            out.push(0x74u8);
        } else if c == 0x0au8 {
            out.push(0x5cu8);
            out.push(0x6eu8);
        } else if c == 0x0cu8 {
            out.push(0x5cu8);
            out.push(0x66u8);
        } else if c == 0x0du8 {
            out.push(0x5cu8);
            out.push(0x72u8);
        } else if c < 0x20u8 {
            out.push(0x5cu8);
            out.push(0x75u8);
            out.push(0x30u8);
            out.push(0x30u8);
            out.push(if c / 16 < 10 { 48u8 + c / 16 } else { 87u8 + c / 16 });
            out.push(if c % 16 < 10 { 48u8 + c % 16 } else { 87u8 + c % 16 });
        } else {
            out.push(c);
        }
        proof {
            assert(b@.take(i + 1).drop_last() =~= b@.take(i as int));
            assert(b@.take(i + 1).last() == c);
            assert(out@ =~= before + escape_byte(c));
        }
        i = i + 1;
    }
    out.push(0x22u8);
    proof {
        assert(b@.take(b@.len() as int) =~= b@);
        assert(out@ =~= old(out)@ + json_string(s@));
    }
}

/// Where index `i` goes among `order`: before the first index whose key
/// sorts after its key, from position `p` on.
pub open spec fn slot(order: Seq<int>, keys: Seq<Seq<char>>, i: int, p: int) -> int
    decreases order.len() - p,
{
    if p < 0 || p >= order.len() {
        order.len() as int
    } else if text_lt(keys[i], keys[order[p]]) {
        p
    } else {
        slot(order, keys, i, p + 1)
    }
}

/// The first `n` indices of `keys`, in key byte order, equal keys in their
/// given order.
pub open spec fn key_order(keys: Seq<Seq<char>>, n: int) -> Seq<int>
    decreases n,
{
    if n <= 0 {
        Seq::empty()
    } else {
        let o = key_order(keys, n - 1);
        o.insert(slot(o, keys, n - 1, 0), n - 1)
    }
}

/// The keys of an object's members.
pub open spec fn member_keys(entries: Seq<(String, Json)>) -> Seq<Seq<char>> {
    entries.map_values(|e: (String, Json)| e.0@)
}

/// A JSON pointer: the path, or `/` for the root.
pub open spec fn pointer(path: Seq<char>) -> Seq<char> {
    if path.len() == 0 {
        "/"@
    } else {
        path
    }
}

/// A comma before every member but the first.
pub open spec fn sep(i: int) -> Seq<u8> {
    if i > 0 {
        seq![0x2cu8]
    } else {
        Seq::empty()
    }
}

/// The canonical bytes of `v` at `path`, or the path of the first
/// fractional number (none in the record form, which writes the number's
/// record text).
pub open spec fn canon(v: Json, record: bool, path: Seq<char>) -> Result<Seq<u8>, Seq<char>>
    decreases v, 0int,
{
    match v {
        Json::Null => Ok(seq![110u8, 117u8, 108u8, 108u8]),
        Json::Bool(b) => Ok(
            if b {
                seq![116u8, 114u8, 117u8, 101u8]
            } else {
                seq![102u8, 97u8, 108u8, 115u8, 101u8]
            },
        ),
        Json::Int(i) => Ok(int_text(i as int)),
        Json::UInt(u) => Ok(spec_digits(u as nat)),
        Json::Fractional { record: t } => if record {
            Ok(t@)
        } else {
            Err(pointer(path))
        },
        Json::Str(s) => Ok(json_string(s@)),
        Json::Array(items) => match canon_items(items@, record, path, 0) {
            Ok(b) => Ok(seq![0x5bu8] + b + seq![0x5du8]),
            Err(p) => Err(p),
        },
        Json::Object(entries) => match canon_members(
            entries@,
            key_order(member_keys(entries@), entries@.len() as int),
            record,
            path,
            0,
        ) {
            Ok(b) => Ok(seq![0x7bu8] + b + seq![0x7du8]),
            Err(p) => Err(p),
        },
    }
}

/// The canonical bytes of array items from the `i`th on.
pub open spec fn canon_items(items: Seq<Json>, record: bool, path: Seq<char>, i: int) -> Result<
    Seq<u8>,
    Seq<char>,
>
    decreases items, items.len() - i,
{
    if i < 0 || i >= items.len() {
        Ok(Seq::empty())
    } else {
        match canon(items[i], record, path + "/"@ + decimal_text(i as nat)) {
            Err(p) => Err(p),
            Ok(b) => match canon_items(items, record, path, i + 1) {
                Err(p) => Err(p),
                Ok(rest) => Ok(sep(i) + b + rest),
            },
        }
    }
}

/// The canonical bytes of object members in `order`, from the `k`th on.
pub open spec fn canon_members(
    entries: Seq<(String, Json)>,
    order: Seq<int>,
    record: bool,
    path: Seq<char>,
    k: int,
) -> Result<Seq<u8>, Seq<char>>
    decreases entries, order.len() - k,
{
    if k < 0 || k >= order.len() || !(0 <= order[k] < entries.len()) {
        Ok(Seq::empty())
    } else {
        let e = entries[order[k]];
        match canon(e.1, record, path + "/"@ + e.0@) {
            Err(p) => Err(p),
            Ok(b) => match canon_members(entries, order, record, path, k + 1) {
                Err(p) => Err(p),
                Ok(rest) => Ok(sep(k) + json_string(e.0@) + seq![0x3au8] + b + rest),
            },
        }
    }
}

/// The record form of every value can be written: only a fractional number
/// is refused, and the record form writes its record text.
pub proof fn lemma_record_form_total(v: Json, path: Seq<char>)
    ensures
        canon(v, true, path) is Ok,
    decreases v, 0int,
{
    match v {
        Json::Array(items) => {
            lemma_record_items_total(items@, path, 0);
        },
        Json::Object(entries) => {
            lemma_record_members_total(
                entries@,
                key_order(member_keys(entries@), entries@.len() as int),
                path,
                0,
            );
        },
        _ => {},
    }
}

proof fn lemma_record_items_total(items: Seq<Json>, path: Seq<char>, i: int)
    ensures
        canon_items(items, true, path, i) is Ok,
    decreases items, items.len() - i,
{
    if 0 <= i < items.len() {
        lemma_record_form_total(items[i], path + "/"@ + decimal_text(i as nat));
        lemma_record_items_total(items, path, i + 1);
    }
}

proof fn lemma_record_members_total(entries: Seq<(String, Json)>, order: Seq<int>, path: Seq<char>, k: int)
    ensures
        canon_members(entries, order, true, path, k) is Ok,
    decreases entries, order.len() - k,
{
    if 0 <= k < order.len() && 0 <= order[k] < entries.len() {
        let e = entries[order[k]];
        lemma_record_form_total(e.1, path + "/"@ + e.0@);
        lemma_record_members_total(entries, order, path, k + 1);
    }
}

/// `r` with `acc` written before it.
pub open spec fn after(acc: Seq<u8>, r: Result<Seq<u8>, Seq<char>>) -> Result<Seq<u8>, Seq<char>> {
    match r {
        Ok(b) => Ok(acc + b),
        Err(p) => Err(p),
    }
}

/// `r` is what `m` stands for: the bytes, or the refusal at a path.
pub open spec fn written_as(r: Result<Vec<u8>, CanonicalError>, m: Result<Seq<u8>, Seq<char>>) -> bool {
    match m {
        Ok(b) => r matches Ok(o) && o@ == b,
        Err(p) => r matches Err(CanonicalError::FractionalNumber { path }) && path@ == p,
    }
}

/// Append `bytes`.
pub(crate) fn push_all(out: &mut Vec<u8>, bytes: &[u8])
    ensures
        final(out)@ == old(out)@ + bytes@,
{
    let mut i: usize = 0;
    while i < bytes.len()
        invariant
            i <= bytes@.len(),
            out@ == old(out)@ + bytes@.take(i as int),
        decreases bytes@.len() - i,
    {
        out.push(bytes[i]);
        proof {
            assert(bytes@.take(i + 1) =~= bytes@.take(i as int).push(bytes@[i as int]));
        }
        i = i + 1;
    }
    proof {
        assert(bytes@.take(bytes@.len() as int) =~= bytes@);
    }
}

/// The indices of the members in key byte order, equal keys in their given
/// order.
fn member_order(entries: &Vec<(String, Json)>) -> (r: Vec<usize>)
    ensures
        r@.len() == entries@.len(),
        forall|k: int| 0 <= k < r@.len() ==> #[trigger] r@[k] < entries@.len(),
        r@.map_values(|i: usize| i as int) == key_order(member_keys(entries@), entries@.len() as int),
{
    let ghost keys = member_keys(entries@);
    let n = entries.len();
    let mut order: Vec<usize> = Vec::new();
    let mut i: usize = 0;
    proof {
        assert(order@.map_values(|i: usize| i as int) =~= key_order(keys, 0));
    }
    while i < n
        invariant
            n == entries@.len(),
            keys == member_keys(entries@),
            i <= n,
            order@.len() == i,
            forall|k: int| 0 <= k < order@.len() ==> #[trigger] order@[k] < i,
            order@.map_values(|i: usize| i as int) == key_order(keys, i as int),
        decreases n - i,
    {
        let ghost o = key_order(keys, i as int);
        let mut p: usize = 0;
        while p < order.len() && !str_lt(entries[i].0.as_str(), entries[order[p]].0.as_str())
            invariant
                n == entries@.len(),
                keys == member_keys(entries@),
                i < n,
                p <= order@.len(),
                forall|k: int| 0 <= k < order@.len() ==> #[trigger] order@[k] < i,
                o == order@.map_values(|i: usize| i as int),
                slot(o, keys, i as int, 0) == slot(o, keys, i as int, p as int),
            decreases order@.len() - p,
        {
            proof {
                assert(keys[order@[p as int] as int] == entries@[order@[p as int] as int].0@);
            }
            p = p + 1;
        }
        proof {
            if p < order@.len() {
                assert(keys[order@[p as int] as int] == entries@[order@[p as int] as int].0@);
            }
            assert(keys[i as int] == entries@[i as int].0@);
        }
        order.insert(p, i);
        proof {
            assert(order@.map_values(|i: usize| i as int) =~= o.insert(p as int, i as int));
        }
        i = i + 1;
    }
    order
}

/// Write the canonical bytes of `v` at JSON pointer `path`; `record`
/// chooses the record form for fractional numbers.
fn write_value(v: &Json, out: &mut Vec<u8>, path: &str, record: bool) -> (r: Result<
    (),
    CanonicalError,
>)
    ensures
        match canon(*v, record, path@) {
            Ok(b) => r is Ok && final(out)@ == old(out)@ + b,
            Err(p) => r matches Err(CanonicalError::FractionalNumber { path: q }) && q@ == p,
        },
    decreases v,
{
    match v {
        Json::Null => {
            push_all(out, &[110u8, 117u8, 108u8, 108u8]);
        },
        Json::Bool(b) => {
            if *b {
                push_all(out, &[116u8, 114u8, 117u8, 101u8]);
            } else {
                push_all(out, &[102u8, 97u8, 108u8, 115u8, 101u8]);
            }
        },
        Json::Int(i) => {
            let t = integer_text(*i);
            push_all(out, t.as_str().as_bytes());
        },
        Json::UInt(u) => {
            push_digits(*u as u128, out);
        },
        Json::Fractional { record: t } => {
            if record {
                push_all(out, t.as_slice());
            } else {
                let p = if path.as_bytes().len() == 0 {
                    String::from_str("/")
                } else {
                    String::from_str(path)
                };
                proof {
                    if path@.len() == 0 {
                        assert(path.spec_bytes().len() == 0);
                    } else {
                        assert(path.spec_bytes().len() != 0);
                    }
                }
                return Err(CanonicalError::FractionalNumber { path: p });
            }
        },
        Json::Str(s) => {
            write_str(s.as_str(), out);
        },
        Json::Array(items) => {
            let ghost start = out@;
            out.push(0x5bu8);
            let ghost mut acc: Seq<u8> = Seq::empty();
            let mut i: usize = 0;
            while i < items.len()
                invariant
                    *v == Json::Array(*items),
                    i <= items@.len(),
                    out@ == start + seq![0x5bu8] + acc,
                    canon_items(items@, record, path@, 0) == after(
                        acc,
                        canon_items(items@, record, path@, i as int),
                    ),
                decreases items@.len() - i,
            {
                let ghost before = out@;
                if i > 0 {
                    out.push(0x2cu8);
                }
                let child = join3(path, "/", usize_text(i).as_str());
                let ghost mid = out@;
                proof {
                    assert(mid == before + sep(i as int));
                }
                let w = write_value(&items[i], out, child.as_str(), record);
                match w {
                    Err(e) => {
                        return Err(e);
                    },
                    Ok(()) => {},
                }
                proof {
                    let b = canon(items@[i as int], record, child@)->Ok_0;
                    assert(out@ == before + sep(i as int) + b);
                    let rest = canon_items(items@, record, path@, i + 1);
                    assert(canon_items(items@, record, path@, i as int) == after(sep(i as int) + b, rest));
                    assert(acc + (sep(i as int) + b) =~= acc + sep(i as int) + b);
                    match rest {
                        Ok(x) => {
                            assert(acc + (sep(i as int) + b + x) =~= acc + sep(i as int) + b + x);
                        },
                        Err(_) => {},
                    }
                    acc = acc + sep(i as int) + b;
                }
                i = i + 1;
            }
            out.push(0x5du8);
            proof {
                assert(acc + Seq::<u8>::empty() =~= acc);
            }
        },
        Json::Object(entries) => {
            let order = member_order(entries);
            let ghost ord = order@.map_values(|i: usize| i as int);
            let ghost start = out@;
            out.push(0x7bu8);
            let ghost mut acc: Seq<u8> = Seq::empty();
            let mut k: usize = 0;
            while k < order.len()
                invariant
                    *v == Json::Object(*entries),
                    ord == order@.map_values(|i: usize| i as int),
                    ord == key_order(member_keys(entries@), entries@.len() as int),
                    forall|m: int| 0 <= m < order@.len() ==> #[trigger] order@[m] < entries@.len(),
                    k <= order@.len(),
                    out@ == start + seq![0x7bu8] + acc,
                    canon_members(entries@, ord, record, path@, 0) == after(
                        acc,
                        canon_members(entries@, ord, record, path@, k as int),
                    ),
                decreases order@.len() - k,
            {
                let ghost before = out@;
                let j = order[k];
                let e = &entries[j];
                if k > 0 {
                    out.push(0x2cu8);
                }
                write_str(e.0.as_str(), out);
                out.push(0x3au8);
                let child = join3(path, "/", e.0.as_str());
                let ghost mid = out@;
                proof {
                    assert(ord[k as int] == j as int);
                    assert(mid == before + sep(k as int) + json_string(e.0@) + seq![0x3au8]);
                }
                let w = write_value(&e.1, out, child.as_str(), record);
                match w {
                    Err(x) => {
                        return Err(x);
                    },
                    Ok(()) => {},
                }
                proof {
                    let b = canon(e.1, record, child@)->Ok_0;
                    let head = sep(k as int) + json_string(e.0@) + seq![0x3au8] + b;
                    assert(out@ =~= before + head);
                    let rest = canon_members(entries@, ord, record, path@, k + 1);
                    assert(canon_members(entries@, ord, record, path@, k as int) == after(head, rest));
                    match rest {
                        Ok(x) => {
                            assert(acc + (head + x) =~= acc + head + x);
                        },
                        Err(_) => {},
                    }
                    acc = acc + head;
                }
                k = k + 1;
            }
            out.push(0x7du8);
            proof {
                assert(acc + Seq::<u8>::empty() =~= acc);
            }
        },
    }
    Ok(())
}

/// The canonical bytes of a JSON value: object keys in byte order, no
/// insignificant whitespace, strings escaped as JSON escapes them, and a
/// fractional number refused at its JSON pointer path.
pub fn canonical_value_bytes(value: &Json) -> (r: Result<Vec<u8>, CanonicalError>)
    ensures
        written_as(r, canon(*value, false, Seq::empty())),
{
    let mut out: Vec<u8> = Vec::new();
    let root = String::new();
    match write_value(value, &mut out, root.as_str(), false) {
        Ok(()) => Ok(out),
        Err(e) => Err(e),
    }
}

/// The record canonical bytes of a JSON value: the canonical form, but a
/// fractional number written as its record text.
pub fn record_value_bytes(value: &Json) -> (r: Result<Vec<u8>, CanonicalError>)
    ensures
        written_as(r, canon(*value, true, Seq::empty())),
{
    let mut out: Vec<u8> = Vec::new();
    let root = String::new();
    match write_value(value, &mut out, root.as_str(), true) {
        Ok(()) => Ok(out),
        Err(e) => Err(e),
    }
}


/// What a value without a canonical form is told.
pub open spec fn canonical_error_text(e: CanonicalError) -> Seq<char> {
    match e {
        CanonicalError::FractionalNumber { path } => "fractional number at "@ + path@ + " has no canonical form"@,
        CanonicalError::Serialize { message } => "cannot serialize: "@ + message@,
        CanonicalError::NotRoundTrip => "the value does not round-trip (a non-finite number?)"@,
    }
}

impl CanonicalError {
    /// The refusal as text.
    pub fn message(&self) -> (r: String)
        ensures
            r@ == canonical_error_text(*self),
    {
        match self {
            CanonicalError::FractionalNumber { path } => join3(
                "fractional number at ",
                path.as_str(),
                " has no canonical form",
            ),
            CanonicalError::Serialize { message } => join("cannot serialize: ", message.as_str()),
            CanonicalError::NotRoundTrip => String::from_str(
                "the value does not round-trip (a non-finite number?)",
            ),
        }
    }
}

} // verus!
