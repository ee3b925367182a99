//! Bounded JSON: resource limits checked on raw bytes before typed parsing.
//!
//! [`scan`] validates that a byte slice is exactly one RFC 8259 JSON value and
//! that it stays within every [`ParseLimits`] bound, without recursion and
//! without building any value. Typed deserialization runs only after the
//! scan accepts, so its allocations are bounded by the accepted input.
//!
//! Reading bytes from a socket, file or other transport is the caller's
//! responsibility: this module judges a slice already in memory, so the
//! transport must bound its own buffering (for example at `max_bytes`).
use vstd::prelude::*;
use vstd::string::StrSliceExecFns;

use crate::digits::string_from_utf8;
use crate::text::{debug_quoted, debug_text, decimal_text, join, join4, usize_text};

verus! {

/// Resource bounds for one JSON document. There is no default: every caller
/// states its limits.
#[derive(Clone, Copy, Debug, PartialEq, Eq)]
pub struct ParseLimits {
    /// Maximum total input length in bytes, checked before any content is read.
    pub max_bytes: usize,
    /// Maximum container nesting; a top-level array or object is depth 1.
    pub max_depth: usize,
    /// Maximum raw (still escaped) byte length between a string's quotes.
    /// Applies to object keys and string values alike.
    pub max_string_bytes: usize,
    /// Maximum members of any one array or object.
    pub max_collection_len: usize,
    /// Maximum values in the document. Every scalar, array and object counts
    /// one; object keys do not count.
    pub max_total_values: usize,
    /// Maximum raw byte length of a number literal.
    pub max_number_bytes: usize,
    /// When false, a number with a fraction or exponent part is refused.
    pub allow_fractional_numbers: bool,
}

/// What an accepted scan observed.
#[derive(Clone, Copy, Debug, PartialEq, Eq)]
pub struct ScanStats {
    /// Input length in bytes.
    pub bytes: usize,
    /// Deepest container nesting reached (0 for a top-level scalar).
    pub max_depth_seen: usize,
    /// Values counted under [`ParseLimits::max_total_values`].
    pub values: usize,
}

/// Why a scan refused its input. Offsets are byte offsets into the input.
#[derive(Clone, Debug, PartialEq, Eq)]
pub enum BoundError {
    /// The input is longer than `max_bytes`. Reported before reading content.
    TooLarge { limit: usize, actual: usize },
    /// A container would nest deeper than `max_depth`.
    TooDeep { limit: usize, offset: usize },
    /// A string's raw length exceeds `max_string_bytes`.
    StringTooLong { limit: usize, offset: usize },
    /// An array or object has more than `max_collection_len` members.
    CollectionTooLong { limit: usize, offset: usize },
    /// The document has more than `max_total_values` values.
    TooManyValues { limit: usize, offset: usize },
    /// A number literal is longer than `max_number_bytes`.
    NumberTooLong { limit: usize, offset: usize },
    /// A fraction or exponent where `allow_fractional_numbers` is false.
    FractionalNumber { offset: usize },
    /// A key repeated within one object, compared after decoding escapes.
    /// `key` is truncated to 64 characters.
    DuplicateKey { key: String, offset: usize },
    /// The input is not JSON at `offset`; `expected` names what was expected.
    Syntax { offset: usize, expected: &'static str },
    /// A string contains bytes that are not valid UTF-8.
    InvalidUtf8 { offset: usize },
    /// Non-whitespace follows the single top-level value.
    TrailingData { offset: usize },
    /// The input is empty or whitespace only.
    Empty,
}

/// Why a typed parse produced no value.
#[derive(Clone, Debug, PartialEq, Eq)]
pub enum ParseError {
    /// The bounded scan refused the input; no typed value was built.
    Bound(BoundError),
    /// The input was within bounds but does not match the target type
    /// (including unknown fields where the type denies them).
    Schema { message: String },
}

impl BoundError {
    /// The byte offset the refusal names, where it names one.
    pub open spec fn offset(self) -> Option<usize> {
        match self {
            BoundError::TooLarge { .. } => None,
            BoundError::TooDeep { offset, .. } => Some(offset),
            BoundError::StringTooLong { offset, .. } => Some(offset),
            BoundError::CollectionTooLong { offset, .. } => Some(offset),
            BoundError::TooManyValues { offset, .. } => Some(offset),
            BoundError::NumberTooLong { offset, .. } => Some(offset),
            BoundError::FractionalNumber { offset } => Some(offset),
            BoundError::DuplicateKey { offset, .. } => Some(offset),
            BoundError::Syntax { offset, .. } => Some(offset),
            BoundError::InvalidUtf8 { offset } => Some(offset),
            BoundError::TrailingData { offset } => Some(offset),
            BoundError::Empty => None,
        }
    }
}

/// The text of a refusal.
pub open spec fn bound_message(e: BoundError) -> Seq<char> {
    match e {
        BoundError::TooLarge { limit, actual } => "input is "@ + decimal_text(actual as nat)
            + " bytes, limit "@ + decimal_text(limit as nat),
        BoundError::TooDeep { limit, offset } => "nesting exceeds depth "@ + decimal_text(
            limit as nat,
        ) + " at byte "@ + decimal_text(offset as nat),
        BoundError::StringTooLong { limit, offset } => "string exceeds "@ + decimal_text(
            limit as nat,
        ) + " bytes at byte "@ + decimal_text(offset as nat),
        BoundError::CollectionTooLong { limit, offset } => "collection exceeds "@ + decimal_text(
            limit as nat,
        ) + " members at byte "@ + decimal_text(offset as nat),
        BoundError::TooManyValues { limit, offset } => "document exceeds "@ + decimal_text(
            limit as nat,
        ) + " values at byte "@ + decimal_text(offset as nat),
        BoundError::NumberTooLong { limit, offset } => "number exceeds "@ + decimal_text(
            limit as nat,
        ) + " bytes at byte "@ + decimal_text(offset as nat),
        BoundError::FractionalNumber { offset } => "fractional number not allowed at byte "@
            + decimal_text(offset as nat),
        BoundError::DuplicateKey { key, offset } => "duplicate key "@ + debug_text(key@)
            + " at byte "@ + decimal_text(offset as nat),
        BoundError::Syntax { offset, expected } => "expected "@ + expected@ + " at byte "@
            + decimal_text(offset as nat),
        BoundError::InvalidUtf8 { offset } => "invalid UTF-8 at byte "@ + decimal_text(
            offset as nat,
        ),
        BoundError::TrailingData { offset } => "trailing data at byte "@ + decimal_text(
            offset as nat,
        ),
        BoundError::Empty => "empty input"@,
    }
}

impl BoundError {
    /// The refusal as text, for reports.
    pub fn message(&self) -> (r: String)
        ensures
            r@ == bound_message(*self),
    {
        match self {
            BoundError::TooLarge { limit, actual } => join4(
                "input is ",
                usize_text(*actual).as_str(),
                " bytes, limit ",
                usize_text(*limit).as_str(),
            ),
            BoundError::TooDeep { limit, offset } => join4(
                "nesting exceeds depth ",
                usize_text(*limit).as_str(),
                " at byte ",
                usize_text(*offset).as_str(),
            ),
            BoundError::StringTooLong { limit, offset } => join4(
                "string exceeds ",
                usize_text(*limit).as_str(),
                " bytes at byte ",
                usize_text(*offset).as_str(),
            ),
            BoundError::CollectionTooLong { limit, offset } => join4(
                "collection exceeds ",
                usize_text(*limit).as_str(),
                " members at byte ",
                usize_text(*offset).as_str(),
            ),
            BoundError::TooManyValues { limit, offset } => join4(
                "document exceeds ",
                usize_text(*limit).as_str(),
                " values at byte ",
                usize_text(*offset).as_str(),
            ),
            BoundError::NumberTooLong { limit, offset } => join4(
                "number exceeds ",
                usize_text(*limit).as_str(),
                " bytes at byte ",
                usize_text(*offset).as_str(),
            ),
            BoundError::FractionalNumber { offset } => join(
                "fractional number not allowed at byte ",
                usize_text(*offset).as_str(),
            ),
            BoundError::DuplicateKey { key, offset } => join4(
                "duplicate key ",
                debug_quoted(key.as_str()).as_str(),
                " at byte ",
                usize_text(*offset).as_str(),
            ),
            BoundError::Syntax { offset, expected } => join4(
                "expected ",
                expected,
                " at byte ",
                usize_text(*offset).as_str(),
            ),
            BoundError::InvalidUtf8 { offset } => join(
                "invalid UTF-8 at byte ",
                usize_text(*offset).as_str(),
            ),
            BoundError::TrailingData { offset } => join(
                "trailing data at byte ",
                usize_text(*offset).as_str(),
            ),
            BoundError::Empty => "empty input".to_owned(),
        }
    }
}

/// JSON insignificant whitespace.
pub open spec fn is_ws(c: u8) -> bool {
    c == 32u8 || c == 9u8 || c == 10u8 || c == 13u8
}

/// The first position at or after `i` that is not whitespace.
pub open spec fn ws_end(b: Seq<u8>, i: int) -> int
    decreases b.len() - i,
{
    if 0 <= i < b.len() && is_ws(b[i]) {
        ws_end(b, i + 1)
    } else {
        i
    }
}

/// The value of an ASCII hexadecimal digit, if it is one.
pub open spec fn hex_val(c: u8) -> Option<u32> {
    if 48 <= c <= 57 {
        Some((c - 48) as u32)
    } else if 97 <= c <= 102 {
        Some((c - 97 + 10) as u32)
    } else if 65 <= c <= 70 {
        Some((c - 65 + 10) as u32)
    } else {
        None
    }
}

/// Four hexadecimal digits at `i`, as a number.
pub open spec fn hex4_val(b: Seq<u8>, i: int) -> Option<u32> {
    if i + 4 <= b.len() && hex_val(b[i]) is Some && hex_val(b[i + 1]) is Some && hex_val(
        b[i + 2],
    ) is Some && hex_val(b[i + 3]) is Some {
        Some(
            (((hex_val(b[i])->0 * 16 + hex_val(b[i + 1])->0) * 16 + hex_val(b[i + 2])->0) * 16
                + hex_val(b[i + 3])->0) as u32,
        )
    } else {
        None
    }
}

/// The byte a simple escape `\e` stands for, where `e` names one.
pub open spec fn simple_escape(e: u8) -> Option<u8> {
    if e == 34 {
        Some(34u8)
    } else if e == 92 {
        Some(92u8)
    } else if e == 47 {
        Some(47u8)
    } else if e == 98 {
        Some(8u8)
    } else if e == 102 {
        Some(12u8)
    } else if e == 110 {
        Some(10u8)
    } else if e == 114 {
        Some(13u8)
    } else if e == 116 {
        Some(9u8)
    } else {
        None
    }
}

/// The length of the UTF-8 sequence a non-ASCII lead byte opens; 0 for a
/// byte that opens none.
pub open spec fn lead_width(c: u8) -> int {
    if 0xC2 <= c <= 0xDF {
        2
    } else if 0xE0 <= c <= 0xEF {
        3
    } else if 0xF0 <= c <= 0xF4 {
        4
    } else {
        0
    }
}

/// Where the piece of string content at `p` ends, where it is one a JSON
/// string may hold: an escape, a byte of printable ASCII, or a valid UTF-8
/// sequence. The closing quote is no piece.
pub open spec fn string_piece_end(b: Seq<u8>, p: int) -> Option<int> {
    if !(0 <= p < b.len()) {
        None
    } else if b[p] == 92 {
        if p + 1 >= b.len() {
            None
        } else if simple_escape(b[p + 1]) is Some {
            Some(p + 2)
        } else if b[p + 1] == 117 {
            match hex4_val(b, p + 2) {
                None => None,
                Some(hi) => if 0xD800 <= hi <= 0xDBFF {
                    if p + 8 <= b.len() && b[p + 6] == 92 && b[p + 7] == 117 {
                        match hex4_val(b, p + 8) {
                            Some(lo) => if 0xDC00 <= lo <= 0xDFFF {
                                Some(p + 12)
                            } else {
                                None
                            },
                            None => None,
                        }
                    } else {
                        None
                    }
                } else if 0xDC00 <= hi <= 0xDFFF {
                    None
                } else {
                    Some(p + 6)
                },
            }
        } else {
            None
        }
    } else if b[p] == 34 || b[p] <= 31 {
        None
    } else if b[p] <= 127 {
        Some(p + 1)
    } else {
        let w = lead_width(b[p]);
        if w == 0 || p + w > b.len() {
            None
        } else if vstd::utf8::valid_utf8(b.subrange(p, p + w)) {
            Some(p + w)
        } else {
            None
        }
    }
}

/// Where the string whose content starts at `start` ends, just past its
/// closing quote, reading on from `p`: `None` unless every piece up to the
/// quote is one JSON allows and the content is at most `limit` bytes.
pub open spec fn string_end(b: Seq<u8>, start: int, p: int, limit: int) -> Option<int>
    decreases b.len() - p,
{
    if p < start || p > b.len() || p - start > limit || p == b.len() {
        None
    } else if b[p] == 34 {
        Some(p + 1)
    } else {
        match string_piece_end(b, p) {
            Some(q) => if p < q <= b.len() {
                string_end(b, start, q, limit)
            } else {
                None
            },
            None => None,
        }
    }
}

/// Inside a JSON string every escape JSON defines is accepted: `\"`,
/// `\\`, `\/`, `\b`, `\f`, `\n`, `\r` and `\t` take two bytes and stand for
/// the quote, the backslash, the slash, backspace, form feed, line feed,
/// carriage return and tab; `\u` with four hexadecimal digits naming no
/// surrogate takes six bytes, and a high surrogate escaped that way followed
/// by an escaped low surrogate takes twelve. Printable ASCII other than the
/// quote and the backslash is accepted as itself, and a control byte is
/// not.
pub proof fn law_json_string_pieces(b: Seq<u8>, p: int)
    requires
        0 <= p < b.len(),
    ensures
        b[p] == 92 && p + 1 < b.len() && (b[p + 1] == 34 || b[p + 1] == 92 || b[p + 1] == 47 || b[p + 1] == 98
            || b[p + 1] == 102 || b[p + 1] == 110 || b[p + 1] == 114 || b[p + 1] == 116) ==> string_piece_end(
            b,
            p,
        ) == Some(p + 2),
        simple_escape(34) == Some(34u8) && simple_escape(92) == Some(92u8) && simple_escape(47) == Some(47u8)
            && simple_escape(98) == Some(8u8) && simple_escape(102) == Some(12u8) && simple_escape(110) == Some(
            10u8,
        ) && simple_escape(114) == Some(13u8) && simple_escape(116) == Some(9u8),
        b[p] == 92 && p + 1 < b.len() && b[p + 1] == 117 && (hex4_val(b, p + 2) matches Some(v) && !(0xD800
            <= v <= 0xDFFF)) ==> string_piece_end(b, p) == Some(p + 6),
        b[p] == 92 && p + 7 < b.len() && b[p + 1] == 117 && b[p + 6] == 92 && b[p + 7] == 117 && (hex4_val(
            b,
            p + 2,
        ) matches Some(hi) && 0xD800 <= hi <= 0xDBFF) && (hex4_val(b, p + 8) matches Some(lo) && 0xDC00 <= lo
            <= 0xDFFF) ==> string_piece_end(b, p) == Some(p + 12),
        32 <= b[p] <= 127 && b[p] != 34 && b[p] != 92 ==> string_piece_end(b, p) == Some(p + 1),
        b[p] <= 31 ==> string_piece_end(b, p) is None,
{
}

/// Whether the bytes at `i` begin with `word`.
pub open spec fn starts_with_at(b: Seq<u8>, i: int, word: Seq<u8>) -> bool {
    0 <= i && i + word.len() <= b.len() && b.subrange(i, i + word.len()) == word
}

fn syntax(offset: usize, expected: &'static str) -> (r: BoundError)
    ensures
        r == (BoundError::Syntax { offset, expected }),
{
    BoundError::Syntax { offset, expected }
}

/// One open container: its member count and, for an object, the decoded
/// keys seen so far (as UTF-8 bytes).
enum Frame {
    Array { len: usize },
    Object { len: usize, keys: Vec<Vec<u8>> },
}

spec fn frame_len(f: Frame) -> usize {
    match f {
        Frame::Array { len } => len,
        Frame::Object { len, .. } => len,
    }
}

/// A container with one more member counted.
spec fn counted(f: Frame) -> Frame {
    match f {
        Frame::Array { len } => Frame::Array { len: (len + 1) as usize },
        Frame::Object { len, keys } => Frame::Object { len: (len + 1) as usize, keys },
    }
}

/// The scan's state: the position, the open containers and the counts.
struct Scanner {
    pos: usize,
    stack: Vec<Frame>,
    values: usize,
    max_depth_seen: usize,
}

enum Step {
    Value,
    AfterValue,
}

/// Whether two byte strings are equal.
fn bytes_eq(a: &Vec<u8>, b: &Vec<u8>) -> (r: bool)
    ensures
        r == (a@ == b@),
{
    if a.len() != b.len() {
        return false;
    }
    let mut i: usize = 0;
    while i < a.len()
        invariant
            i <= a.len() == b.len(),
            forall|j: int| 0 <= j < i ==> a@[j] == b@[j],
        decreases a.len() - i,
    {
        if a[i] != b[i] {
            return false;
        }
        i = i + 1;
    }
    proof {
        assert(a@ =~= b@);
    }
    true
}

/// Whether `k` is among `keys`.
fn contains_key(keys: &Vec<Vec<u8>>, k: &Vec<u8>) -> (r: bool)
    ensures
        r == exists|i: int| 0 <= i < keys@.len() && #[trigger] keys@[i]@ == k@,
{
    let mut i: usize = 0;
    while i < keys.len()
        invariant
            i <= keys.len(),
            forall|j: int| 0 <= j < i ==> #[trigger] keys@[j]@ != k@,
        decreases keys.len() - i,
    {
        if bytes_eq(&keys[i], k) {
            return true;
        }
        i = i + 1;
    }
    false
}

/// Append the UTF-8 encoding of the scalar `cp`.
fn push_utf8(cp: u32, out: &mut Vec<u8>)
    requires
        vstd::utf8::is_scalar(cp),
    ensures
        final(out)@ == old(out)@ + vstd::utf8::encode_scalar(cp),
{
    if cp <= 0x7F {
        out.push((cp & 0x7F) as u8);
        proof {
            assert(final(out)@ =~= old(out)@ + vstd::utf8::encode_scalar(cp));
        }
    } else if cp <= 0x7FF {
        out.push(0xC0u8 | ((cp >> 6) & 0x1F) as u8);
        out.push(0x80u8 | (cp & 0x3F) as u8);
        proof {
            assert(final(out)@ =~= old(out)@ + vstd::utf8::encode_scalar(cp));
        }
    } else if cp <= 0xFFFF {
        out.push(0xE0u8 | ((cp >> 12) & 0x0F) as u8);
        out.push(0x80u8 | ((cp >> 6) & 0x3F) as u8);
        out.push(0x80u8 | (cp & 0x3F) as u8);
        proof {
            assert(final(out)@ =~= old(out)@ + vstd::utf8::encode_scalar(cp));
        }
    } else {
        out.push(0xF0u8 | ((cp >> 18) & 0x7) as u8);
        out.push(0x80u8 | ((cp >> 12) & 0x3F) as u8);
        out.push(0x80u8 | ((cp >> 6) & 0x3F) as u8);
        out.push(0x80u8 | (cp & 0x3F) as u8);
        proof {
            assert(final(out)@ =~= old(out)@ + vstd::utf8::encode_scalar(cp));
        }
    }
}

/// Whether `span` is the UTF-8 encoding of exactly one character or more.
#[verifier::external_body]
fn utf8_valid(span: &[u8]) -> (r: bool)
    ensures
        r == vstd::utf8::valid_utf8(span@),
{
    std::str::from_utf8(span).is_ok()
}

/// The first 64 characters of a decoded key, for a refusal message.
fn key_text(key: Vec<u8>) -> (r: String)
    requires
        vstd::utf8::valid_utf8(key@),
    ensures
        r@ == vstd::utf8::decode_utf8(key@).take(
            if vstd::utf8::decode_utf8(key@).len() < 64 {
                vstd::utf8::decode_utf8(key@).len() as int
            } else {
                64
            },
        ),
{
    let ghost kb = key@;
    match string_from_utf8(key) {
        Some(s) => {
            let n = s.as_str().unicode_len();
            let end = if n < 64 {
                n
            } else {
                64
            };
            let t = s.as_str().substring_char(0, end);
            let r = t.to_owned();
            proof {
                assert(r@ =~= s@.take(end as int));
            }
            r
        },
        None => {
            proof {
                assert(false);
            }
            String::new()
        },
    }
}

/// An error a scanner step may report: never `TooLarge` or `Empty`, and
/// every offset within the input.
pub open spec fn inner_error(e: BoundError, len: int) -> bool {
    &&& !(e is Empty)
    &&& !(e is TooLarge)
    &&& !(e is TrailingData)
    &&& e.offset() matches Some(o) ==> o <= len
}

proof fn lemma_ws_end(b: Seq<u8>, i: int)
    requires
        0 <= i <= b.len(),
    ensures
        i <= ws_end(b, i) <= b.len(),
        ws_end(b, i) < b.len() ==> !is_ws(b[ws_end(b, i)]),
    decreases b.len() - i,
{
    if i < b.len() && is_ws(b[i]) {
        lemma_ws_end(b, i + 1);
    }
}

impl Scanner {
    spec fn wf(&self, b: Seq<u8>, limits: ParseLimits) -> bool {
        &&& self.pos <= b.len()
        &&& b.len() <= usize::MAX
        &&& self.stack.len() <= self.max_depth_seen
        &&& self.max_depth_seen <= limits.max_depth
        &&& self.values <= limits.max_total_values
        &&& forall|i: int|
            0 <= i < self.stack@.len() ==> frame_len(#[trigger] self.stack@[i])
                <= limits.max_collection_len
    }

    /// The counts and the position only ever grow.
    spec fn grows(&self, old: &Scanner) -> bool {
        &&& self.pos >= old.pos
        &&& self.values >= old.values
        &&& self.max_depth_seen >= old.max_depth_seen
    }

    fn peek(&self, b: &[u8]) -> (r: Option<u8>)
        ensures
            r == (if self.pos < b@.len() {
                Some(b@[self.pos as int])
            } else {
                None::<u8>
            }),
    {
        if self.pos < b.len() {
            Some(b[self.pos])
        } else {
            None
        }
    }

    /// Whether the byte at the position is `c`.
    fn is_at(&self, b: &[u8], c: u8) -> (r: bool)
        ensures
            r == (self.pos < b@.len() && b@[self.pos as int] == c),
    {
        self.pos < b.len() && b[self.pos] == c
    }

    fn skip_ws(&mut self, b: &[u8])
        requires
            old(self).pos <= b@.len(),
        ensures
            final(self).pos == ws_end(b@, old(self).pos as int),
            old(self).pos <= final(self).pos <= b@.len(),
            final(self).pos < b@.len() ==> !is_ws(b@[final(self).pos as int]),
            final(self).stack == old(self).stack,
            final(self).values == old(self).values,
            final(self).max_depth_seen == old(self).max_depth_seen,
    {
        proof {
            lemma_ws_end(b@, self.pos as int);
        }
        while self.pos < b.len() && (b[self.pos] == 32u8 || b[self.pos] == 9u8 || b[self.pos]
            == 10u8 || b[self.pos] == 13u8)
            invariant
                self.pos <= b@.len(),
                ws_end(b@, old(self).pos as int) == ws_end(b@, self.pos as int),
                self.stack == old(self).stack,
                self.values == old(self).values,
                self.max_depth_seen == old(self).max_depth_seen,
            decreases b@.len() - self.pos,
        {
            self.pos = self.pos + 1;
        }
    }

    /// Count a new member of the innermost container.
    fn begin_member(&mut self, b: &[u8], limits: &ParseLimits) -> (r: Result<(), BoundError>)
        requires
            old(self).wf(b@, *limits),
        ensures
            r is Ok ==> final(self).wf(b@, *limits),
            final(self).pos == old(self).pos,
            final(self).values == old(self).values,
            final(self).max_depth_seen == old(self).max_depth_seen,
            final(self).stack@.len() == old(self).stack@.len(),
            r matches Err(e) ==> e == (BoundError::CollectionTooLong {
                limit: limits.max_collection_len,
                offset: old(self).pos,
            }),
            r matches Err(e) ==> inner_error(e, b@.len() as int),
            r is Err ==> old(self).stack@.len() > 0 && frame_len(old(self).stack@.last())
                == limits.max_collection_len,
            r is Ok <==> (old(self).stack@.len() == 0 || frame_len(old(self).stack@.last())
                < limits.max_collection_len),
            r is Err || old(self).stack@.len() == 0 ==> final(self).stack@ == old(self).stack@,
            r is Ok && old(self).stack@.len() > 0 ==> final(self).stack@ == old(self).stack@.drop_last().push(
                counted(old(self).stack@.last()),
            ),
    {
        let limit = limits.max_collection_len;
        let offset = self.pos;
        match self.stack.pop() {
            None => Ok(()),
            Some(f) => {
                proof {
                    assert(old(self).stack@.last() == f);
                }
                let len = match &f {
                    Frame::Array { len } => *len,
                    Frame::Object { len, .. } => *len,
                };
                if len >= limit {
                    self.stack.push(f);
                    proof {
                        assert(self.stack@ =~= old(self).stack@);
                    }
                    return Err(BoundError::CollectionTooLong { limit, offset });
                }
                let f2 = match f {
                    Frame::Array { len } => Frame::Array { len: len + 1 },
                    Frame::Object { len, keys } => Frame::Object { len: len + 1, keys },
                };
                self.stack.push(f2);
                proof {
                    assert(self.stack@ =~= old(self).stack@.drop_last().push(counted(old(self).stack@.last())));
                    assert forall|i: int| 0 <= i < self.stack@.len() implies frame_len(
                        #[trigger] self.stack@[i],
                    ) <= limits.max_collection_len by {
                        if i < self.stack@.len() - 1 {
                            assert(self.stack@[i] == old(self).stack@[i]);
                        }
                    }
                }
                Ok(())
            },
        }
    }

    fn count_value(&mut self, b: &[u8], limits: &ParseLimits) -> (r: Result<(), BoundError>)
        requires
            old(self).wf(b@, *limits),
        ensures
            final(self).pos == old(self).pos,
            final(self).stack == old(self).stack,
            final(self).max_depth_seen == old(self).max_depth_seen,
            r is Ok <==> old(self).values < limits.max_total_values,
            r is Ok ==> final(self).values == old(self).values + 1 && final(self).wf(b@, *limits),
            r matches Err(e) ==> e == (BoundError::TooManyValues {
                limit: limits.max_total_values,
                offset: old(self).pos,
            }),
            r matches Err(e) ==> inner_error(e, b@.len() as int),
    {
        if self.values >= limits.max_total_values {
            return Err(
                BoundError::TooManyValues { limit: limits.max_total_values, offset: self.pos },
            );
        }
        self.values = self.values + 1;
        Ok(())
    }

    fn push(&mut self, b: &[u8], limits: &ParseLimits, frame: Frame) -> (r: Result<(), BoundError>)
        requires
            old(self).wf(b@, *limits),
            frame_len(frame) == 0,
        ensures
            r is Ok ==> final(self).wf(b@, *limits),
            final(self).pos == old(self).pos,
            final(self).values == old(self).values,
            final(self).max_depth_seen >= old(self).max_depth_seen,
            r is Ok <==> old(self).stack@.len() < limits.max_depth,
            r is Ok ==> final(self).stack@ == old(self).stack@.push(frame),
            r matches Err(e) ==> e == (BoundError::TooDeep {
                limit: limits.max_depth,
                offset: old(self).pos,
            }),
            r matches Err(e) ==> inner_error(e, b@.len() as int),
    {
        if self.stack.len() >= limits.max_depth {
            return Err(BoundError::TooDeep { limit: limits.max_depth, offset: self.pos });
        }
        self.stack.push(frame);
        if self.max_depth_seen < self.stack.len() {
            self.max_depth_seen = self.stack.len();
        }
        proof {
            assert forall|i: int| 0 <= i < self.stack@.len() implies frame_len(
                #[trigger] self.stack@[i],
            ) <= limits.max_collection_len by {
                if i < self.stack@.len() - 1 {
                    assert(self.stack@[i] == old(self).stack@[i]);
                }
            }
        }
        Ok(())
    }

    /// Close the innermost container.
    fn pop(&mut self, b: &[u8], limits: &ParseLimits)
        requires
            old(self).wf(b@, *limits),
        ensures
            final(self).wf(b@, *limits),
            final(self).pos == old(self).pos,
            final(self).values == old(self).values,
            final(self).max_depth_seen == old(self).max_depth_seen,
            old(self).stack@.len() > 0 ==> final(self).stack@ == old(self).stack@.drop_last(),
            old(self).stack@.len() == 0 ==> final(self).stack@.len() == 0,
    {
        let _ = self.stack.pop();
        proof {
            assert forall|i: int| 0 <= i < self.stack@.len() implies frame_len(
                #[trigger] self.stack@[i],
            ) <= limits.max_collection_len by {
                assert(self.stack@[i] == old(self).stack@[i]);
            }
        }
    }

    /// Parse an object key and its colon. Positioned at the opening quote.
    fn key(&mut self, b: &[u8], limits: &ParseLimits) -> (r: Result<(), BoundError>)
        requires
            old(self).wf(b@, *limits),
        ensures
            r is Ok ==> final(self).wf(b@, *limits),
            r is Ok ==> final(self).grows(&*old(self)),
            r is Ok ==> final(self).stack@.len() == old(self).stack@.len(),
            r is Ok ==> final(self).pos > old(self).pos,
            r matches Err(e) ==> inner_error(e, b@.len() as int),
    {
        if !self.is_at(b, 34u8) {
            return Err(syntax(self.pos, "object key"));
        }
        self.begin_member(b, limits)?;
        let offset = self.pos;
        let key = match self.string(b, limits, true)? {
            Some(k) => k,
            None => {
                proof {
                    assert(false);
                }
                Vec::new()
            },
        };
        let ghost st0 = self.stack@;
        match self.stack.pop() {
            Some(Frame::Object { len, keys }) => {
                if contains_key(&keys, &key) {
                    return Err(BoundError::DuplicateKey { key: key_text(key), offset });
                }
                let mut keys = keys;
                keys.push(key);
                self.stack.push(Frame::Object { len, keys });
            },
            Some(f) => {
                self.stack.push(f);
            },
            None => {},
        }
        proof {
            assert(self.stack@.len() == st0.len());
            assert forall|i: int| 0 <= i < self.stack@.len() implies frame_len(
                #[trigger] self.stack@[i],
            ) <= limits.max_collection_len by {
                if i < self.stack@.len() - 1 {
                    assert(self.stack@[i] == st0[i]);
                } else {
                    assert(frame_len(self.stack@[i]) == frame_len(st0[i]));
                }
            }
        }
        self.skip_ws(b);
        if !self.is_at(b, 58u8) {
            return Err(syntax(self.pos, "':'"));
        }
        self.pos = self.pos + 1;
        self.skip_ws(b);
        Ok(())
    }

    /// Parse the start of one value. Positioned at its first byte.
    fn value(&mut self, b: &[u8], limits: &ParseLimits) -> (r: Result<Step, BoundError>)
        requires
            old(self).wf(b@, *limits),
        ensures
            r is Ok ==> final(self).wf(b@, *limits),
            r is Ok ==> final(self).grows(&*old(self)),
            r is Ok ==> final(self).pos > old(self).pos,
            r is Ok ==> final(self).values > old(self).values,
            r matches Err(e) ==> inner_error(e, b@.len() as int),
    {
        let c = match self.peek(b) {
            Some(c) => c,
            None => return Err(syntax(self.pos, "value")),
        };
        if c == 123u8 {
            self.count_value(b, limits)?;
            self.push(b, limits, Frame::Object { len: 0, keys: Vec::new() })?;
            self.pos = self.pos + 1;
            self.skip_ws(b);
            if self.is_at(b, 125u8) {
                self.pos = self.pos + 1;
                self.pop(b, limits);
                return Ok(Step::AfterValue);
            }
            self.key(b, limits)?;
            Ok(Step::Value)
        } else if c == 91u8 {
            self.count_value(b, limits)?;
            self.push(b, limits, Frame::Array { len: 0 })?;
            self.pos = self.pos + 1;
            self.skip_ws(b);
            if self.is_at(b, 93u8) {
                self.pos = self.pos + 1;
                self.pop(b, limits);
                return Ok(Step::AfterValue);
            }
            self.begin_member(b, limits)?;
            Ok(Step::Value)
        } else if c == 34u8 {
            self.count_value(b, limits)?;
            self.string(b, limits, false)?;
            Ok(Step::AfterValue)
        } else if c == 45u8 || (48u8 <= c && c <= 57u8) {
            self.count_value(b, limits)?;
            self.number(b, limits)?;
            Ok(Step::AfterValue)
        } else if c == 116u8 {
            self.literal(b, limits, &vec![116u8, 114u8, 117u8, 101u8])
        } else if c == 102u8 {
            self.literal(b, limits, &vec![102u8, 97u8, 108u8, 115u8, 101u8])
        } else if c == 110u8 {
            self.literal(b, limits, &vec![110u8, 117u8, 108u8, 108u8])
        } else {
            Err(syntax(self.pos, "value"))
        }
    }

    fn literal(&mut self, b: &[u8], limits: &ParseLimits, word: &Vec<u8>) -> (r: Result<
        Step,
        BoundError,
    >)
        requires
            old(self).wf(b@, *limits),
            word@.len() > 0,
        ensures
            final(self).stack == old(self).stack,
            r is Ok <==> old(self).values < limits.max_total_values && starts_with_at(
                b@,
                old(self).pos as int,
                word@,
            ),
            r is Ok ==> final(self).wf(b@, *limits) && final(self).grows(&*old(self)),
            r is Ok ==> r == Ok::<Step, BoundError>(Step::AfterValue) && final(self).pos
                == old(self).pos + word@.len() && final(self).values == old(self).values + 1,
            r matches Err(e) ==> e.offset() == Some(old(self).pos),
            r matches Err(e) ==> inner_error(e, b@.len() as int),
    {
        self.count_value(b, limits)?;
        let p = self.pos;
        if word.len() <= b.len() - p {
            let mut i: usize = 0;
            while i < word.len()
                invariant
                    i <= word@.len(),
                    p + word@.len() <= b@.len(),
                    p == old(self).pos,
                    self.pos == p,
                    self.stack == old(self).stack,
                    self.values == old(self).values + 1,
                    old(self).values < limits.max_total_values,
                    old(self).wf(b@, *limits),
                    self.max_depth_seen == old(self).max_depth_seen,
                    forall|j: int| 0 <= j < i ==> b@[p + j] == word@[j],
                decreases word@.len() - i,
            {
                if b[p + i] != word[i] {
                    proof {
                        assert(b@.subrange(p as int, p + word@.len())[i as int] != word@[i as int]);
                    }
                    return Err(syntax(p, "literal true, false or null"));
                }
                i = i + 1;
            }
            proof {
                assert(b@.subrange(p as int, p + word@.len()) =~= word@);
            }
            self.pos = p + word.len();
            Ok(Step::AfterValue)
        } else {
            Err(syntax(p, "literal true, false or null"))
        }
    }

    fn check_number_len(&self, limits: &ParseLimits, start: usize) -> (r: Result<(), BoundError>)
        requires
            start <= self.pos,
        ensures
            r is Ok <==> self.pos - start <= limits.max_number_bytes,
            r matches Err(e) ==> e == (BoundError::NumberTooLong {
                limit: limits.max_number_bytes,
                offset: start,
            }),
    {
        if self.pos - start > limits.max_number_bytes {
            return Err(
                BoundError::NumberTooLong { limit: limits.max_number_bytes, offset: start },
            );
        }
        Ok(())
    }

    fn digits(&mut self, b: &[u8], limits: &ParseLimits, start: usize) -> (r: Result<usize, BoundError>)
        requires
            old(self).wf(b@, *limits),
            start <= old(self).pos,
        ensures
            final(self).stack == old(self).stack,
            final(self).values == old(self).values,
            final(self).max_depth_seen == old(self).max_depth_seen,
            old(self).pos <= final(self).pos <= b@.len(),
            forall|j: int| old(self).pos <= j < final(self).pos ==> crate::digits::is_digit(#[trigger] b@[j]),
            r is Ok ==> final(self).pos - start <= limits.max_number_bytes || final(self).pos
                == old(self).pos,
            r matches Ok(n) ==> n == final(self).pos - old(self).pos && (final(self).pos == b@.len()
                || !crate::digits::is_digit(b@[final(self).pos as int])),
            r matches Err(e) ==> e == (BoundError::NumberTooLong {
                limit: limits.max_number_bytes,
                offset: start,
            }),
    {
        let mut n: usize = 0;
        let n0 = b.len();
        while self.pos < n0 && 48u8 <= b[self.pos] && b[self.pos] <= 57u8
            invariant
                n0 == b@.len(),
                old(self).pos <= self.pos <= b@.len(),
                n == self.pos - old(self).pos,
                start <= old(self).pos,
                n > 0 ==> self.pos - start <= limits.max_number_bytes,
                self.stack == old(self).stack,
                self.values == old(self).values,
                self.max_depth_seen == old(self).max_depth_seen,
                forall|j: int| old(self).pos <= j < self.pos ==> crate::digits::is_digit(#[trigger] b@[j]),
            decreases b@.len() - self.pos,
        {
            self.pos = self.pos + 1;
            n = n + 1;
            self.check_number_len(limits, start)?;
        }
        Ok(n)
    }

    fn number(&mut self, b: &[u8], limits: &ParseLimits) -> (r: Result<(), BoundError>)
        requires
            old(self).wf(b@, *limits),
        ensures
            final(self).stack == old(self).stack,
            final(self).values == old(self).values,
            final(self).max_depth_seen == old(self).max_depth_seen,
            r is Ok ==> final(self).wf(b@, *limits),
            r is Ok ==> final(self).pos > old(self).pos && final(self).pos - old(self).pos
                <= limits.max_number_bytes,
            r matches Err(e) ==> inner_error(e, b@.len() as int),
    {
        let start = self.pos;
        if self.is_at(b, 45u8) {
            self.pos = self.pos + 1;
            self.check_number_len(limits, start)?;
        }
        match self.peek(b) {
            Some(c) => {
                if c == 48u8 {
                    self.pos = self.pos + 1;
                    self.check_number_len(limits, start)?;
                } else if 49u8 <= c && c <= 57u8 {
                    self.digits(b, limits, start)?;
                } else {
                    return Err(syntax(self.pos, "digit"));
                }
            },
            None => return Err(syntax(self.pos, "digit")),
        }
        if self.is_at(b, 46u8) {
            if !limits.allow_fractional_numbers {
                return Err(BoundError::FractionalNumber { offset: self.pos });
            }
            self.pos = self.pos + 1;
            self.check_number_len(limits, start)?;
            if self.digits(b, limits, start)? == 0 {
                return Err(syntax(self.pos, "digit"));
            }
        }
        if self.is_at(b, 101u8) || self.is_at(b, 69u8) {
            if !limits.allow_fractional_numbers {
                return Err(BoundError::FractionalNumber { offset: self.pos });
            }
            self.pos = self.pos + 1;
            self.check_number_len(limits, start)?;
            if self.is_at(b, 43u8) || self.is_at(b, 45u8) {
                self.pos = self.pos + 1;
                self.check_number_len(limits, start)?;
            }
            if self.digits(b, limits, start)? == 0 {
                return Err(syntax(self.pos, "digit"));
            }
        }
        Ok(())
    }

    fn hex4(&mut self, b: &[u8]) -> (r: Result<u32, BoundError>)
        requires
            old(self).pos <= b@.len(),
        ensures
            final(self).stack == old(self).stack,
            final(self).values == old(self).values,
            final(self).max_depth_seen == old(self).max_depth_seen,
            r is Ok <==> hex4_val(b@, old(self).pos as int) is Some,
            r matches Ok(v) ==> hex4_val(b@, old(self).pos as int) == Some(v) && final(self).pos
                == old(self).pos + 4 && v <= 0xFFFF,
            r matches Err(e) ==> inner_error(e, b@.len() as int),
            old(self).pos <= final(self).pos <= b@.len(),
    {
        let mut v: u32 = 0;
        let mut k: usize = 0;
        let p0 = self.pos;
        let n0 = b.len();
        while k < 4
            invariant
                n0 == b@.len(),
                k <= 4,
                self.pos == p0 + k,
                p0 == old(self).pos,
                self.pos <= b@.len(),
                self.stack == old(self).stack,
                self.values == old(self).values,
                self.max_depth_seen == old(self).max_depth_seen,
                forall|j: int| 0 <= j < k ==> hex_val(#[trigger] b@[p0 + j]) is Some,
                k == 0 ==> v == 0,
                k == 1 ==> v == hex_val(b@[p0 as int])->0,
                k == 2 ==> v == hex_val(b@[p0 as int])->0 * 16 + hex_val(b@[p0 + 1])->0,
                k == 3 ==> v == (hex_val(b@[p0 as int])->0 * 16 + hex_val(b@[p0 + 1])->0) * 16
                    + hex_val(b@[p0 + 2])->0,
                k == 4 ==> v == ((hex_val(b@[p0 as int])->0 * 16 + hex_val(b@[p0 + 1])->0) * 16
                    + hex_val(b@[p0 + 2])->0) * 16 + hex_val(b@[p0 + 3])->0,
                v < pow16(k as nat),
            decreases 4 - k,
        {
            let c = match self.peek(b) {
                Some(c) => c,
                None => {
                    return Err(syntax(self.pos, "hex digit"));
                },
            };
            let d: u32 = if 48u8 <= c && c <= 57u8 {
                (c - 48u8) as u32
            } else if 97u8 <= c && c <= 102u8 {
                (c - 97u8 + 10u8) as u32
            } else if 65u8 <= c && c <= 70u8 {
                (c - 65u8 + 10u8) as u32
            } else {
                return Err(syntax(self.pos, "hex digit"));
            };
            proof {
                reveal_with_fuel(pow16, 5);
                assert(pow16((k + 1) as nat) == 16 * pow16(k as nat));
                assert(v * 16 + d < pow16((k + 1) as nat)) by (nonlinear_arith)
                    requires
                        v < pow16(k as nat),
                        d < 16,
                        pow16((k + 1) as nat) == 16 * pow16(k as nat),
                ;
                assert(pow16(4) == 65536);
                if k < 4 {
                    assert(pow16((k + 1) as nat) <= 65536) by {
                        reveal_with_fuel(pow16, 5);
                    }
                }
            }
            v = v * 16 + d;
            self.pos = self.pos + 1;
            k = k + 1;
        }
        proof {
            reveal_with_fuel(pow16, 5);
        }
        Ok(v)
    }

    /// Scan a string positioned at its opening quote. Returns the decoded
    /// text (as UTF-8 bytes) when `decode` is true, and allocates nothing
    /// otherwise.
    #[verifier::rlimit(50)]
    #[verifier::spinoff_prover]
    fn string(&mut self, b: &[u8], limits: &ParseLimits, decode: bool) -> (r: Result<
        Option<Vec<u8>>,
        BoundError,
    >)
        requires
            old(self).wf(b@, *limits),
            old(self).pos < b@.len(),
        ensures
            final(self).wf(b@, *limits),
            final(self).stack == old(self).stack,
            final(self).values == old(self).values,
            final(self).max_depth_seen == old(self).max_depth_seen,
            final(self).pos >= old(self).pos,
            r is Ok ==> final(self).pos >= old(self).pos + 2 && final(self).pos - old(self).pos
                - 2 <= limits.max_string_bytes && b@[final(self).pos - 1] == 34u8,
            r matches Ok(o) ==> (o is Some <==> decode),
            r matches Ok(Some(k)) ==> vstd::utf8::valid_utf8(k@),
            r matches Err(e) ==> inner_error(e, b@.len() as int),
            r is Ok <==> string_end(
                b@,
                old(self).pos + 1,
                old(self).pos + 1,
                limits.max_string_bytes as int,
            ) is Some,
            r is Ok ==> string_end(
                b@,
                old(self).pos + 1,
                old(self).pos + 1,
                limits.max_string_bytes as int,
            ) == Some(final(self).pos as int),
    {
        let open = self.pos;
        self.pos = self.pos + 1;
        let start = self.pos;
        let limit = limits.max_string_bytes;
        let mut out: Vec<u8> = Vec::new();
        proof {
            assert(out@ =~= Seq::<u8>::empty());
        }
        loop
            invariant
                start == open + 1,
                open == old(self).pos,
                start <= self.pos <= b@.len(),
                self.stack == old(self).stack,
                self.values == old(self).values,
                self.max_depth_seen == old(self).max_depth_seen,
                old(self).wf(b@, *limits),
                limit == limits.max_string_bytes,
                vstd::utf8::valid_utf8(out@),
                string_end(b@, start as int, start as int, limit as int) == string_end(
                    b@,
                    start as int,
                    self.pos as int,
                    limit as int,
                ),
            decreases b@.len() - self.pos,
        {
            if self.pos - start > limit {
                return Err(BoundError::StringTooLong { limit, offset: open });
            }
            let c = match self.peek(b) {
                Some(c) => c,
                None => return Err(syntax(self.pos, "closing '\"'")),
            };
            if c == 34u8 {
                self.pos = self.pos + 1;
                if decode {
                    return Ok(Some(out));
                } else {
                    return Ok(None);
                }
            } else if c == 92u8 {
                self.pos = self.pos + 1;
                let esc = match self.peek(b) {
                    Some(e) => e,
                    None => return Err(syntax(self.pos, "escape character")),
                };
                let simple: u8 = if esc == 34u8 {
                    34u8
                } else if esc == 92u8 {
                    92u8
                } else if esc == 47u8 {
                    47u8
                } else if esc == 98u8 {
                    8u8
                } else if esc == 102u8 {
                    12u8
                } else if esc == 110u8 {
                    10u8
                } else if esc == 114u8 {
                    13u8
                } else if esc == 116u8 {
                    9u8
                } else {
                    0u8
                };
                if simple != 0u8 {
                    self.pos = self.pos + 1;
                    if decode {
                        proof {
                            lemma_ascii_byte_valid(out@, simple);
                        }
                        out.push(simple);
                    }
                } else if esc == 117u8 {
                    let at = self.pos - 1;
                    self.pos = self.pos + 1;
                    let hi = self.hex4(b)?;
                    let cp: u32 = if 0xD800u32 <= hi && hi <= 0xDBFFu32 {
                        let p = self.pos;
                        if !(p < b.len() && b.len() - p >= 2 && b[p] == 92u8 && b[p + 1] == 117u8) {
                            return Err(syntax(at, "valid surrogate pair"));
                        }
                        self.pos = self.pos + 2;
                        let lo = self.hex4(b)?;
                        if !(0xDC00u32 <= lo && lo <= 0xDFFFu32) {
                            return Err(syntax(at, "valid surrogate pair"));
                        }
                        0x10000u32 + (hi - 0xD800u32) * 1024u32 + (lo - 0xDC00u32)
                    } else if 0xDC00u32 <= hi && hi <= 0xDFFFu32 {
                        return Err(syntax(at, "valid surrogate pair"));
                    } else {
                        hi
                    };
                    if decode {
                        proof {
                            lemma_scalar_valid(out@, cp);
                        }
                        push_utf8(cp, &mut out);
                    }
                } else {
                    return Err(syntax(self.pos, "escape character"));
                }
            } else if c <= 31u8 {
                return Err(syntax(self.pos, "escaped control character"));
            } else if c <= 127u8 {
                self.pos = self.pos + 1;
                if decode {
                    proof {
                        lemma_ascii_byte_valid(out@, c);
                    }
                    out.push(c);
                }
            } else {
                let width: usize = if 0xC2u8 <= c && c <= 0xDFu8 {
                    2
                } else if 0xE0u8 <= c && c <= 0xEFu8 {
                    3
                } else if 0xF0u8 <= c && c <= 0xF4u8 {
                    4
                } else {
                    return Err(BoundError::InvalidUtf8 { offset: self.pos });
                };
                let p = self.pos;
                if b.len() - p < width {
                    return Err(BoundError::InvalidUtf8 { offset: p });
                }
                let span = vstd::slice::slice_subrange(b, p, p + width);
                if !utf8_valid(span) {
                    return Err(BoundError::InvalidUtf8 { offset: p });
                }
                if decode {
                    let mut j: usize = 0;
                    let ghost before = out@;
                    while j < width
                        invariant
                            j <= width,
                            span@.len() == width,
                            out@ == before + span@.take(j as int),
                        decreases width - j,
                    {
                        out.push(span[j]);
                        j = j + 1;
                        proof {
                            assert(out@ =~= before + span@.take(j as int));
                        }
                    }
                    proof {
                        assert(span@.take(width as int) =~= span@);
                        vstd::utf8::valid_utf8_concat(before, span@);
                    }
                }
                self.pos = p + width;
            }
        }
    }

    fn run(&mut self, b: &[u8], limits: &ParseLimits) -> (r: Result<ScanStats, BoundError>)
        requires
            old(self).wf(b@, *limits),
            old(self).pos == 0,
            old(self).stack@.len() == 0,
            old(self).values == 0,
            old(self).max_depth_seen == 0,
        ensures
            r matches Ok(st) ==> st.bytes == b@.len() && st.max_depth_seen <= limits.max_depth
                && 1 <= st.values <= limits.max_total_values && ws_end(b@, 0) < b@.len(),
            r matches Err(e) ==> e.offset() matches Some(o) ==> o <= b@.len(),
            r matches Err(e) ==> !(e is TooLarge),
            r == Err::<ScanStats, BoundError>(BoundError::Empty) <==> ws_end(b@, 0) == b@.len(),
            r matches Err(BoundError::TrailingData { offset }) ==> offset < b@.len() && !is_ws(
                b@[offset as int],
            ),
    {
        proof {
            lemma_ws_end(b@, 0);
        }
        self.skip_ws(b);
        if self.pos == b.len() {
            return Err(BoundError::Empty);
        }
        let mut step = Step::Value;
        loop
            invariant
                self.wf(b@, *limits),
                ws_end(b@, 0) < b@.len(),
                step matches Step::AfterValue ==> self.values >= 1,
            decreases b@.len() - self.pos,
        {
            let ghost p0 = self.pos;
            step = match step {
                Step::Value => self.value(b, limits)?,
                Step::AfterValue => {
                    self.skip_ws(b);
                    let ghost st0 = self.stack@;
                    match self.stack.pop() {
                        None => {
                            if self.pos != b.len() {
                                return Err(BoundError::TrailingData { offset: self.pos });
                            }
                            return Ok(
                                ScanStats {
                                    bytes: b.len(),
                                    max_depth_seen: self.max_depth_seen,
                                    values: self.values,
                                },
                            );
                        },
                        Some(f) => {
                            let is_array = match &f {
                                Frame::Array { .. } => true,
                                Frame::Object { .. } => false,
                            };
                            self.stack.push(f);
                            proof {
                                assert(self.stack@ =~= st0);
                            }
                            let c = self.peek(b);
                            if c == Some(44u8) {
                                self.pos = self.pos + 1;
                                self.skip_ws(b);
                                if is_array {
                                    self.begin_member(b, limits)?;
                                } else {
                                    self.key(b, limits)?;
                                }
                                Step::Value
                            } else if is_array && c == Some(93u8) {
                                self.pos = self.pos + 1;
                                self.pop(b, limits);
                                Step::AfterValue
                            } else if !is_array && c == Some(125u8) {
                                self.pos = self.pos + 1;
                                self.pop(b, limits);
                                Step::AfterValue
                            } else if is_array {
                                return Err(syntax(self.pos, "',' or ']'"));
                            } else {
                                return Err(syntax(self.pos, "',' or '}'"));
                            }
                        },
                    }
                },
            };
            assert(self.pos > p0);
        }
    }
}

/// `16^n`.
spec fn pow16(n: nat) -> int
    decreases n,
{
    if n == 0 {
        1
    } else {
        16 * pow16((n - 1) as nat)
    }
}

/// Adding an ASCII byte keeps a byte string valid UTF-8.
proof fn lemma_ascii_byte_valid(out: Seq<u8>, c: u8)
    requires
        vstd::utf8::valid_utf8(out),
        c < 128,
    ensures
        vstd::utf8::valid_utf8(out.push(c)),
{
    crate::digits::lemma_ascii_valid_utf8(seq![c]);
    vstd::utf8::valid_utf8_concat(out, seq![c]);
    assert(out + seq![c] =~= out.push(c));
}

/// Adding the encoding of a scalar keeps a byte string valid UTF-8.
proof fn lemma_scalar_valid(out: Seq<u8>, cp: u32)
    requires
        vstd::utf8::valid_utf8(out),
        vstd::utf8::is_scalar(cp),
    ensures
        vstd::utf8::valid_utf8(out + vstd::utf8::encode_scalar(cp)),
{
    let c = cp as char;
    assert(c as u32 == cp);
    let cs = seq![c];
    assert(vstd::utf8::encode_utf8(cs) =~= vstd::utf8::encode_scalar(cp) + vstd::utf8::encode_utf8(
        cs.drop_first(),
    ));
    assert(vstd::utf8::encode_utf8(cs.drop_first()) =~= Seq::<u8>::empty());
    vstd::utf8::encode_utf8_valid_utf8(cs);
    assert(vstd::utf8::encode_utf8(cs) =~= vstd::utf8::encode_scalar(cp));
    vstd::utf8::valid_utf8_concat(out, vstd::utf8::encode_scalar(cp));
}

/// Validate `bytes` as exactly one JSON value within `limits`.
///
/// The length check against `max_bytes` happens before any byte is examined.
/// Every other bound is checked incrementally, at the byte where it is first
/// exceeded. The scan is iterative, so hostile nesting cannot exhaust the
/// stack.
pub fn scan(bytes: &[u8], limits: &ParseLimits) -> (r: Result<ScanStats, BoundError>)
    ensures
        bytes@.len() > limits.max_bytes <==> r == Err::<ScanStats, BoundError>(
            BoundError::TooLarge { limit: limits.max_bytes, actual: bytes@.len() as usize },
        ),
        r matches Ok(st) ==> st.bytes == bytes@.len() && st.max_depth_seen <= limits.max_depth
            && 1 <= st.values <= limits.max_total_values,
        r == Err::<ScanStats, BoundError>(BoundError::Empty) <==> bytes@.len() <= limits.max_bytes
            && ws_end(bytes@, 0) == bytes@.len(),
        r matches Err(e) ==> e.offset() matches Some(o) ==> o <= bytes@.len(),
        r matches Err(BoundError::TrailingData { offset }) ==> offset < bytes@.len() && !is_ws(
            bytes@[offset as int],
        ),
{
    if bytes.len() > limits.max_bytes {
        return Err(BoundError::TooLarge { limit: limits.max_bytes, actual: bytes.len() });
    }
    let mut s = Scanner { pos: 0, stack: Vec::new(), values: 0, max_depth_seen: 0 };
    s.run(bytes, limits)
}


/// What a refused typed parse is told.
pub open spec fn parse_error_text(e: ParseError) -> Seq<char> {
    match e {
        ParseError::Bound(b) => "bounds: "@ + bound_message(b),
        ParseError::Schema { message } => "schema: "@ + message@,
    }
}

impl ParseError {
    /// The refusal as text.
    pub fn message(&self) -> (r: String)
        ensures
            r@ == parse_error_text(*self),
    {
        match self {
            ParseError::Bound(b) => join("bounds: ", b.message().as_str()),
            ParseError::Schema { message } => join("schema: ", message.as_str()),
        }
    }
}

} // verus!
