//! The rules program, `rustev.rules/1`: the document a host supplies, its
//! validation, and the checked form the evaluator runs.
use vstd::prelude::*;
use vstd::string::{StrSliceExecFns, StringSliceAdditionalSpecFns};

use crate::decimal::Decimal;
use crate::definition::Operation;
use crate::digits::{lemma_spec_digits, lemma_spec_digits_len, pow10, push_digits, spec_digits};
use crate::document::DocumentError;
use crate::ids::{cut_chars, first_chars};
use crate::order::{byte_len, str_eq, texts};
use crate::rules::limits;
use crate::text::{
    byte_count, indexed, is_blank, is_blank_text, join, lower_text, to_ascii_lower,
};
use crate::text_map::TextMap;

verus! {

/// The schema string of a rules program.
pub const SCHEMA: &'static str = "rustev.rules/1";

/// A rules program as the host supplies it.
#[derive(Debug, PartialEq, Eq)]
pub struct RulesProgram {
    pub schema: String,
    pub backend_id: String,
    pub limits: ProgramLimits,
    pub cost: ProgramCost,
    pub tasks: Vec<Task>,
}

/// The program's input bound.
#[derive(Debug, Clone, PartialEq, Eq)]
pub struct ProgramLimits {
    /// Largest projection accepted, in bytes; larger ones are refused.
    pub max_projection_bytes: u64,
}

/// The program's cost disclosure.
#[derive(Debug, Clone, PartialEq, Eq)]
pub struct ProgramCost {
    /// Metered logical units charged per call. Not money.
    pub units_per_call: u64,
}

/// One task: a question, its options, the fields it reads and its rules.
#[derive(Debug, PartialEq, Eq)]
pub struct Task {
    pub operation: Operation,
    pub task: String,
    pub question: String,
    pub options: Vec<String>,
    /// What the logits mean, authored.
    pub interpretation: String,
    pub fields: Vec<Field>,
    pub base: TextMap<Decimal>,
    pub rules: Vec<Rule>,
    pub on_no_match: NoMatch,
}

/// A field the rules read from the projection.
#[derive(Debug, Clone, PartialEq, Eq)]
pub struct Field {
    pub name: String,
    /// `input:<name>` or `bind:<name>`, optionally `/<member>`.
    pub reference: String,
    pub ty: FieldType,
}

/// The type a field is read as.
#[derive(Debug, Clone, Copy, PartialEq, Eq)]
pub enum FieldType {
    Text,
    Bool,
    Integer,
    Decimal,
}

/// What happens when no rule applies.
#[derive(Debug, Clone, Copy, PartialEq, Eq)]
pub enum NoMatch {
    Base,
    Fail,
}

/// A named rule: when its condition holds, its contributions apply.
#[derive(Debug, PartialEq, Eq)]
pub struct Rule {
    pub name: String,
    pub when: Condition,
    pub contributions: Vec<Contribution>,
    pub stop: bool,
}

/// A rule's condition.
#[derive(Debug, PartialEq, Eq)]
pub enum Condition {
    Always,
    ContainsAny { field: String, terms: Vec<String> },
    Equals { field: String, value: String },
    Compare { field: String, op: CompareOp, value: Decimal },
    All(Vec<Condition>),
    Any(Vec<Condition>),
    Not(Box<Condition>),
}

/// A comparison against a constant.
#[derive(Debug, Clone, Copy, PartialEq, Eq)]
pub enum CompareOp {
    Lt,
    Le,
    Ge,
    Gt,
}

/// What a rule adds to the logits.
#[derive(Debug, PartialEq, Eq)]
pub enum Contribution {
    Add(TextMap<Decimal>),
    Linear { field: String, coefficients: TextMap<Decimal> },
    Lookup { field: String, entries: Vec<LookupEntry>, on_missing: OnMissing },
}

/// One row of a lookup table.
#[derive(Debug, PartialEq, Eq)]
pub struct LookupEntry {
    pub key: String,
    pub add: TextMap<Decimal>,
}

/// What a lookup does with a key it has no row for.
#[derive(Debug, Clone, Copy, PartialEq, Eq)]
pub enum OnMissing {
    Skip,
    Fail,
}

/// Why a program was refused. `at` locates the item, for example
/// `tasks[0].rules[3].then[1]`.
#[derive(Debug, Clone, PartialEq, Eq)]
pub struct ProgramError {
    pub at: String,
    pub kind: ProgramErrorKind,
}

/// The kinds of refusal.
#[derive(Debug, Clone, PartialEq, Eq)]
pub enum ProgramErrorKind {
    /// The bytes are not a `rustev.rules/1` document.
    Document(DocumentError),
    /// The program has no canonical form.
    Canonical(crate::canonical::CanonicalError),
    /// A count or length outside its bound.
    Bound { what: &'static str, min: usize, max: usize, found: usize },
    BackendId,
    /// `rank`, which this backend does not answer.
    UnsupportedOperation,
    /// A proposition's options are not `["false", "true"]`.
    PropositionOptions,
    Duplicate { what: &'static str, name: String },
    UnknownOption(String),
    UnknownField(String),
    /// A field `ref` is not `input:<name>` or `bind:<name>`, with at most one
    /// `/<member>`.
    Reference(String),
    /// A field of a type the condition or contribution does not accept.
    FieldType { field: String, found: FieldType },
    /// An `equals` value that is not the canonical text of its field type.
    EqualsValue(String),
    /// Blank interpretation.
    Interpretation,
}

// ---------------------------------------------------------------------------
// The checked form.

/// A validated task, with names resolved to indices.
#[derive(Debug)]
pub struct CTask {
    pub operation: Operation,
    pub name: String,
    pub question: String,
    pub options: Vec<String>,
    pub fields: Vec<CField>,
    pub base: Vec<Decimal>,
    pub rules: Vec<CRule>,
    pub on_no_match: NoMatch,
}

/// A validated field: its projection key and optional record member.
#[derive(Debug, Clone)]
pub struct CField {
    pub name: String,
    /// The projection `values` key (`input:<name>` or `bind:<name>`).
    pub key: String,
    pub member: Option<String>,
    pub ty: FieldType,
}

/// A validated rule.
#[derive(Debug)]
pub struct CRule {
    pub name: String,
    pub when: CCond,
    pub contributions: Vec<CContrib>,
    pub stop: bool,
}

/// A validated condition; fields are indices into the task's fields.
#[derive(Debug)]
pub enum CCond {
    Always,
    /// Terms are already ASCII lower-cased.
    ContainsAny { field: usize, terms: Vec<String> },
    Equals { field: usize, value: String },
    Compare { field: usize, op: CompareOp, value: Decimal },
    All(Vec<CCond>),
    Any(Vec<CCond>),
    Not(Box<CCond>),
}

/// A validated contribution; option-indexed constants in option-name order.
#[derive(Debug)]
pub enum CContrib {
    Add(Vec<(usize, Decimal)>),
    Linear { field: usize, coefficients: Vec<(usize, Decimal)> },
    Lookup { field: usize, table: TextMap<Vec<(usize, Decimal)>>, on_missing: OnMissing },
}

// ---------------------------------------------------------------------------
// What a valid program is.

/// A text of `min..=max` UTF-8 bytes.
pub open spec fn len_within(s: Seq<char>, min: int, max: int) -> bool {
    min <= byte_len(s) <= max
}

/// No text twice.
pub open spec fn distinct(s: Seq<Seq<char>>) -> bool {
    forall|i: int, j: int| 0 <= i < j < s.len() ==> s[i] != s[j]
}

/// The position of `t` in `s`, or -1.
pub open spec fn position_of(s: Seq<Seq<char>>, t: Seq<char>) -> int {
    if exists|i: int| 0 <= i < s.len() && #[trigger] s[i] == t {
        choose|i: int| 0 <= i < s.len() && #[trigger] s[i] == t
    } else {
        -1
    }
}

/// A lowercase ASCII letter, a digit, `.`, `_` or `-`.
pub open spec fn backend_id_byte(b: u8) -> bool {
    (97 <= b <= 122) || (48 <= b <= 57) || b == 46 || b == 95 || b == 45
}

/// A backend id: 1 to 64 bytes, each a lowercase letter, digit, `.`, `_`
/// or `-`.
pub open spec fn backend_id_ok(b: Seq<u8>) -> bool {
    &&& 1 <= b.len() <= limits::BACKEND_ID_BYTES
    &&& forall|i: int| 0 <= i < b.len() ==> backend_id_byte(#[trigger] b[i])
}

/// The index of the first `c` in `s` at or after `i`, or `s.len()`.
pub open spec fn find_char(s: Seq<char>, c: char, i: int) -> int
    decreases s.len() - i,
{
    if i < 0 || i >= s.len() {
        s.len() as int
    } else if s[i] == c {
        i
    } else {
        find_char(s, c, i + 1)
    }
}

/// A name in a reference: non-empty, with no `/` and no `:`.
pub open spec fn simple_name(s: Seq<char>) -> bool {
    s.len() > 0 && !s.contains('/') && !s.contains(':')
}

/// `s` starts with `p`.
pub open spec fn has_prefix(s: Seq<char>, p: Seq<char>) -> bool {
    p.len() <= s.len() && s.take(p.len() as int) == p
}

/// The projection key and optional member of a field reference:
/// `input:<name>` or `bind:<name>`, optionally `/<member>`.
pub open spec fn ref_parts(r: Seq<char>) -> Option<(Seq<char>, Option<Seq<char>>)> {
    let f = find_char(r, '/', 0);
    let key = r.take(f);
    let member = if f < r.len() {
        Some(r.skip(f + 1))
    } else {
        None
    };
    let name = if has_prefix(key, "input:"@) {
        Some(key.skip(6))
    } else if has_prefix(key, "bind:"@) {
        Some(key.skip(5))
    } else {
        None
    };
    match name {
        Some(n) => if simple_name(n) && (match member {
            Some(m) => simple_name(m),
            None => true,
        }) {
            Some((key, member))
        } else {
            None
        },
        None => None,
    }
}

/// The decimal text of an integer, with a `-` for a negative one.
pub open spec fn int_text(i: int) -> Seq<u8> {
    if i < 0 {
        seq![45u8] + spec_digits((-i) as nat)
    } else {
        spec_digits(i as nat)
    }
}

/// An `i64` in range.
pub open spec fn in_i64(i: int) -> bool {
    -0x8000_0000_0000_0000 <= i <= 0x7fff_ffff_ffff_ffff
}

/// Whether `v` is the canonical text of some value of type `ty`.
pub open spec fn canonical_text_for(ty: FieldType, v: Seq<char>) -> bool {
    match ty {
        FieldType::Text => true,
        FieldType::Bool => v == "true"@ || v == "false"@,
        FieldType::Integer => exists|i: int| in_i64(i) && #[trigger] int_text(i) == vstd::utf8::encode_utf8(v),
        FieldType::Decimal => false,
    }
}


// ---------------------------------------------------------------------------
// Small checks.

/// A refusal at `at`.
pub fn err(at: String, kind: ProgramErrorKind) -> (r: ProgramError)
    ensures
        r.at == at,
        r.kind == kind,
{
    ProgramError { at, kind }
}

/// Refuse a count or length outside `min..=max`.
pub fn bound(at: &str, what: &'static str, found: usize, min: usize, max: usize) -> (r: Result<
    (),
    ProgramError,
>)
    ensures
        r is Ok <==> min <= found <= max,
        r matches Err(e) ==> e.at@ == at@ && e.kind == (ProgramErrorKind::Bound {
            what,
            min,
            max,
            found,
        }),
{
    if found < min || found > max {
        return Err(err(at.to_owned(), ProgramErrorKind::Bound { what, min, max, found }));
    }
    Ok(())
}

/// Whether `b` is a valid backend id.
fn backend_id_valid(s: &str) -> (r: bool)
    ensures
        r == backend_id_ok(s.spec_bytes()),
{
    let b = s.as_bytes();
    if b.len() == 0 || b.len() > limits::BACKEND_ID_BYTES {
        return false;
    }
    let mut i: usize = 0;
    while i < b.len()
        invariant
            i <= b@.len(),
            b@ == s.spec_bytes(),
            forall|k: int| 0 <= k < i ==> backend_id_byte(#[trigger] b@[k]),
        decreases b@.len() - i,
    {
        let c = b[i];
        if !((97 <= c && c <= 122) || (48 <= c && c <= 57) || c == 46 || c == 95 || c == 45) {
            return false;
        }
        i = i + 1;
    }
    true
}

/// Whether `s` starts with `p`.
pub(crate) fn starts_with_text(s: &str, p: &str) -> (r: bool)
    ensures
        r == has_prefix(s@, p@),
{
    let n = s.unicode_len();
    let m = p.unicode_len();
    if m > n {
        return false;
    }
    let mut i: usize = 0;
    while i < m
        invariant
            n == s@.len(),
            m == p@.len(),
            m <= n,
            i <= m,
            forall|k: int| 0 <= k < i ==> s@[k] == p@[k],
        decreases m - i,
    {
        if s.get_char(i) != p.get_char(i) {
            proof {
                assert(s@.take(m as int)[i as int] != p@[i as int]);
            }
            return false;
        }
        i = i + 1;
    }
    proof {
        assert(s@.take(m as int) =~= p@);
    }
    true
}

/// Whether `s` is a simple name: non-empty, no `/`, no `:`.
fn is_simple(s: &str) -> (r: bool)
    ensures
        r == simple_name(s@),
{
    let n = s.unicode_len();
    if n == 0 {
        return false;
    }
    let mut i: usize = 0;
    while i < n
        invariant
            n == s@.len(),
            i <= n,
            forall|k: int| 0 <= k < i ==> s@[k] != '/' && s@[k] != ':',
        decreases n - i,
    {
        let c = s.get_char(i);
        if c == '/' || c == ':' {
            proof {
                assert(s@[i as int] == c);
            }
            return false;
        }
        i = i + 1;
    }
    true
}

/// The projection key and optional member of a field reference.
pub fn parse_ref(r: &str) -> (out: Option<(String, Option<String>)>)
    ensures
        match ref_parts(r@) {
            Some((k, m)) => out matches Some((k2, m2)) && k2@ == k && (match m {
                Some(x) => m2 matches Some(y) && y@ == x,
                None => m2 is None,
            }),
            None => out is None,
        },
{
    let n = r.unicode_len();
    let mut f: usize = 0;
    while f < n && r.get_char(f) != '/'
        invariant
            n == r@.len(),
            f <= n,
            find_char(r@, '/', 0) == find_char(r@, '/', f as int),
        decreases n - f,
    {
        f = f + 1;
    }
    proof {
        assert(find_char(r@, '/', f as int) == f);
    }
    let key = r.substring_char(0, f);
    proof {
        assert(key@ =~= r@.take(f as int));
        reveal_strlit("input:");
        reveal_strlit("bind:");
    }
    let klen = key.unicode_len();
    let name: Option<&str> = if starts_with_text(key, "input:") {
        Some(key.substring_char(6, klen))
    } else if starts_with_text(key, "bind:") {
        Some(key.substring_char(5, klen))
    } else {
        None
    };
    let name = match name {
        Some(x) => x,
        None => {
            return None;
        },
    };
    proof {
        if has_prefix(key@, "input:"@) {
            assert(name@ =~= key@.skip(6));
        } else {
            assert(name@ =~= key@.skip(5));
        }
    }
    if !is_simple(name) {
        return None;
    }
    if f < n {
        let member = r.substring_char(f + 1, n);
        proof {
            assert(member@ =~= r@.skip(f + 1));
        }
        if !is_simple(member) {
            return None;
        }
        Some((key.to_owned(), Some(member.to_owned())))
    } else {
        Some((key.to_owned(), None))
    }
}

/// Whether two byte lists are equal.
fn bytes_equal(a: &[u8], b: &[u8]) -> (r: bool)
    ensures
        r == (a@ == b@),
{
    if a.len() != b.len() {
        return false;
    }
    let mut i: usize = 0;
    while i < a.len()
        invariant
            i <= a@.len(),
            a@.len() == b@.len(),
            forall|k: int| 0 <= k < i ==> a@[k] == b@[k],
        decreases a@.len() - i,
    {
        if a[i] != b[i] {
            return false;
        }
        i = i + 1;
    }
    proof {
        assert(a@ =~= b@);
    }
    true
}

/// Whether `v` is the decimal text of an `i64`, as `i64::to_string`
/// writes it.
fn is_i64_text(v: &str) -> (r: bool)
    ensures
        r == exists|i: int| in_i64(i) && #[trigger] int_text(i) == v.spec_bytes(),
{
    let b = v.as_bytes();
    let negative = b.len() > 0 && b[0] == 45u8;
    let start: usize = if negative {
        1
    } else {
        0
    };
    let len = b.len();
    proof {
        lemma_pow10_19();
    }
    if len <= start || len - start > 19 {
        proof {
            assert forall|i: int| in_i64(i) implies #[trigger] int_text(i) != b@ by {
                lemma_int_text(i);
            }
        }
        return false;
    }
    let mut n: u128 = 0;
    let mut k: usize = start;
    while k < len
        invariant
            b@ == v.spec_bytes(),
            len == b@.len(),
            start <= k <= len,
            len - start <= 19,
            negative == (b@.len() > 0 && b@[0] == 45u8),
            start == (if negative {
                1usize
            } else {
                0usize
            }),
            pow10(19) == 10_000_000_000_000_000_000,
            n == crate::digits::digits_val(b@.subrange(start as int, k as int)),
            crate::digits::all_digits(b@.subrange(start as int, k as int)),
            n < pow10((k - start) as nat),
        decreases len - k,
    {
        let c = b[k];
        if c < 48 || c > 57 {
            proof {
                assert forall|i: int| in_i64(i) implies #[trigger] int_text(i) != b@ by {
                    lemma_int_text(i);
                    if int_text(i) == b@ {
                        let d = b@.subrange(start as int, len as int);
                        if i < 0 {
                            assert(d =~= int_text(i).skip(1));
                        } else {
                            assert(d =~= int_text(i));
                        }
                        assert(d[k - start] == c);
                        assert(crate::digits::is_digit(d[k - start]));
                    }
                }
            }
            return false;
        }
        proof {
            let s0 = b@.subrange(start as int, k as int);
            let s1 = b@.subrange(start as int, k + 1);
            assert(s1.drop_last() =~= s0);
            assert(s1.last() == c);
            crate::digits::lemma_pow10_step((k - start) as nat);
            assert(n * 10 + 9 < pow10((k + 1 - start) as nat)) by (nonlinear_arith)
                requires
                    n < pow10((k - start) as nat),
                    pow10((k + 1 - start) as nat) == 10 * pow10((k - start) as nat),
            ;
            crate::digits::lemma_pow10_mono((k + 1 - start) as nat, 19);
        }
        n = n * 10 + (c - 48) as u128;
        k = k + 1;
    }
    let d = vstd::slice::slice_subrange(b, start, len);
    proof {
        assert(b@.subrange(start as int, len as int) == d@);
    }
    let in_range = if negative {
        1 <= n && n <= 0x8000_0000_0000_0000
    } else {
        n <= 0x7fff_ffff_ffff_ffff
    };
    if !in_range {
        proof {
            assert forall|i: int| in_i64(i) implies #[trigger] int_text(i) != b@ by {
                lemma_int_text(i);
                if int_text(i) == b@ {
                    if i < 0 {
                        assert(d@ == spec_digits((-i) as nat));
                        lemma_spec_digits((-i) as nat);
                    } else {
                        assert(d@ == spec_digits(i as nat));
                        lemma_spec_digits(i as nat);
                    }
                }
            }
        }
        return false;
    }
    let mut g: Vec<u8> = Vec::new();
    push_digits(n, &mut g);
    proof {
        assert(g@ =~= spec_digits(n as nat));
    }
    let same = bytes_equal(g.as_slice(), d);
    proof {
        let i: int = if negative {
            -(n as int)
        } else {
            n as int
        };
        assert(in_i64(i));
        if same {
            if negative {
                assert(b@ =~= seq![45u8] + d@);
            } else {
                assert(b@ =~= d@);
            }
            assert(int_text(i) == b@);
        } else {
            assert forall|j: int| in_i64(j) implies #[trigger] int_text(j) != b@ by {
                lemma_int_text(j);
                if int_text(j) == b@ {
                    if j < 0 {
                        assert(d@ =~= spec_digits((-j) as nat));
                        lemma_spec_digits((-j) as nat);
                    } else {
                        assert(d@ =~= spec_digits(j as nat));
                        lemma_spec_digits(j as nat);
                    }
                }
            }
        }
    }
    same
}

/// `10^19` bounds every `i64` magnitude.
proof fn lemma_pow10_19()
    ensures
        pow10(19) == 10_000_000_000_000_000_000,
{
    reveal_with_fuel(pow10, 20);
}

/// The shape of an integer's text: a digit first unless negative.
proof fn lemma_int_text(i: int)
    requires
        in_i64(i),
    ensures
        i < 0 ==> int_text(i).len() >= 2 && int_text(i)[0] == 45u8 && int_text(i).skip(1)
            == spec_digits((-i) as nat) && spec_digits((-i) as nat).len() <= 19,
        i >= 0 ==> int_text(i) == spec_digits(i as nat) && int_text(i).len() >= 1
            && int_text(i)[0] != 45u8 && int_text(i).len() <= 19,
        crate::digits::all_digits(spec_digits(if i < 0 {
            (-i) as nat
        } else {
            i as nat
        })),
{
    lemma_pow10_19();
    if i < 0 {
        lemma_spec_digits((-i) as nat);
        lemma_spec_digits_len((-i) as nat, 19);
        assert((seq![45u8] + spec_digits((-i) as nat)).skip(1) =~= spec_digits((-i) as nat));
    } else {
        lemma_spec_digits(i as nat);
        lemma_spec_digits_len(i as nat, 19);
        assert(crate::digits::is_digit(spec_digits(i as nat)[0]));
    }
}

/// Whether `v` is the canonical text of some value of type `ty`.
pub fn canonical_for(ty: FieldType, v: &str) -> (r: bool)
    ensures
        r == canonical_text_for(ty, v@),
{
    match ty {
        FieldType::Text => true,
        FieldType::Bool => str_eq(v, "true") || str_eq(v, "false"),
        FieldType::Integer => is_i64_text(v),
        FieldType::Decimal => false,
    }
}

// ---------------------------------------------------------------------------
// What a valid task is, and what it compiles to.

/// The option names of a task.
pub open spec fn option_names(t: Task) -> Seq<Seq<char>> {
    texts(t.options@)
}

/// The field names of a task.
pub open spec fn field_names(t: Task) -> Seq<Seq<char>> {
    t.fields@.map_values(|f: Field| f.name@)
}

/// The rule names of a task.
pub open spec fn rule_names(t: Task) -> Seq<Seq<char>> {
    t.rules@.map_values(|r: Rule| r.name@)
}

/// The keys of a lookup's entries.
pub open spec fn entry_names(es: Seq<LookupEntry>) -> Seq<Seq<char>> {
    es.map_values(|e: LookupEntry| e.key@)
}

/// The position of the field named `name`, or -1.
pub open spec fn field_pos(t: Task, name: Seq<char>) -> int {
    position_of(field_names(t), name)
}

/// The declared type of the field named `name`.
pub open spec fn field_ty(t: Task, name: Seq<char>) -> FieldType {
    t.fields@[field_pos(t, name)].ty
}

/// A type `contains_any` reads.
pub open spec fn text_type(ty: FieldType) -> bool {
    ty is Text
}

/// A type `equals` and `lookup` read: one with a canonical text.
pub open spec fn keyed_type(ty: FieldType) -> bool {
    ty is Text || ty is Bool || ty is Integer
}

/// A type `compare` and `linear` read.
pub open spec fn numeric_type(ty: FieldType) -> bool {
    ty is Integer || ty is Decimal
}

/// A condition is valid at nesting depth `depth`: its fields exist with an
/// accepted type, its bounds hold, and compounds nest at most 4 deep.
pub open spec fn cond_ok(t: Task, c: Condition, depth: int) -> bool
    decreases c,
{
    match c {
        Condition::Always => true,
        Condition::ContainsAny { field, terms } => {
            &&& field_pos(t, field@) >= 0
            &&& text_type(field_ty(t, field@))
            &&& 1 <= terms@.len() <= limits::TERMS
            &&& forall|i: int|
                0 <= i < terms@.len() ==> len_within(#[trigger] terms@[i]@, 1, limits::TERM_BYTES as int)
        },
        Condition::Equals { field, value } => {
            &&& field_pos(t, field@) >= 0
            &&& keyed_type(field_ty(t, field@))
            &&& canonical_text_for(field_ty(t, field@), value@)
        },
        Condition::Compare { field, .. } => field_pos(t, field@) >= 0 && numeric_type(
            field_ty(t, field@),
        ),
        Condition::All(ms) => {
            &&& depth + 1 <= limits::CONDITION_DEPTH
            &&& 1 <= ms@.len() <= limits::CONDITION_MEMBERS
            &&& forall|i: int| 0 <= i < ms@.len() ==> cond_ok(t, #[trigger] ms@[i], depth + 1)
        },
        Condition::Any(ms) => {
            &&& depth + 1 <= limits::CONDITION_DEPTH
            &&& 1 <= ms@.len() <= limits::CONDITION_MEMBERS
            &&& forall|i: int| 0 <= i < ms@.len() ==> cond_ok(t, #[trigger] ms@[i], depth + 1)
        },
        Condition::Not(b) => depth + 1 <= limits::CONDITION_DEPTH && cond_ok(t, *b, depth + 1),
    }
}

/// The nodes of a condition tree.
pub open spec fn cond_nodes(c: Condition) -> nat
    decreases c, 0nat,
{
    match c {
        Condition::All(ms) => 1 + list_nodes(ms@, ms@.len() as int),
        Condition::Any(ms) => 1 + list_nodes(ms@, ms@.len() as int),
        Condition::Not(b) => 1 + cond_nodes(*b),
        _ => 1,
    }
}

/// The nodes of the first `n` conditions of `ms`.
pub open spec fn list_nodes(ms: Seq<Condition>, n: int) -> nat
    decreases ms, n,
{
    if n <= 0 || n > ms.len() {
        0
    } else {
        list_nodes(ms, n - 1) + cond_nodes(ms[n - 1])
    }
}

/// The `contains_any` terms of a condition tree.
pub open spec fn cond_terms(c: Condition) -> nat
    decreases c, 0nat,
{
    match c {
        Condition::ContainsAny { terms, .. } => terms@.len(),
        Condition::All(ms) => list_terms(ms@, ms@.len() as int),
        Condition::Any(ms) => list_terms(ms@, ms@.len() as int),
        Condition::Not(b) => cond_terms(*b),
        _ => 0,
    }
}

/// The `contains_any` terms of the first `n` conditions of `ms`.
pub open spec fn list_terms(ms: Seq<Condition>, n: int) -> nat
    decreases ms, n,
{
    if n <= 0 || n > ms.len() {
        0
    } else {
        list_terms(ms, n - 1) + cond_terms(ms[n - 1])
    }
}

/// The lookup entries of a contribution.
pub open spec fn contrib_entries(c: Contribution) -> nat {
    match c {
        Contribution::Lookup { entries, .. } => entries@.len(),
        _ => 0,
    }
}

/// The lookup entries of the first `n` contributions.
pub open spec fn list_entries(cs: Seq<Contribution>, n: int) -> nat
    decreases n,
{
    if n <= 0 || n > cs.len() {
        0
    } else {
        list_entries(cs, n - 1) + contrib_entries(cs[n - 1])
    }
}

/// The `contains_any` terms of the first `n` rules.
pub open spec fn rules_terms(rs: Seq<Rule>, n: int) -> nat
    decreases n,
{
    if n <= 0 || n > rs.len() {
        0
    } else {
        rules_terms(rs, n - 1) + cond_terms(rs[n - 1].when)
    }
}

/// The lookup entries of the first `n` rules.
pub open spec fn rules_entries(rs: Seq<Rule>, n: int) -> nat
    decreases n,
{
    if n <= 0 || n > rs.len() {
        0
    } else {
        rules_entries(rs, n - 1) + list_entries(rs[n - 1].contributions@, rs[n - 1].contributions@.len() as int)
    }
}

/// Option constants: every key is an option, and there is at least one
/// unless the map may be empty.
pub open spec fn adds_ok(t: Task, m: TextMap<Decimal>, may_be_empty: bool) -> bool {
    &&& (may_be_empty || m.keys().len() > 0)
    &&& forall|i: int|
        0 <= i < m.keys().len() ==> position_of(option_names(t), #[trigger] m.keys()[i]) >= 0
}

/// A contribution is valid.
pub open spec fn contrib_ok(t: Task, c: Contribution) -> bool {
    match c {
        Contribution::Add(m) => adds_ok(t, m, false),
        Contribution::Linear { field, coefficients } => {
            &&& field_pos(t, field@) >= 0
            &&& numeric_type(field_ty(t, field@))
            &&& adds_ok(t, coefficients, false)
        },
        Contribution::Lookup { field, entries, .. } => {
            &&& field_pos(t, field@) >= 0
            &&& keyed_type(field_ty(t, field@))
            &&& 1 <= entries@.len() <= limits::LOOKUP_ENTRIES
            &&& forall|e: int|
                0 <= e < entries@.len() ==> len_within(
                    #[trigger] entries@[e].key@,
                    1,
                    limits::LOOKUP_KEY_BYTES as int,
                ) && adds_ok(t, entries@[e].add, false)
            &&& distinct(entry_names(entries@))
        },
    }
}

/// A rule is valid.
pub open spec fn rule_ok(t: Task, r: Rule) -> bool {
    &&& len_within(r.name@, 1, limits::NAME_BYTES as int)
    &&& cond_ok(t, r.when, 0)
    &&& 1 <= cond_nodes(r.when) <= limits::CONDITION_NODES
    &&& r.contributions@.len() <= limits::CONTRIBUTIONS
    &&& forall|c: int| 0 <= c < r.contributions@.len() ==> contrib_ok(t, #[trigger] r.contributions@[c])
}

/// A task is valid.
pub open spec fn task_ok(t: Task) -> bool {
    &&& !(t.operation is Rank)
    &&& len_within(t.task@, 1, limits::TASK_BYTES as int)
    &&& len_within(t.question@, 1, limits::QUESTION_BYTES as int)
    &&& limits::OPTIONS_MIN <= t.options@.len() <= limits::OPTIONS
    &&& forall|k: int|
        0 <= k < t.options@.len() ==> len_within(
            #[trigger] option_names(t)[k],
            1,
            limits::OPTION_BYTES as int,
        )
    &&& distinct(option_names(t))
    &&& (t.operation is Proposition ==> option_names(t) == seq!["false"@, "true"@])
    &&& len_within(t.interpretation@, 1, limits::INTERPRETATION_BYTES as int)
    &&& !is_blank_text(t.interpretation@)
    &&& t.fields@.len() <= limits::FIELDS
    &&& forall|k: int|
        0 <= k < t.fields@.len() ==> len_within(
            #[trigger] field_names(t)[k],
            1,
            limits::NAME_BYTES as int,
        )
    &&& distinct(field_names(t))
    &&& forall|k: int| 0 <= k < t.fields@.len() ==> (#[trigger] ref_parts(t.fields@[k].reference@)) is Some
    &&& adds_ok(t, t.base, true)
    &&& t.rules@.len() <= limits::RULES
    &&& forall|r: int| 0 <= r < t.rules@.len() ==> rule_ok(t, #[trigger] t.rules@[r])
    &&& distinct(rule_names(t))
    &&& rules_terms(t.rules@, t.rules@.len() as int) <= limits::TERMS_PER_TASK
    &&& rules_entries(t.rules@, t.rules@.len() as int) <= limits::LOOKUP_ENTRIES_PER_TASK
}

/// The task names of a program.
pub open spec fn task_names(p: RulesProgram) -> Seq<Seq<char>> {
    p.tasks@.map_values(|t: Task| t.task@)
}

/// A program is valid.
pub open spec fn program_ok(p: RulesProgram) -> bool {
    &&& p.schema@ == SCHEMA@
    &&& backend_id_ok(vstd::utf8::encode_utf8(p.backend_id@))
    &&& 1 <= p.limits.max_projection_bytes <= limits::MAX_PROJECTION_BYTES
    &&& 1 <= p.tasks@.len() <= limits::TASKS
    &&& distinct(task_names(p))
    &&& forall|i: int| 0 <= i < p.tasks@.len() ==> task_ok(#[trigger] p.tasks@[i])
}

/// The option-indexed constants of `m`, in key order.
pub open spec fn adds_of(t: Task, m: TextMap<Decimal>) -> Seq<(usize, Decimal)> {
    Seq::new(
        m.keys().len(),
        |i: int| (position_of(option_names(t), m.keys()[i]) as usize, m.values()[i]),
    )
}

/// A field compiled: the same name and type, and its reference parsed.
pub open spec fn field_compiled(f: Field, cf: CField) -> bool {
    &&& cf.name@ == f.name@
    &&& cf.ty == f.ty
    &&& match ref_parts(f.reference@) {
        Some((k, m)) => cf.key@ == k && (match m {
            Some(x) => cf.member matches Some(y) && y@ == x,
            None => cf.member is None,
        }),
        None => false,
    }
}

/// A condition compiled: names resolved to field positions, terms lower-cased.
pub open spec fn cond_compiled(t: Task, c: Condition, cc: CCond) -> bool
    decreases c,
{
    match c {
        Condition::Always => cc is Always,
        Condition::ContainsAny { field, terms } => cc matches CCond::ContainsAny {
            field: k,
            terms: ts,
        } && k == field_pos(t, field@) && ts@.len() == terms@.len() && forall|i: int|
            0 <= i < terms@.len() ==> (#[trigger] ts@[i])@ == lower_text(terms@[i]@),
        Condition::Equals { field, value } => cc matches CCond::Equals { field: k, value: v } && k
            == field_pos(t, field@) && v@ == value@,
        Condition::Compare { field, op, value } => cc matches CCond::Compare {
            field: k,
            op: o,
            value: x,
        } && k == field_pos(t, field@) && o == op && x == value,
        Condition::All(ms) => cc matches CCond::All(cs) && cs@.len() == ms@.len() && forall|i: int|
            0 <= i < ms@.len() ==> cond_compiled(t, #[trigger] ms@[i], cs@[i]),
        Condition::Any(ms) => cc matches CCond::Any(cs) && cs@.len() == ms@.len() && forall|i: int|
            0 <= i < ms@.len() ==> cond_compiled(t, #[trigger] ms@[i], cs@[i]),
        Condition::Not(b) => cc matches CCond::Not(cb) && cond_compiled(t, *b, *cb),
    }
}

/// A contribution compiled.
pub open spec fn contrib_compiled(t: Task, c: Contribution, cc: CContrib) -> bool {
    match c {
        Contribution::Add(m) => cc matches CContrib::Add(a) && a@ == adds_of(t, m),
        Contribution::Linear { field, coefficients } => cc matches CContrib::Linear {
            field: k,
            coefficients: a,
        } && k == field_pos(t, field@) && a@ == adds_of(t, coefficients),
        Contribution::Lookup { field, entries, on_missing } => cc matches CContrib::Lookup {
            field: k,
            table,
            on_missing: om,
        } && k == field_pos(t, field@) && om == on_missing && table.keys().len()
            == entries@.len() && forall|e: int|
            0 <= e < entries@.len() ==> (table.lookup(#[trigger] entries@[e].key@) matches Some(a)
                && a@ == adds_of(t, entries@[e].add)),
    }
}

/// A rule compiled.
pub open spec fn rule_compiled(t: Task, r: Rule, cr: CRule) -> bool {
    &&& cr.name@ == r.name@
    &&& cr.stop == r.stop
    &&& cond_compiled(t, r.when, cr.when)
    &&& cr.contributions@.len() == r.contributions@.len()
    &&& forall|c: int| 0 <= c < r.contributions@.len() ==> contrib_compiled(t, #[trigger] r.contributions@[c], cr.contributions@[c])
}

/// The base logit of option `k`: its constant, or zero.
pub open spec fn base_of(t: Task, k: int) -> int {
    match t.base.lookup(option_names(t)[k]) {
        Some(d) => d@,
        None => 0,
    }
}

/// A task compiled.
pub open spec fn task_compiled(t: Task, ct: CTask) -> bool {
    &&& ct.operation == t.operation
    &&& ct.name@ == t.task@
    &&& ct.question@ == t.question@
    &&& texts(ct.options@) == option_names(t)
    &&& ct.fields@.len() == t.fields@.len()
    &&& forall|k: int| 0 <= k < t.fields@.len() ==> field_compiled(t.fields@[k], #[trigger] ct.fields@[k])
    &&& ct.base@.len() == t.options@.len()
    &&& forall|k: int| 0 <= k < t.options@.len() ==> (#[trigger] ct.base@[k])@ == base_of(t, k)
    &&& ct.rules@.len() == t.rules@.len()
    &&& forall|r: int| 0 <= r < t.rules@.len() ==> rule_compiled(t, t.rules@[r], #[trigger] ct.rules@[r])
    &&& ct.on_no_match == t.on_no_match
}

// ---------------------------------------------------------------------------
// Validation.

/// Different positions of a list of distinct texts hold different texts.
proof fn lemma_position(s: Seq<Seq<char>>, k: int)
    requires
        distinct(s),
        0 <= k < s.len(),
    ensures
        position_of(s, s[k]) == k,
{
    assert(s[k] == s[k]);
    let p = position_of(s, s[k]);
    if p != k {
        if p < k {
            assert(s[p] != s[k]);
        } else {
            assert(s[k] != s[p]);
        }
    }
}

/// A position, when there is one, holds the text.
proof fn lemma_position_range(s: Seq<Seq<char>>, x: Seq<char>)
    ensures
        position_of(s, x) >= 0 ==> position_of(s, x) < s.len() && s[position_of(s, x)] == x,
        position_of(s, x) < 0 ==> forall|i: int| 0 <= i < s.len() ==> s[i] != x,
{
}

/// A text that is not in `s` has no position.
proof fn lemma_no_position(s: Seq<Seq<char>>, x: Seq<char>)
    requires
        forall|i: int| 0 <= i < s.len() ==> s[i] != x,
    ensures
        position_of(s, x) == -1,
{
}

/// `m` maps each text of `names` to its position, and nothing else.
pub open spec fn indexes_names(m: TextMap<usize>, names: Seq<Seq<char>>) -> bool {
    forall|x: Seq<char>| #[trigger]
        m.lookup(x) == (if position_of(names, x) >= 0 {
            Some(position_of(names, x) as usize)
        } else {
            None
        })
}

/// What a field reference must have a type for.
#[derive(Clone, Copy)]
enum Accept {
    Text,
    Keyed,
    Numeric,
}

/// Whether `a` admits fields of type `ty`.
spec fn admits(a: Accept, ty: FieldType) -> bool {
    match a {
        Accept::Text => text_type(ty),
        Accept::Keyed => keyed_type(ty),
        Accept::Numeric => numeric_type(ty),
    }
}

/// The names and types a task's rules are checked against.
struct TaskCx<'a> {
    options: &'a TextMap<usize>,
    fields: &'a Vec<CField>,
    field_index: &'a TextMap<usize>,
    terms: usize,
    entries: usize,
}

/// The context indexes task `t`'s options and fields.
spec fn indexes(cx: TaskCx, t: Task) -> bool {
    &&& distinct(option_names(t))
    &&& distinct(field_names(t))
    &&& indexes_names(*cx.options, option_names(t))
    &&& indexes_names(*cx.field_index, field_names(t))
    &&& cx.fields@.len() == t.fields@.len()
    &&& forall|k: int| 0 <= k < t.fields@.len() ==> (#[trigger] cx.fields@[k]).ty == t.fields@[k].ty
}

/// The option-indexed constants of `m`: every key must be an option.
fn adds(
    t: &Task,
    m: &TextMap<Decimal>,
    options: &TextMap<usize>,
    at: &str,
    may_be_empty: bool,
) -> (r: Result<Vec<(usize, Decimal)>, ProgramError>)
    requires
        indexes_names(*options, option_names(*t)),
        distinct(option_names(*t)),
    ensures
        r is Ok <==> adds_ok(*t, *m, may_be_empty),
        r matches Ok(a) ==> a@ == adds_of(*t, *m),
{
    let n = m.len();
    if n == 0 && !may_be_empty {
        return Err(
            err(
                at.to_owned(),
                ProgramErrorKind::Bound {
                    what: "option constants",
                    min: 1,
                    max: limits::OPTIONS,
                    found: 0,
                },
            ),
        );
    }
    let mut out: Vec<(usize, Decimal)> = Vec::new();
    let mut i: usize = 0;
    while i < n
        invariant
            n == m.keys().len(),
            n == m.values().len(),
            indexes_names(*options, option_names(*t)),
            i <= n,
            out@ == adds_of(*t, *m).take(i as int),
            forall|j: int| 0 <= j < i ==> position_of(option_names(*t), #[trigger] m.keys()[j]) >= 0,
        decreases n - i,
    {
        let key = m.key_at(i);
        match options.get(key) {
            Some(k) => {
                let d = *m.value_at(i);
                out.push((*k, d));
                proof {
                    assert(options.lookup(key@) == Some(*k));
                    assert(out@ =~= adds_of(*t, *m).take(i + 1));
                }
            },
            None => {
                proof {
                    assert(options.lookup(key@) is None);
                }
                return Err(err(at.to_owned(), ProgramErrorKind::UnknownOption(key.to_owned())));
            },
        }
        i = i + 1;
    }
    proof {
        assert(adds_of(*t, *m).take(n as int) =~= adds_of(*t, *m));
    }
    Ok(out)
}

/// Lower-case every term.
fn lower_all(terms: &Vec<String>) -> (r: Vec<String>)
    ensures
        r@.len() == terms@.len(),
        forall|i: int| 0 <= i < terms@.len() ==> (#[trigger] r@[i])@ == lower_text(terms@[i]@),
{
    let mut out: Vec<String> = Vec::new();
    let mut i: usize = 0;
    while i < terms.len()
        invariant
            i <= terms@.len(),
            out@.len() == i,
            forall|j: int| 0 <= j < i ==> (#[trigger] out@[j])@ == lower_text(terms@[j]@),
        decreases terms@.len() - i,
    {
        out.push(to_ascii_lower(terms[i].as_str()));
        i = i + 1;
    }
    out
}

impl<'a> TaskCx<'a> {
    /// The position of field `name`, which must have a type `accept` admits.
    fn field(&self, t: &Task, name: &str, at: &str, accept: Accept) -> (r: Result<
        usize,
        ProgramError,
    >)
        requires
            indexes(*self, *t),
        ensures
            r is Ok <==> field_pos(*t, name@) >= 0 && admits(accept, field_ty(*t, name@)),
            r matches Ok(k) ==> k == field_pos(*t, name@) && k < t.fields@.len(),
    {
        match self.field_index.get(name) {
            None => {
                proof {
                    assert(self.field_index.lookup(name@) is None);
                }
                Err(err(at.to_owned(), ProgramErrorKind::UnknownField(name.to_owned())))
            },
            Some(k) => {
                let k = *k;
                let nf = t.fields.len();
                proof {
                    assert(self.field_index.lookup(name@) == Some(k));
                    lemma_position_range(field_names(*t), name@);
                    assert(field_pos(*t, name@) == k);
                }
                let found = self.fields[k].ty;
                let ok = match accept {
                    Accept::Text => match found {
                        FieldType::Text => true,
                        _ => false,
                    },
                    Accept::Keyed => match found {
                        FieldType::Decimal => false,
                        _ => true,
                    },
                    Accept::Numeric => match found {
                        FieldType::Integer | FieldType::Decimal => true,
                        _ => false,
                    },
                };
                if !ok {
                    return Err(
                        err(
                            at.to_owned(),
                            ProgramErrorKind::FieldType { field: name.to_owned(), found },
                        ),
                    );
                }
                Ok(k)
            },
        }
    }
}

/// The first `k + 1` nodes count at least the first `k`, and at most all.
proof fn lemma_list_nodes_mono(ms: Seq<Condition>, k: int, n: int)
    requires
        0 <= k <= n <= ms.len(),
    ensures
        list_nodes(ms, k) <= list_nodes(ms, n),
    decreases n - k,
{
    if k < n {
        lemma_list_nodes_mono(ms, k, n - 1);
    }
}

impl<'a> TaskCx<'a> {
    /// Check one condition node at nesting depth `depth`, counting it and
    /// its descendants in `nodes`, which may reach 32.
    fn condition(
        &mut self,
        t: &Task,
        c: &Condition,
        at: &str,
        depth: usize,
        nodes: &mut usize,
    ) -> (r: Result<CCond, ProgramError>)
        requires
            indexes(*old(self), *t),
            *old(nodes) <= limits::CONDITION_NODES,
            depth <= limits::CONDITION_DEPTH,
            old(self).terms + 32 * (limits::CONDITION_NODES - *old(nodes)) <= 1_000_000_000,
        ensures
            final(self).options == old(self).options,
            final(self).fields == old(self).fields,
            final(self).field_index == old(self).field_index,
            final(self).entries == old(self).entries,
            r is Ok <==> cond_ok(*t, *c, depth as int) && *old(nodes) + cond_nodes(*c)
                <= limits::CONDITION_NODES,
            r matches Ok(cc) ==> {
                &&& *final(nodes) == *old(nodes) + cond_nodes(*c)
                &&& final(self).terms == old(self).terms + cond_terms(*c)
                &&& cond_terms(*c) <= 32 * cond_nodes(*c)
                &&& cond_compiled(*t, *c, cc)
            },
        decreases c,
    {
        *nodes = *nodes + 1;
        if *nodes > limits::CONDITION_NODES {
            return Err(
                err(
                    at.to_owned(),
                    ProgramErrorKind::Bound {
                        what: "condition nodes",
                        min: 1,
                        max: limits::CONDITION_NODES,
                        found: *nodes,
                    },
                ),
            );
        }
        match c {
            Condition::Always => Ok(CCond::Always),
            Condition::ContainsAny { field, terms } => {
                let k = match self.field(t, field.as_str(), at, Accept::Text) {
                    Ok(k) => k,
                    Err(e) => {
                        return Err(e);
                    },
                };
                match bound(at, "terms", terms.len(), 1, limits::TERMS) {
                    Ok(()) => {},
                    Err(e) => {
                        return Err(e);
                    },
                }
                let mut i: usize = 0;
                while i < terms.len()
                    invariant
                        i <= terms@.len(),
                        c matches Condition::ContainsAny { terms: ts, .. } && ts@ == terms@,
                        forall|j: int|
                            0 <= j < i ==> len_within(
                                #[trigger] terms@[j]@,
                                1,
                                limits::TERM_BYTES as int,
                            ),
                    decreases terms@.len() - i,
                {
                    match bound(
                        at,
                        "term bytes",
                        byte_count(terms[i].as_str()),
                        1,
                        limits::TERM_BYTES,
                    ) {
                        Ok(()) => {},
                        Err(e) => {
                            return Err(e);
                        },
                    }
                    i = i + 1;
                }
                self.terms = self.terms + terms.len();
                Ok(CCond::ContainsAny { field: k, terms: lower_all(terms) })
            },
            Condition::Equals { field, value } => {
                let k = match self.field(t, field.as_str(), at, Accept::Keyed) {
                    Ok(k) => k,
                    Err(e) => {
                        return Err(e);
                    },
                };
                if !canonical_for(self.fields[k].ty, value.as_str()) {
                    return Err(err(at.to_owned(), ProgramErrorKind::EqualsValue(value.clone())));
                }
                Ok(CCond::Equals { field: k, value: value.clone() })
            },
            Condition::Compare { field, op, value } => {
                let k = match self.field(t, field.as_str(), at, Accept::Numeric) {
                    Ok(k) => k,
                    Err(e) => {
                        return Err(e);
                    },
                };
                Ok(CCond::Compare { field: k, op: *op, value: *value })
            },
            Condition::All(members) | Condition::Any(members) => {
                if depth + 1 > limits::CONDITION_DEPTH {
                    return Err(
                        err(
                            at.to_owned(),
                            ProgramErrorKind::Bound {
                                what: "condition depth",
                                min: 0,
                                max: limits::CONDITION_DEPTH,
                                found: depth + 1,
                            },
                        ),
                    );
                }
                match bound(
                    at,
                    "condition members",
                    members.len(),
                    1,
                    limits::CONDITION_MEMBERS,
                ) {
                    Ok(()) => {},
                    Err(e) => {
                        return Err(e);
                    },
                }
                let ghost ms = members@;
                let ghost start = *nodes;
                let ghost terms0 = self.terms;
                let mut v: Vec<CCond> = Vec::new();
                let mut k: usize = 0;
                while k < members.len()
                    invariant
                        ms == members@,
                        (c matches Condition::All(m) && m@ == ms) || (c matches Condition::Any(m)
                            && m@ == ms),
                        indexes(*self, *t),
                        self.options == old(self).options,
                        self.fields == old(self).fields,
                        self.field_index == old(self).field_index,
                        self.entries == old(self).entries,
                        start == *old(nodes) + 1,
                        terms0 == old(self).terms,
                        depth + 1 <= limits::CONDITION_DEPTH,
                        k <= ms.len(),
                        *nodes == start + list_nodes(ms, k as int),
                        *nodes <= limits::CONDITION_NODES,
                        self.terms == terms0 + list_terms(ms, k as int),
                        list_terms(ms, k as int) <= 32 * list_nodes(ms, k as int),
                        terms0 + 32 * (limits::CONDITION_NODES - *old(nodes)) <= 1_000_000_000,
                        v@.len() == k,
                        forall|i: int| 0 <= i < k ==> cond_ok(*t, #[trigger] ms[i], depth + 1),
                        forall|i: int| 0 <= i < k ==> cond_compiled(*t, #[trigger] ms[i], v@[i]),
                    decreases ms.len() - k,
                {
                    let mat = indexed(at, "", k);
                    let ghost before = *nodes;
                    proof {
                        match c {
                            Condition::All(m) => {
                                assert(decreases_to!(*c => *m));
                                assert(decreases_to!(*m => m@));
                                assert(decreases_to!(m@ => m@[k as int]));
                            },
                            Condition::Any(m) => {
                                assert(decreases_to!(*c => *m));
                                assert(decreases_to!(*m => m@));
                                assert(decreases_to!(m@ => m@[k as int]));
                            },
                            _ => {},
                        }
                    }
                    let r = self.condition(t, &members[k], mat.as_str(), depth + 1, nodes);
                    match r {
                        Ok(cc) => {
                            v.push(cc);
                            proof {
                                assert(list_nodes(ms, k + 1) == list_nodes(ms, k as int) + cond_nodes(
                                    ms[k as int],
                                ));
                                assert(list_terms(ms, k + 1) == list_terms(ms, k as int) + cond_terms(
                                    ms[k as int],
                                ));
                                assert forall|i: int| 0 <= i < k + 1 implies cond_compiled(
                                    *t,
                                    #[trigger] ms[i],
                                    v@[i],
                                ) by {
                                    if i == k {
                                        assert(v@[i] == cc);
                                    }
                                }
                            }
                        },
                        Err(e) => {
                            proof {
                                if cond_ok(*t, ms[k as int], depth + 1) {
                                    assert(before + cond_nodes(ms[k as int])
                                        > limits::CONDITION_NODES);
                                    assert(list_nodes(ms, k + 1) == list_nodes(ms, k as int)
                                        + cond_nodes(ms[k as int]));
                                    lemma_list_nodes_mono(ms, k + 1, ms.len() as int);
                                }
                            }
                            return Err(e);
                        },
                    }
                    k = k + 1;
                }
                proof {
                    assert(cond_nodes(*c) == 1 + list_nodes(ms, ms.len() as int));
                    assert(cond_terms(*c) == list_terms(ms, ms.len() as int));
                }
                match c {
                    Condition::All(_) => Ok(CCond::All(v)),
                    _ => Ok(CCond::Any(v)),
                }
            },
            Condition::Not(inner) => {
                if depth + 1 > limits::CONDITION_DEPTH {
                    return Err(
                        err(
                            at.to_owned(),
                            ProgramErrorKind::Bound {
                                what: "condition depth",
                                min: 0,
                                max: limits::CONDITION_DEPTH,
                                found: depth + 1,
                            },
                        ),
                    );
                }
                let nat_ = join(at, ".not");
                let ghost before = *nodes;
                match self.condition(t, inner, nat_.as_str(), depth + 1, nodes) {
                    Ok(cc) => Ok(CCond::Not(Box::new(cc))),
                    Err(e) => {
                        proof {
                            assert(before == *old(nodes) + 1);
                            assert(cond_nodes(*c) == 1 + cond_nodes(**inner));
                        }
                        Err(e)
                    },
                }
            },
        }
    }
}

impl<'a> TaskCx<'a> {
    /// Check one contribution, counting its lookup entries.
    fn contribution(&mut self, t: &Task, c: &Contribution, at: &str) -> (r: Result<
        CContrib,
        ProgramError,
    >)
        requires
            indexes(*old(self), *t),
            old(self).entries <= 1_000_000_000,
        ensures
            final(self).options == old(self).options,
            final(self).fields == old(self).fields,
            final(self).field_index == old(self).field_index,
            final(self).terms == old(self).terms,
            r is Ok <==> contrib_ok(*t, *c),
            r matches Ok(cc) ==> final(self).entries == old(self).entries + contrib_entries(*c)
                && contrib_compiled(*t, *c, cc),
    {
        match c {
            Contribution::Add(m) => match adds(t, m, self.options, at, false) {
                Ok(a) => Ok(CContrib::Add(a)),
                Err(e) => Err(e),
            },
            Contribution::Linear { field, coefficients } => {
                let k = match self.field(t, field.as_str(), at, Accept::Numeric) {
                    Ok(k) => k,
                    Err(e) => {
                        return Err(e);
                    },
                };
                match adds(t, coefficients, self.options, at, false) {
                    Ok(a) => Ok(CContrib::Linear { field: k, coefficients: a }),
                    Err(e) => Err(e),
                }
            },
            Contribution::Lookup { field, entries, on_missing } => {
                let k = match self.field(t, field.as_str(), at, Accept::Keyed) {
                    Ok(k) => k,
                    Err(e) => {
                        return Err(e);
                    },
                };
                match bound(at, "lookup entries", entries.len(), 1, limits::LOOKUP_ENTRIES) {
                    Ok(()) => {},
                    Err(e) => {
                        return Err(e);
                    },
                }
                self.entries = self.entries + entries.len();
                let mut table: TextMap<Vec<(usize, Decimal)>> = TextMap::new();
                let mut e: usize = 0;
                while e < entries.len()
                    invariant
                        c matches Contribution::Lookup { entries: es, .. } && es@ == entries@,
                        indexes(*self, *t),
                        self.options == old(self).options,
                        self.fields == old(self).fields,
                        self.field_index == old(self).field_index,
                        self.terms == old(self).terms,
                        self.entries == old(self).entries + entries@.len(),
                        e <= entries@.len(),
                        table.keys().len() == e,
                        forall|j: int|
                            0 <= j < e ==> len_within(
                                #[trigger] entries@[j].key@,
                                1,
                                limits::LOOKUP_KEY_BYTES as int,
                            ) && adds_ok(*t, entries@[j].add, false),
                        forall|j: int|
                            0 <= j < e ==> (table.lookup(#[trigger] entries@[j].key@) matches Some(
                                a,
                            ) && a@ == adds_of(*t, entries@[j].add)),
                        distinct(entry_names(entries@).take(e as int)),
                        forall|x: Seq<char>|
                            #[trigger] table.lookup(x) is Some ==> exists|j: int|
                                0 <= j < e && #[trigger] entries@[j].key@ == x,
                    decreases entries@.len() - e,
                {
                    let entry = &entries[e];
                    let eat = indexed(at, ".entries", e);
                    match bound(
                        eat.as_str(),
                        "lookup key bytes",
                        byte_count(entry.key.as_str()),
                        1,
                        limits::LOOKUP_KEY_BYTES,
                    ) {
                        Ok(()) => {},
                        Err(er) => {
                            return Err(er);
                        },
                    }
                    let a = match adds(t, &entry.add, self.options, eat.as_str(), false) {
                        Ok(a) => a,
                        Err(er) => {
                            return Err(er);
                        },
                    };
                    let ghost before = table;
                    let ghost av = a@;
                    // A duplicate key is refused, never resolved by position.
                    if !table.insert_new(entry.key.clone(), a) {
                        proof {
                            assert(before.lookup(entry.key@) is Some);
                            let j = choose|j: int| 0 <= j < e && #[trigger] entries@[j].key@ == entry.key@;
                            assert(entry_names(entries@)[j] == entry_names(entries@)[e as int]);
                        }
                        return Err(
                            err(
                                eat,
                                ProgramErrorKind::Duplicate {
                                    what: "lookup key",
                                    name: entry.key.clone(),
                                },
                            ),
                        );
                    }
                    proof {
                        assert forall|x: Seq<char>| #[trigger] table.lookup(x) is Some implies exists|
                            j: int,
                        | 0 <= j < e + 1 && #[trigger] entries@[j].key@ == x by {
                            if x != entry.key@ {
                                assert(before.lookup(x) is Some);
                                let j = choose|j: int| 0 <= j < e && #[trigger] entries@[j].key@ == x;
                                assert(entries@[j].key@ == x);
                            } else {
                                assert(entries@[e as int].key@ == x);
                            }
                        }
                        assert forall|j: int|
                            0 <= j < e + 1 implies (table.lookup(#[trigger] entries@[j].key@) matches Some(
                            x,
                        ) && x@ == adds_of(*t, entries@[j].add)) by {
                            if j < e {
                                assert(entries@[j].key@ != entry.key@);
                            }
                        }
                        let ghost nxt = entry_names(entries@).take(e + 1);
                        assert forall|a1: int, b1: int|
                            0 <= a1 < b1 < e + 1 implies #[trigger] nxt[a1] != #[trigger] nxt[b1] by {
                            if b1 == e {
                                assert(before.lookup(entries@[a1].key@) is Some);
                            } else {
                                assert(entry_names(entries@).take(e as int)[a1] != entry_names(
                                    entries@,
                                ).take(e as int)[b1]);
                            }
                        }
                    }
                    e = e + 1;
                }
                proof {
                    assert(entry_names(entries@).take(entries@.len() as int) =~= entry_names(
                        entries@,
                    ));
                }
                Ok(CContrib::Lookup { field: k, table, on_missing: *on_missing })
            },
        }
    }
}

/// Appending a new text to a list of distinct texts gives it the next
/// position and leaves every other position alone.
proof fn lemma_position_push(s: Seq<Seq<char>>, y: Seq<char>, x: Seq<char>)
    requires
        distinct(s),
        forall|i: int| 0 <= i < s.len() ==> s[i] != y,
    ensures
        distinct(s.push(y)),
        position_of(s.push(y), x) == (if x == y {
            s.len() as int
        } else {
            position_of(s, x)
        }),
{
    let t = s.push(y);
    assert forall|i: int, j: int| 0 <= i < j < t.len() implies t[i] != t[j] by {
        if j == s.len() {
        } else {
            assert(t[i] == s[i] && t[j] == s[j]);
        }
    }
    lemma_position_range(s, x);
    lemma_position_range(t, x);
    if x == y {
        lemma_position(t, s.len() as int);
    } else if position_of(s, x) >= 0 {
        let p = position_of(s, x);
        assert(t[p] == x);
        lemma_position(t, p);
    } else {
        assert forall|i: int| 0 <= i < t.len() implies t[i] != x by {
            if i < s.len() {
                assert(t[i] == s[i]);
            }
        }
    }
}

/// A strictly sorted list holds no text twice.
proof fn lemma_sorted_distinct(s: Seq<Seq<char>>)
    requires
        crate::order::strictly_sorted(s),
    ensures
        distinct(s),
{
    assert forall|i: int, j: int| 0 <= i < j < s.len() implies s[i] != s[j] by {
        crate::order::lemma_text_lt_order(s[i], s[j], s[j]);
    }
}

/// The options of a task are valid.
pub open spec fn options_ok(t: Task) -> bool {
    &&& limits::OPTIONS_MIN <= t.options@.len() <= limits::OPTIONS
    &&& forall|k: int|
        0 <= k < t.options@.len() ==> len_within(
            #[trigger] option_names(t)[k],
            1,
            limits::OPTION_BYTES as int,
        )
    &&& distinct(option_names(t))
}

/// Check the options and index them by name.
fn check_options(t: &Task, at: &str) -> (r: Result<TextMap<usize>, ProgramError>)
    ensures
        r is Ok <==> options_ok(*t),
        r matches Ok(m) ==> indexes_names(m, option_names(*t)),
{
    let oat = join(at, ".options");
    match bound(oat.as_str(), "options", t.options.len(), limits::OPTIONS_MIN, limits::OPTIONS) {
        Ok(()) => {},
        Err(e) => {
            return Err(e);
        },
    }
    let ghost names = option_names(*t);
    let mut options: TextMap<usize> = TextMap::new();
    let n = t.options.len();
    let mut k: usize = 0;
    proof {
        assert(names.take(0) =~= Seq::<Seq<char>>::empty());
    }
    while k < n
        invariant
            names == option_names(*t),
            n == t.options@.len(),
            n <= limits::OPTIONS,
            k <= n,
            forall|j: int| 0 <= j < k ==> len_within(#[trigger] names[j], 1, limits::OPTION_BYTES as int),
            distinct(names.take(k as int)),
            indexes_names(options, names.take(k as int)),
        decreases n - k,
    {
        let kat = indexed(at, ".options", k);
        match bound(
            kat.as_str(),
            "option bytes",
            byte_count(t.options[k].as_str()),
            1,
            limits::OPTION_BYTES,
        ) {
            Ok(()) => {},
            Err(e) => {
                proof {
                    assert(names[k as int] == t.options@[k as int]@);
                    assert(!len_within(option_names(*t)[k as int], 1, limits::OPTION_BYTES as int));
                }
                return Err(e);
            },
        }
        let ghost before = options;
        if !options.insert_new(t.options[k].clone(), k) {
            proof {
                let p = position_of(names.take(k as int), names[k as int]);
                lemma_position_range(names.take(k as int), names[k as int]);
                assert(names[p] == names[k as int]);
            }
            return Err(
                err(
                    oat,
                    ProgramErrorKind::Duplicate { what: "option", name: t.options[k].clone() },
                ),
            );
        }
        proof {
            let y = names[k as int];
            lemma_position_range(names.take(k as int), y);
            assert(names.take(k + 1) =~= names.take(k as int).push(y));
            assert forall|x: Seq<char>| #[trigger]
                options.lookup(x) == (if position_of(names.take(k + 1), x) >= 0 {
                    Some(position_of(names.take(k + 1), x) as usize)
                } else {
                    None
                }) by {
                lemma_position_push(names.take(k as int), y, x);
            }
            lemma_position_push(names.take(k as int), y, y);
        }
        k = k + 1;
    }
    proof {
        assert(names.take(n as int) =~= names);
    }
    Ok(options)
}

/// The fields of a task are valid.
pub open spec fn fields_ok(t: Task) -> bool {
    &&& t.fields@.len() <= limits::FIELDS
    &&& forall|k: int|
        0 <= k < t.fields@.len() ==> len_within(
            #[trigger] field_names(t)[k],
            1,
            limits::NAME_BYTES as int,
        )
    &&& distinct(field_names(t))
    &&& forall|k: int| 0 <= k < t.fields@.len() ==> (#[trigger] ref_parts(t.fields@[k].reference@)) is Some
}

/// Check the fields, resolve their references and index them by name.
fn check_fields(t: &Task, at: &str) -> (r: Result<(Vec<CField>, TextMap<usize>), ProgramError>)
    ensures
        r is Ok <==> fields_ok(*t),
        r matches Ok((fs, m)) ==> {
            &&& indexes_names(m, field_names(*t))
            &&& fs@.len() == t.fields@.len()
            &&& forall|k: int| 0 <= k < t.fields@.len() ==> field_compiled(t.fields@[k], #[trigger] fs@[k])
        },
{
    let fat0 = join(at, ".fields");
    match bound(fat0.as_str(), "fields", t.fields.len(), 0, limits::FIELDS) {
        Ok(()) => {},
        Err(e) => {
            return Err(e);
        },
    }
    let ghost names = field_names(*t);
    let mut fields: Vec<CField> = Vec::new();
    let mut index: TextMap<usize> = TextMap::new();
    let n = t.fields.len();
    let mut k: usize = 0;
    proof {
        assert(names.take(0) =~= Seq::<Seq<char>>::empty());
    }
    while k < n
        invariant
            names == field_names(*t),
            n == t.fields@.len(),
            n <= limits::FIELDS,
            k <= n,
            forall|j: int| 0 <= j < k ==> len_within(#[trigger] names[j], 1, limits::NAME_BYTES as int),
            forall|j: int| 0 <= j < k ==> (#[trigger] ref_parts(t.fields@[j].reference@)) is Some,
            distinct(names.take(k as int)),
            indexes_names(index, names.take(k as int)),
            fields@.len() == k,
            forall|j: int| 0 <= j < k ==> field_compiled(t.fields@[j], #[trigger] fields@[j]),
        decreases n - k,
    {
        let f = &t.fields[k];
        let kat = indexed(at, ".fields", k);
        match bound(kat.as_str(), "field name bytes", byte_count(f.name.as_str()), 1, limits::NAME_BYTES) {
            Ok(()) => {},
            Err(e) => {
                proof {
                    assert(names[k as int] == f.name@);
                    assert(!len_within(field_names(*t)[k as int], 1, limits::NAME_BYTES as int));
                }
                return Err(e);
            },
        }
        if !index.insert_new(f.name.clone(), k) {
            proof {
                let p = position_of(names.take(k as int), names[k as int]);
                lemma_position_range(names.take(k as int), names[k as int]);
                assert(names[p] == names[k as int]);
            }
            return Err(err(kat, ProgramErrorKind::Duplicate { what: "field", name: f.name.clone() }));
        }
        proof {
            let y = names[k as int];
            lemma_position_range(names.take(k as int), y);
            assert(names.take(k + 1) =~= names.take(k as int).push(y));
            assert forall|x: Seq<char>| #[trigger]
                index.lookup(x) == (if position_of(names.take(k + 1), x) >= 0 {
                    Some(position_of(names.take(k + 1), x) as usize)
                } else {
                    None
                }) by {
                lemma_position_push(names.take(k as int), y, x);
            }
            lemma_position_push(names.take(k as int), y, y);
        }
        let (key, member) = match parse_ref(f.reference.as_str()) {
            Some(p) => p,
            None => {
                return Err(err(kat, ProgramErrorKind::Reference(f.reference.clone())));
            },
        };
        fields.push(CField { name: f.name.clone(), key, member, ty: f.ty });
        proof {
            assert(field_compiled(t.fields@[k as int], fields@[k as int]));
        }
        k = k + 1;
    }
    proof {
        assert(names.take(n as int) =~= names);
    }
    Ok((fields, index))
}

/// The base logits: each option's constant, or zero.
fn check_base(t: &Task, options: &TextMap<usize>, at: &str) -> (r: Result<
    Vec<Decimal>,
    ProgramError,
>)
    requires
        indexes_names(*options, option_names(*t)),
        distinct(option_names(*t)),
    ensures
        r is Ok <==> adds_ok(*t, t.base, true),
        r matches Ok(base) ==> base@.len() == t.options@.len() && forall|k: int|
            0 <= k < t.options@.len() ==> (#[trigger] base@[k])@ == base_of(*t, k),
{
    let bat = join(at, ".base");
    let a = match adds(t, &t.base, options, bat.as_str(), true) {
        Ok(a) => a,
        Err(e) => {
            return Err(e);
        },
    };
    let ghost names = option_names(*t);
    let ghost keys = t.base.keys();
    let nb = t.base.len();
    proof {
        lemma_sorted_distinct(keys);
    }
    let n = t.options.len();
    let mut base: Vec<Decimal> = Vec::new();
    let mut k: usize = 0;
    while k < n
        invariant
            n == t.options@.len(),
            k <= n,
            base@.len() == k,
            forall|m: int| 0 <= m < k ==> (#[trigger] base@[m])@ == 0,
        decreases n - k,
    {
        base.push(Decimal::zero());
        k = k + 1;
    }
    let mut j: usize = 0;
    while j < a.len()
        invariant
            names == option_names(*t),
            keys == t.base.keys(),
            distinct(keys),
            distinct(names),
            nb == keys.len(),
            nb == t.base.values().len(),
            a@ == adds_of(*t, t.base),
            adds_ok(*t, t.base, true),
            n == t.options@.len(),
            base@.len() == n,
            j <= a@.len(),
            forall|m: int|
                0 <= m < n ==> (#[trigger] base@[m])@ == (if keys.take(j as int).contains(names[m]) {
                    base_of(*t, m)
                } else {
                    0
                }),
        decreases a@.len() - j,
    {
        let (k, d) = a[j];
        proof {
            let key = keys[j as int];
            lemma_position_range(names, key);
            assert(names[k as int] == key);
            assert(t.base.position(key) is Some);
            let p = t.base.position(key)->0;
            if p != j {
                if p < j {
                    assert(keys[p] != keys[j as int]);
                } else {
                    assert(keys[j as int] != keys[p]);
                }
            }
            assert(t.base.lookup(key) == Some(t.base.values()[j as int]));
            assert(keys.take(j + 1) =~= keys.take(j as int).push(key));
            assert forall|m: int| 0 <= m < n && m != k implies names[m] != key by {
                assert(names[m] != names[k as int]);
            }
        }
        let ghost before = base@;
        base.set(k, d);
        proof {
            let key = keys[j as int];
            assert forall|m: int| 0 <= m < n implies (#[trigger] base@[m])@ == (if keys.take(
                j + 1,
            ).contains(names[m]) {
                base_of(*t, m)
            } else {
                0
            }) by {
                if m == k {
                    assert(keys.take(j + 1)[j as int] == names[m]);
                } else {
                    assert(base@[m] == before[m]);
                    assert(names[m] != key);
                    let k1 = keys.take(j + 1);
                    let k0 = keys.take(j as int);
                    if k1.contains(names[m]) {
                        let i = choose|i: int| 0 <= i < j + 1 && #[trigger] k1[i] == names[m];
                        assert(k0[i] == names[m]);
                    }
                    if k0.contains(names[m]) {
                        let i = choose|i: int| 0 <= i < j && #[trigger] k0[i] == names[m];
                        assert(k1[i] == names[m]);
                    }
                }
            }
        }
        j = j + 1;
    }
    proof {
        assert(keys.take(nb as int) =~= keys);
        assert forall|m: int| 0 <= m < n implies (#[trigger] base@[m])@ == base_of(*t, m) by {
            if !keys.contains(names[m]) {
                assert(t.base.position(names[m]) is None);
            }
        }
    }
    Ok(base)
}

/// The rules of a task are valid.
pub open spec fn rules_ok(t: Task) -> bool {
    &&& t.rules@.len() <= limits::RULES
    &&& forall|r: int| 0 <= r < t.rules@.len() ==> rule_ok(t, #[trigger] t.rules@[r])
    &&& distinct(rule_names(t))
    &&& rules_terms(t.rules@, t.rules@.len() as int) <= limits::TERMS_PER_TASK
    &&& rules_entries(t.rules@, t.rules@.len() as int) <= limits::LOOKUP_ENTRIES_PER_TASK
}

/// Check the rules against the task's options and fields.
fn check_rules(
    t: &Task,
    options: &TextMap<usize>,
    fields: &Vec<CField>,
    field_index: &TextMap<usize>,
    at: &str,
) -> (r: Result<Vec<CRule>, ProgramError>)
    requires
        distinct(option_names(*t)),
        distinct(field_names(*t)),
        indexes_names(*options, option_names(*t)),
        indexes_names(*field_index, field_names(*t)),
        fields@.len() == t.fields@.len(),
        forall|k: int| 0 <= k < t.fields@.len() ==> (#[trigger] fields@[k]).ty == t.fields@[k].ty,
    ensures
        r is Ok <==> rules_ok(*t),
        r matches Ok(rs) ==> rs@.len() == t.rules@.len() && forall|k: int|
            0 <= k < t.rules@.len() ==> rule_compiled(*t, t.rules@[k], #[trigger] rs@[k]),
{
    let rat0 = join(at, ".rules");
    match bound(rat0.as_str(), "rules", t.rules.len(), 0, limits::RULES) {
        Ok(()) => {},
        Err(e) => {
            return Err(e);
        },
    }
    let mut cx = TaskCx { options, fields, field_index, terms: 0, entries: 0 };
    let ghost names = rule_names(*t);
    let mut seen: TextMap<usize> = TextMap::new();
    let mut rules: Vec<CRule> = Vec::new();
    let n = t.rules.len();
    let mut k: usize = 0;
    proof {
        assert(names.take(0) =~= Seq::<Seq<char>>::empty());
    }
    while k < n
        invariant
            names == rule_names(*t),
            n == t.rules@.len(),
            n <= limits::RULES,
            k <= n,
            indexes(cx, *t),
            cx.terms == rules_terms(t.rules@, k as int),
            cx.entries == rules_entries(t.rules@, k as int),
            cx.terms <= 1024 * k,
            cx.entries <= 2048 * k,
            forall|j: int| 0 <= j < k ==> rule_ok(*t, #[trigger] t.rules@[j]),
            distinct(names.take(k as int)),
            indexes_names(seen, names.take(k as int)),
            rules@.len() == k,
            forall|j: int| 0 <= j < k ==> rule_compiled(*t, t.rules@[j], #[trigger] rules@[j]),
        decreases n - k,
    {
        let rule = &t.rules[k];
        let rat = indexed(at, ".rules", k);
        match bound(rat.as_str(), "rule name bytes", byte_count(rule.name.as_str()), 1, limits::NAME_BYTES) {
            Ok(()) => {},
            Err(e) => {
                return Err(e);
            },
        }
        if !seen.insert_new(rule.name.clone(), k) {
            proof {
                let p = position_of(names.take(k as int), names[k as int]);
                lemma_position_range(names.take(k as int), names[k as int]);
                assert(names[p] == names[k as int]);
                assert(rule_names(*t)[p] == rule_names(*t)[k as int]);
            }
            return Err(err(rat, ProgramErrorKind::Duplicate { what: "rule", name: rule.name.clone() }));
        }
        proof {
            let y = names[k as int];
            lemma_position_range(names.take(k as int), y);
            assert(names.take(k + 1) =~= names.take(k as int).push(y));
            assert forall|x: Seq<char>| #[trigger]
                seen.lookup(x) == (if position_of(names.take(k + 1), x) >= 0 {
                    Some(position_of(names.take(k + 1), x) as usize)
                } else {
                    None
                }) by {
                lemma_position_push(names.take(k as int), y, x);
            }
            lemma_position_push(names.take(k as int), y, y);
        }
        let wat = join(rat.as_str(), ".when");
        let mut nodes: usize = 0;
        let when = match cx.condition(t, &rule.when, wat.as_str(), 0, &mut nodes) {
            Ok(c) => c,
            Err(e) => {
                return Err(e);
            },
        };
        match bound(wat.as_str(), "condition nodes", nodes, 1, limits::CONDITION_NODES) {
            Ok(()) => {},
            Err(e) => {
                return Err(e);
            },
        }
        let tat = join(rat.as_str(), ".then");
        match bound(tat.as_str(), "contributions", rule.contributions.len(), 0, limits::CONTRIBUTIONS) {
            Ok(()) => {},
            Err(e) => {
                return Err(e);
            },
        }
        let ghost entries0 = cx.entries;
        let ghost cs = rule.contributions@;
        let mut then: Vec<CContrib> = Vec::new();
        let mut c: usize = 0;
        while c < rule.contributions.len()
            invariant
                cs == rule.contributions@,
                cs == t.rules@[k as int].contributions@,
                cs.len() <= limits::CONTRIBUTIONS,
                indexes(cx, *t),
                cx.terms == rules_terms(t.rules@, k + 1),
                cx.terms <= 1024 * (k + 1),
                k < n,
                n == t.rules@.len(),
                n <= limits::RULES,
                entries0 == rules_entries(t.rules@, k as int),
                entries0 <= 2048 * k,
                cx.entries == entries0 + list_entries(cs, c as int),
                list_entries(cs, c as int) <= 256 * c,
                c <= cs.len(),
                forall|j: int| 0 <= j < c ==> contrib_ok(*t, #[trigger] cs[j]),
                then@.len() == c,
                forall|j: int| 0 <= j < c ==> contrib_compiled(*t, #[trigger] cs[j], then@[j]),
            decreases cs.len() - c,
        {
            let cat = indexed(rat.as_str(), ".then", c);
            match cx.contribution(t, &rule.contributions[c], cat.as_str()) {
                Ok(cc) => {
                    then.push(cc);
                    proof {
                        assert(list_entries(cs, c + 1) == list_entries(cs, c as int)
                            + contrib_entries(cs[c as int]));
                        assert forall|j: int| 0 <= j < c + 1 implies contrib_compiled(
                            *t,
                            #[trigger] cs[j],
                            then@[j],
                        ) by {
                            if j == c {
                                assert(then@[j] == cc);
                            }
                        }
                    }
                },
                Err(e) => {
                    proof {
                        assert(!contrib_ok(*t, cs[c as int]));
                        assert(!rule_ok(*t, t.rules@[k as int]));
                    }
                    return Err(e);
                },
            }
            c = c + 1;
        }
        proof {
            assert(rules_entries(t.rules@, k + 1) == entries0 + list_entries(cs, cs.len() as int));
        }
        rules.push(CRule { name: rule.name.clone(), when, contributions: then, stop: rule.stop });
        proof {
            assert(rule_compiled(*t, t.rules@[k as int], rules@[k as int]));
        }
        k = k + 1;
    }
    proof {
        assert(names.take(n as int) =~= names);
    }
    match bound(at, "contains_any terms per task", cx.terms, 0, limits::TERMS_PER_TASK) {
        Ok(()) => {},
        Err(e) => {
            return Err(e);
        },
    }
    match bound(at, "lookup entries per task", cx.entries, 0, limits::LOOKUP_ENTRIES_PER_TASK) {
        Ok(()) => {},
        Err(e) => {
            return Err(e);
        },
    }
    Ok(rules)
}

/// A copy of a list of strings.
pub(crate) fn clone_strings(v: &Vec<String>) -> (r: Vec<String>)
    ensures
        texts(r@) == texts(v@),
{
    let mut out: Vec<String> = Vec::new();
    let mut i: usize = 0;
    while i < v.len()
        invariant
            i <= v@.len(),
            out@.len() == i,
            texts(out@) == texts(v@).take(i as int),
        decreases v@.len() - i,
    {
        let s = v[i].clone();
        let ghost before = out@;
        out.push(s);
        proof {
            assert(out@ == before.push(out@[i as int]));
            assert(out@[i as int]@ == v@[i as int]@);
            assert(texts(out@) =~= texts(v@).take(i + 1));
        }
        i = i + 1;
    }
    proof {
        assert(texts(v@).take(v@.len() as int) =~= texts(v@));
    }
    out
}

/// Validate one task into its checked form.
fn check_task(t: &Task, at: &str) -> (r: Result<CTask, ProgramError>)
    ensures
        r is Ok <==> task_ok(*t),
        r matches Ok(ct) ==> task_compiled(*t, ct),
{
    if let Operation::Rank = t.operation {
        return Err(err(join(at, ".operation"), ProgramErrorKind::UnsupportedOperation));
    }
    match bound(at, "task bytes", byte_count(t.task.as_str()), 1, limits::TASK_BYTES) {
        Ok(()) => {},
        Err(e) => {
            return Err(e);
        },
    }
    match bound(at, "question bytes", byte_count(t.question.as_str()), 1, limits::QUESTION_BYTES) {
        Ok(()) => {},
        Err(e) => {
            return Err(e);
        },
    }
    let options = match check_options(t, at) {
        Ok(o) => o,
        Err(e) => {
            return Err(e);
        },
    };
    if let Operation::Proposition = t.operation {
        let ok = t.options.len() == 2 && str_eq(t.options[0].as_str(), "false") && str_eq(
            t.options[1].as_str(),
            "true",
        );
        proof {
            if option_names(*t) == seq!["false"@, "true"@] {
                assert(option_names(*t)[0] == "false"@);
                assert(option_names(*t)[1] == "true"@);
            }
            if ok {
                assert(option_names(*t) =~= seq!["false"@, "true"@]);
            }
        }
        if !ok {
            return Err(err(join(at, ".options"), ProgramErrorKind::PropositionOptions));
        }
    }
    let iat = join(at, ".interpretation");
    match bound(
        iat.as_str(),
        "interpretation bytes",
        byte_count(t.interpretation.as_str()),
        1,
        limits::INTERPRETATION_BYTES,
    ) {
        Ok(()) => {},
        Err(e) => {
            return Err(e);
        },
    }
    if is_blank(t.interpretation.as_str()) {
        return Err(err(iat, ProgramErrorKind::Interpretation));
    }
    let (fields, field_index) = match check_fields(t, at) {
        Ok(f) => f,
        Err(e) => {
            return Err(e);
        },
    };
    let base = match check_base(t, &options, at) {
        Ok(b) => b,
        Err(e) => {
            return Err(e);
        },
    };
    proof {
        assert forall|k: int| 0 <= k < t.fields@.len() implies (#[trigger] fields@[k]).ty
            == t.fields@[k].ty by {
            assert(field_compiled(t.fields@[k], fields@[k]));
        }
    }
    let rules = match check_rules(t, &options, &fields, &field_index, at) {
        Ok(r) => r,
        Err(e) => {
            return Err(e);
        },
    };
    Ok(
        CTask {
            operation: t.operation,
            name: t.task.clone(),
            question: t.question.clone(),
            options: clone_strings(&t.options),
            fields,
            base,
            rules,
            on_no_match: t.on_no_match,
        },
    )
}

/// Validate a program into its checked form: one checked task per task.
pub fn check(p: &RulesProgram) -> (r: Result<Vec<CTask>, ProgramError>)
    ensures
        r is Ok <==> program_ok(*p),
        r matches Ok(ts) ==> ts@.len() == p.tasks@.len() && forall|i: int|
            0 <= i < p.tasks@.len() ==> task_compiled(p.tasks@[i], #[trigger] ts@[i]),
{
    if !str_eq(p.schema.as_str(), SCHEMA) {
        return Err(
            err(
                "schema".to_owned(),
                ProgramErrorKind::Document(
                    DocumentError::Schema {
                        expected: SCHEMA,
                        found: cut_chars(p.schema.as_str(), 80),
                    },
                ),
            ),
        );
    }
    if !backend_id_valid(p.backend_id.as_str()) {
        return Err(err("backend_id".to_owned(), ProgramErrorKind::BackendId));
    }
    let max = p.limits.max_projection_bytes;
    if max == 0 || max > limits::MAX_PROJECTION_BYTES {
        let found: usize = if max > usize::MAX as u64 {
            usize::MAX
        } else {
            max as usize
        };
        return Err(
            err(
                "limits.max_projection_bytes".to_owned(),
                ProgramErrorKind::Bound {
                    what: "max_projection_bytes",
                    min: 1,
                    max: 65_536,
                    found,
                },
            ),
        );
    }
    match bound("tasks", "tasks", p.tasks.len(), 1, limits::TASKS) {
        Ok(()) => {},
        Err(e) => {
            return Err(e);
        },
    }
    let ghost names = task_names(*p);
    let mut seen: TextMap<usize> = TextMap::new();
    let mut out: Vec<CTask> = Vec::new();
    let n = p.tasks.len();
    let mut i: usize = 0;
    proof {
        assert(names.take(0) =~= Seq::<Seq<char>>::empty());
    }
    while i < n
        invariant
            names == task_names(*p),
            n == p.tasks@.len(),
            n <= limits::TASKS,
            i <= n,
            distinct(names.take(i as int)),
            indexes_names(seen, names.take(i as int)),
            forall|j: int| 0 <= j < i ==> task_ok(#[trigger] p.tasks@[j]),
            out@.len() == i,
            forall|j: int| 0 <= j < i ==> task_compiled(p.tasks@[j], #[trigger] out@[j]),
        decreases n - i,
    {
        let t = &p.tasks[i];
        let at = indexed("", "tasks", i);
        if !seen.insert_new(t.task.clone(), i) {
            proof {
                let q = position_of(names.take(i as int), names[i as int]);
                lemma_position_range(names.take(i as int), names[i as int]);
                assert(names[q] == names[i as int]);
            }
            return Err(err(at, ProgramErrorKind::Duplicate { what: "task", name: t.task.clone() }));
        }
        proof {
            let y = names[i as int];
            lemma_position_range(names.take(i as int), y);
            assert(names.take(i + 1) =~= names.take(i as int).push(y));
            assert forall|x: Seq<char>| #[trigger]
                seen.lookup(x) == (if position_of(names.take(i + 1), x) >= 0 {
                    Some(position_of(names.take(i + 1), x) as usize)
                } else {
                    None
                }) by {
                lemma_position_push(names.take(i as int), y, x);
            }
            lemma_position_push(names.take(i as int), y, y);
        }
        match check_task(t, at.as_str()) {
            Ok(ct) => {
                out.push(ct);
                proof {
                    assert forall|j: int| 0 <= j < i + 1 implies task_compiled(
                        p.tasks@[j],
                        #[trigger] out@[j],
                    ) by {
                        if j == i {
                            assert(out@[j] == ct);
                        }
                    }
                }
            },
            Err(e) => {
                return Err(e);
            },
        }
        i = i + 1;
    }
    proof {
        assert(names.take(n as int) =~= names);
        vstd::utf8::encode_utf8_decode_utf8(p.backend_id@);
    }
    Ok(out)
}


/// The field type of a read value.
pub open spec fn value_type(v: crate::rules::eval::FieldValue) -> FieldType {
    match v {
        crate::rules::eval::FieldValue::Text(..) => FieldType::Text,
        crate::rules::eval::FieldValue::Bool(_) => FieldType::Bool,
        crate::rules::eval::FieldValue::Integer(_) => FieldType::Integer,
        crate::rules::eval::FieldValue::Decimal(_) => FieldType::Decimal,
    }
}

proof fn lemma_int_text_ascii(i: int)
    ensures
        vstd::utf8::valid_utf8(int_text(i)),
{
    let d = spec_digits(if i < 0 {
        (-i) as nat
    } else {
        i as nat
    });
    lemma_spec_digits(if i < 0 {
        (-i) as nat
    } else {
        i as nat
    });
    assert(crate::digits::all_ascii(int_text(i))) by {
        assert forall|k: int| 0 <= k < int_text(i).len() implies #[trigger] int_text(i)[k] < 128 by {
            if i < 0 {
                if k > 0 {
                    assert(int_text(i)[k] == d[k - 1]);
                }
            } else {
                assert(int_text(i)[k] == d[k]);
            }
        }
    }
    crate::digits::lemma_ascii_valid_utf8(int_text(i));
}

/// An `equals` value is accepted for a boolean, integer or decimal field
/// exactly when it is the canonical text a value of the field's type is
/// read as (`true` and `false` for a boolean, the shortest decimal form of
/// an `i64` for an integer, none for a decimal); for a text field every
/// text is accepted.
pub proof fn law_equals_values_are_canonical_texts(ty: FieldType, v: Seq<char>)
    ensures
        ty != FieldType::Text ==> (canonical_text_for(ty, v) <==> exists|x: crate::rules::eval::FieldValue|
            value_type(x) == ty && #[trigger] crate::rules::eval::canonical_of(x) == Some(v)),
        ty == FieldType::Text ==> canonical_text_for(ty, v),
{
    match ty {
        FieldType::Bool => {
            if v == "true"@ {
                assert(crate::rules::eval::canonical_of(crate::rules::eval::FieldValue::Bool(true)) == Some(v));
            }
            if v == "false"@ {
                assert(crate::rules::eval::canonical_of(crate::rules::eval::FieldValue::Bool(false)) == Some(v));
            }
        },
        FieldType::Integer => {
            if canonical_text_for(ty, v) {
                let i = choose|i: int| in_i64(i) && #[trigger] int_text(i) == vstd::utf8::encode_utf8(v);
                vstd::utf8::encode_utf8_decode_utf8(v);
                assert(crate::rules::eval::canonical_of(crate::rules::eval::FieldValue::Integer(i as i64)) == Some(v));
            }
            if exists|x: crate::rules::eval::FieldValue| value_type(x) == ty && #[trigger] crate::rules::eval::canonical_of(x) == Some(v) {
                let x = choose|x: crate::rules::eval::FieldValue| value_type(x) == ty && #[trigger] crate::rules::eval::canonical_of(x) == Some(v);
                let i = x->Integer_0;
                lemma_int_text_ascii(i as int);
                vstd::utf8::decode_utf8_encode_utf8(int_text(i as int));
                assert(in_i64(i as int));
                assert(int_text(i as int) == vstd::utf8::encode_utf8(v));
            }
        },
        _ => {},
    }
}

} // verus!
