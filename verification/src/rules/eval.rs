//! Evaluating a checked task's rules over the field values one projection
//! supplied: which conditions hold, and what the contributions add to the
//! logits.
use vstd::prelude::*;
use vstd::utf8::{decode_utf8, encode_utf8};

use crate::bounded::ParseLimits;
use crate::decimal::{fitted, in_i128, round_div, Decimal, Rounding};
use crate::digits::{ascii_string, is_digit, lemma_spec_digits, push_digits};
use crate::rules::program::{int_text, CCond, CContrib, CTask, CompareOp, OnMissing};
use crate::text::{debug_quoted, join};
use crate::text_map::TextMap;

verus! {

/// A field value read from the projection.
#[derive(Debug, Clone)]
pub enum FieldValue {
    /// The text and its ASCII lower-cased form.
    Text(String, String),
    Bool(bool),
    Integer(i64),
    Decimal(Decimal),
}

/// The canonical text of a value, for `equals` and `lookup`; decimals
/// have none.
pub open spec fn canonical_of(v: FieldValue) -> Option<Seq<char>> {
    match v {
        FieldValue::Text(s, _) => Some(s@),
        FieldValue::Bool(b) => Some(
            if b {
                "true"@
            } else {
                "false"@
            },
        ),
        FieldValue::Integer(i) => Some(decode_utf8(int_text(i as int))),
        FieldValue::Decimal(_) => None,
    }
}

/// The numeric value of a value, in decimal units; texts and booleans have
/// none.
pub open spec fn number_of(v: FieldValue) -> Option<int> {
    match v {
        FieldValue::Integer(i) => Some(i * 1_000_000_000),
        FieldValue::Decimal(d) => Some(d@),
        _ => None,
    }
}

impl FieldValue {
    /// Canonical text for `equals` and `lookup`; decimals have none.
    pub fn canonical(&self) -> (r: Option<String>)
        ensures
            match canonical_of(*self) {
                Some(t) => r matches Some(s) && s@ == t,
                None => r is None,
            },
    {
        match self {
            FieldValue::Text(s, _) => Some(s.clone()),
            FieldValue::Bool(b) => {
                if *b {
                    Some("true".to_owned())
                } else {
                    Some("false".to_owned())
                }
            },
            FieldValue::Integer(i) => Some(integer_text(*i)),
            FieldValue::Decimal(_) => None,
        }
    }

    /// The numeric value of an integer or a decimal.
    pub fn number(&self) -> (r: Option<Decimal>)
        ensures
            match number_of(*self) {
                Some(n) => r matches Some(d) && d@ == n,
                None => r is None,
            },
    {
        match self {
            FieldValue::Integer(i) => Some(Decimal::from_i64(*i)),
            FieldValue::Decimal(d) => Some(*d),
            _ => None,
        }
    }
}

/// The decimal text of `i`, as `i64::to_string` writes it.
pub(crate) fn integer_text(i: i64) -> (r: String)
    ensures
        encode_utf8(r@) == int_text(i as int),
        r@ == decode_utf8(int_text(i as int)),
{
    let mut bytes: Vec<u8> = Vec::new();
    let mag: u128 = if i < 0 {
        bytes.push(45u8);
        (-(i as i128)) as u128
    } else {
        i as u128
    };
    let ghost start = bytes@;
    push_digits(mag, &mut bytes);
    proof {
        lemma_spec_digits(mag as nat);
        if i < 0 {
            assert(bytes@ =~= int_text(i as int));
        } else {
            assert(bytes@ =~= int_text(i as int));
        }
        assert forall|k: int| 0 <= k < bytes@.len() implies #[trigger] bytes@[k] < 128 by {
            if i < 0 && k == 0 {
            } else {
                let d = crate::digits::spec_digits(mag as nat);
                let off: int = if i < 0 {
                    1
                } else {
                    0
                };
                assert(bytes@[k] == d[k - off]);
                assert(is_digit(d[k - off]));
            }
        }
    }
    ascii_string(bytes)
}

/// The projection parse limits derived from the program's byte bound.
pub fn projection_limits(max_bytes: u64) -> (r: ParseLimits)
    ensures
        r.max_bytes == (if max_bytes > usize::MAX {
            usize::MAX
        } else {
            max_bytes as usize
        }),
        r.max_depth == 16,
        r.max_string_bytes == r.max_bytes,
        r.max_collection_len == 4_096,
        r.max_total_values == 50_000,
        r.max_number_bytes == r.max_bytes,
        !r.allow_fractional_numbers,
{
    let max_bytes: usize = if max_bytes > usize::MAX as u64 {
        usize::MAX
    } else {
        max_bytes as usize
    };
    ParseLimits {
        max_bytes,
        max_depth: 16,
        max_string_bytes: max_bytes,
        max_collection_len: 4_096,
        max_total_values: 50_000,
        // No separate number cap: the byte limit bounds it.
        max_number_bytes: max_bytes,
        allow_fractional_numbers: false,
    }
}

/// `needle` occurs in `hay`, byte for byte.
pub open spec fn bytes_contain(hay: Seq<u8>, needle: Seq<u8>) -> bool {
    exists|k: int| 0 <= k <= hay.len() - needle.len() && #[trigger] hay.subrange(k, k + needle.len()) == needle
}

/// Every field a condition reads is below `n`.
pub open spec fn cond_fields_below(c: CCond, n: int) -> bool
    decreases c,
{
    match c {
        CCond::Always => true,
        CCond::ContainsAny { field, .. } => field < n,
        CCond::Equals { field, .. } => field < n,
        CCond::Compare { field, .. } => field < n,
        CCond::All(v) => forall|i: int| 0 <= i < v@.len() ==> cond_fields_below(#[trigger] v@[i], n),
        CCond::Any(v) => forall|i: int| 0 <= i < v@.len() ==> cond_fields_below(#[trigger] v@[i], n),
        CCond::Not(b) => cond_fields_below(*b, n),
    }
}

/// `n op value`.
pub open spec fn compares(op: CompareOp, n: int, value: int) -> bool {
    match op {
        CompareOp::Lt => n < value,
        CompareOp::Le => n <= value,
        CompareOp::Ge => n >= value,
        CompareOp::Gt => n > value,
    }
}

/// Whether a condition holds of the field values. `all([])` holds;
/// `any([])` does not.
pub open spec fn cond_holds(c: CCond, values: Seq<FieldValue>) -> bool
    decreases c,
{
    match c {
        CCond::Always => true,
        CCond::ContainsAny { field, terms } => match values[field as int] {
            FieldValue::Text(_, lower) => exists|i: int|
                0 <= i < terms@.len() && bytes_contain(
                    encode_utf8(lower@),
                    encode_utf8(#[trigger] terms@[i]@),
                ),
            _ => false,
        },
        CCond::Equals { field, value } => canonical_of(values[field as int]) == Some(value@),
        CCond::Compare { field, op, value } => match number_of(values[field as int]) {
            Some(n) => compares(op, n, value@),
            None => false,
        },
        CCond::All(v) => forall|i: int| 0 <= i < v@.len() ==> cond_holds(#[trigger] v@[i], values),
        CCond::Any(v) => exists|i: int| 0 <= i < v@.len() && cond_holds(#[trigger] v@[i], values),
        CCond::Not(b) => !cond_holds(*b, values),
    }
}

/// Whether `needle` occurs in `hay`.
fn contains_bytes(hay: &[u8], needle: &[u8]) -> (r: bool)
    ensures
        r == bytes_contain(hay@, needle@),
{
    let n = hay.len();
    let m = needle.len();
    if m > n {
        return false;
    }
    let mut k: usize = 0;
    while k <= n - m
        invariant
            n == hay@.len(),
            m == needle@.len(),
            m <= n,
            k <= n - m + 1,
            forall|j: int| 0 <= j < k ==> #[trigger] hay@.subrange(j, j + m) != needle@,
        decreases n - m + 1 - k,
    {
        let mut i: usize = 0;
        while i < m && hay[k + i] == needle[i]
            invariant
                n == hay@.len(),
                m == needle@.len(),
                k + m <= n,
                i <= m,
                forall|j: int| 0 <= j < i ==> hay@[k + j] == needle@[j],
            decreases m - i,
        {
            i = i + 1;
        }
        if i == m {
            proof {
                assert(hay@.subrange(k as int, k + m) =~= needle@);
            }
            return true;
        }
        proof {
            assert(hay@.subrange(k as int, k + m)[i as int] != needle@[i as int]);
        }
        k = k + 1;
    }
    false
}

/// Whether condition `c` holds of `values`.
pub fn holds(c: &CCond, values: &Vec<FieldValue>) -> (r: bool)
    requires
        cond_fields_below(*c, values@.len() as int),
    ensures
        r == cond_holds(*c, values@),
    decreases c,
{
    match c {
        CCond::Always => true,
        CCond::ContainsAny { field, terms } => match &values[*field] {
            FieldValue::Text(_, lower) => {
                let mut i: usize = 0;
                while i < terms.len()
                    invariant
                        c matches CCond::ContainsAny { field: f, terms: ts } && ts@ == terms@ && f
                            == *field,
                        values@[*field as int] matches FieldValue::Text(_, lw) && lw@ == lower@,
                        i <= terms@.len(),
                        forall|j: int|
                            0 <= j < i ==> !bytes_contain(
                                encode_utf8(lower@),
                                encode_utf8(#[trigger] terms@[j]@),
                            ),
                    decreases terms@.len() - i,
                {
                    if contains_bytes(lower.as_str().as_bytes(), terms[i].as_str().as_bytes()) {
                        proof {
                            assert(bytes_contain(encode_utf8(lower@), encode_utf8(terms@[i as int]@)));
                        }
                        return true;
                    }
                    i = i + 1;
                }
                false
            },
            _ => false,
        },
        CCond::Equals { field, value } => match values[*field].canonical() {
            Some(s) => s == *value,
            None => false,
        },
        CCond::Compare { field, op, value } => match values[*field].number() {
            Some(n) => match op {
                CompareOp::Lt => n.lt(value),
                CompareOp::Le => n.le(value),
                CompareOp::Ge => value.le(&n),
                CompareOp::Gt => value.lt(&n),
            },
            None => false,
        },
        CCond::All(v) => {
            let mut i: usize = 0;
            while i < v.len()
                invariant
                    c matches CCond::All(w) && w@ == v@,
                    cond_fields_below(*c, values@.len() as int),
                    i <= v@.len(),
                    forall|j: int| 0 <= j < i ==> cond_holds(#[trigger] v@[j], values@),
                decreases v@.len() - i,
            {
                proof {
                    if let CCond::All(w) = c {
                        assert(decreases_to!(*c => *w));
                        assert(decreases_to!(*w => w@));
                        assert(decreases_to!(w@ => w@[i as int]));
                    }
                    assert(cond_fields_below(v@[i as int], values@.len() as int));
                }
                if !holds(&v[i], values) {
                    return false;
                }
                i = i + 1;
            }
            true
        },
        CCond::Any(v) => {
            let mut i: usize = 0;
            while i < v.len()
                invariant
                    c matches CCond::Any(w) && w@ == v@,
                    cond_fields_below(*c, values@.len() as int),
                    i <= v@.len(),
                    forall|j: int| 0 <= j < i ==> !cond_holds(#[trigger] v@[j], values@),
                decreases v@.len() - i,
            {
                proof {
                    if let CCond::Any(w) = c {
                        assert(decreases_to!(*c => *w));
                        assert(decreases_to!(*w => w@));
                        assert(decreases_to!(w@ => w@[i as int]));
                    }
                    assert(cond_fields_below(v@[i as int], values@.len() as int));
                }
                if holds(&v[i], values) {
                    return true;
                }
                i = i + 1;
            }
            false
        },
        CCond::Not(b) => !holds(b, values),
    }
}

/// The views of a list of decimals.
pub open spec fn views(v: Seq<Decimal>) -> Seq<int> {
    v.map_values(|d: Decimal| d@)
}

/// The logits after adding option constants in order, or none at the first
/// sum that leaves the decimal range.
pub open spec fn added(adds: Seq<(usize, Decimal)>, logits: Seq<int>) -> Option<Seq<int>>
    decreases adds.len(),
{
    if adds.len() == 0 {
        Some(logits)
    } else {
        match added(adds.drop_last(), logits) {
            Some(l) => {
                let k = adds.last().0 as int;
                let v = l[k] + adds.last().1@;
                if in_i128(v) {
                    Some(l.update(k, v))
                } else {
                    None
                }
            },
            None => None,
        }
    }
}

/// The term a linear coefficient contributes for `x`: the product rounded
/// half-even to nine fractional digits, or none when it overflows.
pub open spec fn linear_term(coefficient: int, x: int) -> Option<int> {
    if in_i128(coefficient * x) {
        match fitted(round_div(coefficient * x, 1_000_000_000, Rounding::HalfEven)) {
            Ok(v) => Some(v),
            Err(_) => None,
        }
    } else {
        None
    }
}

/// The logits after adding each coefficient's term in order, or none at the
/// first overflow.
pub open spec fn linear_added(cs: Seq<(usize, Decimal)>, x: int, logits: Seq<int>) -> Option<
    Seq<int>,
>
    decreases cs.len(),
{
    if cs.len() == 0 {
        Some(logits)
    } else {
        match linear_added(cs.drop_last(), x, logits) {
            Some(l) => match linear_term(cs.last().1@, x) {
                Some(term) => {
                    let k = cs.last().0 as int;
                    if in_i128(l[k] + term) {
                        Some(l.update(k, l[k] + term))
                    } else {
                        None
                    }
                },
                None => None,
            },
            None => None,
        }
    }
}

/// Option indices below `n`.
pub open spec fn indices_below(a: Seq<(usize, Decimal)>, n: int) -> bool {
    forall|i: int| 0 <= i < a.len() ==> (#[trigger] a[i]).0 < n
}

/// Every index a contribution writes and every field it reads are in range.
pub open spec fn contrib_in_range(c: CContrib, n_options: int, n_fields: int) -> bool {
    match c {
        CContrib::Add(a) => indices_below(a@, n_options),
        CContrib::Linear { field, coefficients } => field < n_fields && indices_below(
            coefficients@,
            n_options,
        ),
        CContrib::Lookup { field, table, .. } => field < n_fields && forall|k: Seq<char>|
            #[trigger] table.lookup(k) matches Some(a) ==> indices_below(a@, n_options),
    }
}

/// What applying a contribution gives the logits, or none when it fails.
pub open spec fn applied(c: CContrib, values: Seq<FieldValue>, logits: Seq<int>) -> Option<
    Seq<int>,
> {
    match c {
        CContrib::Add(a) => added(a@, logits),
        CContrib::Linear { field, coefficients } => match number_of(values[field as int]) {
            Some(x) => linear_added(coefficients@, x, logits),
            None => None,
        },
        CContrib::Lookup { field, table, on_missing } => match canonical_of(values[field as int]) {
            Some(key) => match table.lookup(key) {
                Some(a) => added(a@, logits),
                None => match on_missing {
                    OnMissing::Skip => Some(logits),
                    OnMissing::Fail => None,
                },
            },
            None => None,
        },
    }
}

/// Add each option constant to its logit, in order.
pub fn add_all(adds: &Vec<(usize, Decimal)>, logits: &mut Vec<Decimal>, task: &CTask) -> (r:
    Result<(), String>)
    requires
        indices_below(adds@, old(logits)@.len() as int),
        old(logits)@.len() == task.options@.len(),
    ensures
        final(logits)@.len() == old(logits)@.len(),
        match added(adds@, views(old(logits)@)) {
            Some(l) => r is Ok && views(final(logits)@) == l,
            None => r is Err,
        },
{
    let ghost start = views(logits@);
    let mut i: usize = 0;
    proof {
        assert(adds@.take(0) =~= Seq::<(usize, Decimal)>::empty());
    }
    while i < adds.len()
        invariant
            i <= adds@.len(),
            indices_below(adds@, logits@.len() as int),
            logits@.len() == old(logits)@.len(),
            logits@.len() == task.options@.len(),
            start == views(old(logits)@),
            added(adds@.take(i as int), start) == Some(views(logits@)),
        decreases adds@.len() - i,
    {
        let (k, d) = adds[i];
        proof {
            assert(adds@.take(i + 1).drop_last() =~= adds@.take(i as int));
            assert(adds@.take(i + 1).last() == adds@[i as int]);
        }
        match logits[k].checked_add(d) {
            Ok(s) => {
                logits.set(k, s);
                proof {
                    assert(views(logits@) =~= views(old(logits)@).update(k as int, s@).update(
                        k as int,
                        s@,
                    ) || true);
                }
            },
            Err(_) => {
                proof {
                    lemma_added_stays_none(adds@, i as int + 1, start);
                    assert(adds@.take(adds@.len() as int) =~= adds@);
                }
                return Err(join("overflow in option ", debug_quoted(task.options[k].as_str()).as_str()));
            },
        }
        proof {
            assert(views(logits@) =~= added(adds@.take(i + 1), start)->0);
        }
        i = i + 1;
    }
    proof {
        assert(adds@.take(adds@.len() as int) =~= adds@);
    }
    Ok(())
}

/// Once the additions of a prefix fail, the whole list fails.
proof fn lemma_added_stays_none(adds: Seq<(usize, Decimal)>, k: int, logits: Seq<int>)
    requires
        0 <= k <= adds.len(),
        added(adds.take(k), logits) is None,
    ensures
        added(adds, logits) is None,
    decreases adds.len() - k,
{
    if k < adds.len() {
        assert(adds.take(k + 1).drop_last() =~= adds.take(k));
        lemma_added_stays_none(adds, k + 1, logits);
    } else {
        assert(adds.take(k) =~= adds);
    }
}

/// Once a prefix of linear terms fails, the whole list fails.
proof fn lemma_linear_stays_none(cs: Seq<(usize, Decimal)>, k: int, x: int, logits: Seq<int>)
    requires
        0 <= k <= cs.len(),
        linear_added(cs.take(k), x, logits) is None,
    ensures
        linear_added(cs, x, logits) is None,
    decreases cs.len() - k,
{
    if k < cs.len() {
        assert(cs.take(k + 1).drop_last() =~= cs.take(k));
        lemma_linear_stays_none(cs, k + 1, x, logits);
    } else {
        assert(cs.take(k) =~= cs);
    }
}

/// Apply one contribution to the logits.
pub fn apply(c: &CContrib, values: &Vec<FieldValue>, logits: &mut Vec<Decimal>, task: &CTask) -> (r:
    Result<(), String>)
    requires
        contrib_in_range(*c, old(logits)@.len() as int, values@.len() as int),
        old(logits)@.len() == task.options@.len(),
    ensures
        final(logits)@.len() == old(logits)@.len(),
        match applied(*c, values@, views(old(logits)@)) {
            Some(l) => r is Ok && views(final(logits)@) == l,
            None => r is Err,
        },
{
    match c {
        CContrib::Add(a) => add_all(a, logits, task),
        CContrib::Linear { field, coefficients } => {
            let x = match values[*field].number() {
                Some(x) => x,
                None => {
                    return Err("linear field is not numeric".to_owned());
                },
            };
            let ghost start = views(logits@);
            let ghost cs = coefficients@;
            let mut i: usize = 0;
            proof {
                assert(cs.take(0) =~= Seq::<(usize, Decimal)>::empty());
            }
            while i < coefficients.len()
                invariant
                    cs == coefficients@,
                    c matches CContrib::Linear { field: f, coefficients: co } && co@ == cs && f
                        == *field,
                    number_of(values@[*field as int]) == Some(x@),
                    i <= cs.len(),
                    indices_below(cs, logits@.len() as int),
                    logits@.len() == old(logits)@.len(),
                    logits@.len() == task.options@.len(),
                    start == views(old(logits)@),
                    linear_added(cs.take(i as int), x@, start) == Some(views(logits@)),
                decreases cs.len() - i,
            {
                let (k, coefficient) = coefficients[i];
                proof {
                    assert(cs.take(i + 1).drop_last() =~= cs.take(i as int));
                    assert(cs.take(i + 1).last() == cs[i as int]);
                }
                let term = match coefficient.checked_mul(x, Rounding::HalfEven) {
                    Ok(t) => t,
                    Err(_) => {
                        proof {
                            lemma_linear_stays_none(cs, i + 1, x@, start);
                        }
                        return Err(join("overflow in option ", debug_quoted(task.options[k].as_str()).as_str()));
                    },
                };
                match logits[k].checked_add(term) {
                    Ok(s) => {
                        logits.set(k, s);
                    },
                    Err(_) => {
                        proof {
                            lemma_linear_stays_none(cs, i + 1, x@, start);
                        }
                        return Err(join("overflow in option ", debug_quoted(task.options[k].as_str()).as_str()));
                    },
                }
                proof {
                    assert(views(logits@) =~= linear_added(cs.take(i + 1), x@, start)->0);
                }
                i = i + 1;
            }
            proof {
                assert(cs.take(cs.len() as int) =~= cs);
            }
            Ok(())
        },
        CContrib::Lookup { field, table, on_missing } => {
            let key = match values[*field].canonical() {
                Some(k) => k,
                None => {
                    return Err("lookup field has no canonical text".to_owned());
                },
            };
            match table.get(key.as_str()) {
                Some(a) => {
                    proof {
                        assert(table.lookup(key@) matches Some(x) && indices_below(x@, logits@.len() as int));
                    }
                    add_all(a, logits, task)
                },
                None => match on_missing {
                    OnMissing::Skip => Ok(()),
                    OnMissing::Fail => Err(join("no lookup entry for ", debug_quoted(key.as_str()).as_str())),
                },
            }
        },
    }
}


/// The number a comparison reads from a field value: an integer counts in
/// whole units (`units` are billionths), a decimal as itself.
pub open spec fn compared_units(v: FieldValue) -> int {
    match v {
        FieldValue::Integer(i) => i * 1_000_000_000,
        FieldValue::Decimal(d) => d@,
        _ => 0,
    }
}

/// A comparison condition orders the field's number against its threshold
/// as its operator reads: `ge` holds exactly when the number is at least
/// the threshold, so also when the two are equal, `gt` exactly when it is
/// greater, `le` when at most, `lt` when less; `ge` is the negation of `lt`
/// and `le` of `gt`.
pub proof fn law_comparisons_order_numbers(field: usize, value: Decimal, values: Seq<FieldValue>)
    requires
        field < values.len(),
        values[field as int] is Integer || values[field as int] is Decimal,
    ensures
        cond_holds(CCond::Compare { field, op: CompareOp::Ge, value }, values) <==> compared_units(
            values[field as int],
        ) >= value@,
        cond_holds(CCond::Compare { field, op: CompareOp::Gt, value }, values) <==> compared_units(
            values[field as int],
        ) > value@,
        cond_holds(CCond::Compare { field, op: CompareOp::Le, value }, values) <==> compared_units(
            values[field as int],
        ) <= value@,
        cond_holds(CCond::Compare { field, op: CompareOp::Lt, value }, values) <==> compared_units(
            values[field as int],
        ) < value@,
        cond_holds(CCond::Compare { field, op: CompareOp::Ge, value }, values) <==> !cond_holds(
            CCond::Compare { field, op: CompareOp::Lt, value },
            values,
        ),
        cond_holds(CCond::Compare { field, op: CompareOp::Le, value }, values) <==> !cond_holds(
            CCond::Compare { field, op: CompareOp::Gt, value },
            values,
        ),
{
}

} // verus!
