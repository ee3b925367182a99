//! The declarative task adapter, `rustev.task-adapter/1`: how evaluation
//! reads labels and decides whether a proposal is correct, without
//! writing Rust.
use vstd::prelude::*;
use vstd::string::{StrSliceExecFns, StringExecFns};
use vstd::utf8::decode_utf8;

use crate::order::{byte_len, str_eq, texts};
use crate::rules::eval::integer_text;
use crate::rules::program::int_text;
use crate::text::{debug_quoted, debug_text, decimal_text, join, join3, usize_text};
use crate::text_map::TextMap;

verus! {

/// The adapter document's schema.
pub const TASK_ADAPTER: &'static str = "rustev.task-adapter/1";

/// The most rules an adapter has.
pub const MAX_RULES: usize = 64;

/// The most label values and prefixes, and the most entries of a map.
pub const MAX_LABELS: usize = 1024;

/// The most bytes of a label, an action, a parameter name or a map entry.
pub const MAX_TEXT: usize = 256;

/// A task adapter.
#[derive(Debug)]
pub struct TaskAdapterDoc {
    pub schema: String,
    pub name: String,
    pub version: String,
    pub labels: Labels,
    pub rules: Vec<Rule>,
}

/// A label is well formed when it equals one of `values` or starts with one
/// of `prefixes`.
#[derive(Debug, Clone, PartialEq, Eq)]
pub struct Labels {
    pub values: Vec<String>,
    pub prefixes: Vec<String>,
}

/// How one action's proposals are judged.
#[derive(Debug)]
pub enum Rule {
    /// The proposal is correct for exactly this label.
    Label(LabelRule),
    /// The proposal is correct when a selected parameter value, mapped,
    /// equals the label.
    Param(ParamRule),
}

/// A rule naming its label.
#[derive(Debug, Clone, PartialEq, Eq)]
pub struct LabelRule {
    pub action: String,
    pub label: String,
}

/// A rule that reads a parameter.
#[derive(Debug)]
pub struct ParamRule {
    pub action: String,
    pub param: String,
    pub select: Select,
    pub map: TextMap<String>,
    pub otherwise: Option<String>,
}

/// Which kind of parameter value a rule reads.
#[derive(Debug, Clone, Copy, PartialEq, Eq)]
pub enum Select {
    Enum,
    Text,
    Integer,
    FirstRanked,
}

/// A proposal's parameter value, as far as an adapter reads it.
#[derive(Debug, Clone, PartialEq, Eq)]
pub enum ParamValue {
    Enum(String),
    Text(String),
    Integer(i64),
    /// The candidates of a ranking, in rank order.
    Ranking(Vec<String>),
    /// Any other kind of value.
    Other,
}

/// A rule's action.
pub open spec fn action_of(r: Rule) -> Seq<char> {
    match r {
        Rule::Label(x) => x.action@,
        Rule::Param(x) => x.action@,
    }
}

/// A text of 1 to `max` bytes.
pub open spec fn text_ok(s: Seq<char>, max: int) -> bool {
    1 <= byte_len(s) <= max
}

/// What a text out of its bounds is told.
pub open spec fn text_refusal(what: Seq<char>, max: nat) -> Seq<char> {
    what + " is 1 to "@ + decimal_text(max) + " bytes"@
}

/// The first text from the `i`th on outside 1 to [`MAX_TEXT`] bytes.
pub open spec fn first_bad_text(v: Seq<Seq<char>>, i: int) -> Option<int>
    decreases v.len() - i,
{
    if i < 0 || i >= v.len() {
        None
    } else if !text_ok(v[i], MAX_TEXT as int) {
        Some(i)
    } else {
        first_bad_text(v, i + 1)
    }
}

/// The first refused entry of a map from its `i`th on: its key, then its
/// value.
pub open spec fn map_refusal(m: TextMap<String>, i: int) -> Option<Seq<char>>
    decreases m.keys().len() - i,
{
    if i < 0 || i >= m.keys().len() {
        None
    } else if !text_ok(m.keys()[i], MAX_TEXT as int) {
        Some(text_refusal("a map key"@, MAX_TEXT as nat))
    } else if !text_ok(m.values()[i]@, MAX_TEXT as int) {
        Some(text_refusal("a map value"@, MAX_TEXT as nat))
    } else {
        map_refusal(m, i + 1)
    }
}

/// What is wrong with one rule, whose action is not among `earlier`.
pub open spec fn rule_refusal(r: Rule, earlier: Seq<Seq<char>>) -> Option<Seq<char>> {
    let a = action_of(r);
    if !text_ok(a, MAX_TEXT as int) {
        Some(text_refusal("an action"@, MAX_TEXT as nat))
    } else if earlier.contains(a) {
        Some("two rules for action "@ + debug_text(a))
    } else {
        match r {
            Rule::Label(x) => if !text_ok(x.label@, MAX_TEXT as int) {
                Some(text_refusal("a rule label"@, MAX_TEXT as nat))
            } else {
                None
            },
            Rule::Param(x) => if !text_ok(x.param@, MAX_TEXT as int) {
                Some(text_refusal("a parameter name"@, MAX_TEXT as nat))
            } else if x.map.keys().len() > MAX_LABELS {
                Some("a map has at most 1024 entries"@)
            } else {
                match map_refusal(x.map, 0) {
                    Some(m) => Some(m),
                    None => match x.otherwise {
                        Some(o) => if !text_ok(o@, MAX_TEXT as int) {
                            Some(text_refusal("otherwise"@, MAX_TEXT as nat))
                        } else {
                            None
                        },
                        None => None,
                    },
                }
            },
        }
    }
}

/// The actions of the first `n` rules.
pub open spec fn actions(rules: Seq<Rule>, n: int) -> Seq<Seq<char>> {
    rules.take(n).map_values(|r: Rule| action_of(r))
}

/// The first refused rule from the `i`th on.
pub open spec fn rules_refusal(rules: Seq<Rule>, i: int) -> Option<Seq<char>>
    decreases rules.len() - i,
{
    if i < 0 || i >= rules.len() {
        None
    } else {
        match rule_refusal(rules[i], actions(rules, i)) {
            Some(m) => Some(m),
            None => rules_refusal(rules, i + 1),
        }
    }
}

/// The name, version and label counts are in bounds.
pub open spec fn heading_ok(d: TaskAdapterDoc) -> bool {
    &&& text_ok(d.name@, 64)
    &&& text_ok(d.version@, 64)
    &&& !(d.labels.values@.len() == 0 && d.labels.prefixes@.len() == 0)
    &&& d.labels.values@.len() + d.labels.prefixes@.len() <= MAX_LABELS
}

/// Every label value and prefix, values first.
pub open spec fn label_texts(d: TaskAdapterDoc) -> Seq<Seq<char>> {
    texts(d.labels.values@) + texts(d.labels.prefixes@)
}

/// What is wrong with an adapter, the first thing checked first; `None`
/// when it is valid.
pub open spec fn adapter_refusal(d: TaskAdapterDoc) -> Option<Seq<char>> {
    let l = d.labels;
    let all = label_texts(d);
    if !text_ok(d.name@, 64) {
        Some(text_refusal("name"@, 64))
    } else if !text_ok(d.version@, 64) {
        Some(text_refusal("version"@, 64))
    } else if l.values@.len() == 0 && l.prefixes@.len() == 0 {
        Some("labels need at least one value or prefix"@)
    } else if l.values@.len() + l.prefixes@.len() > MAX_LABELS {
        Some("at most 1024 label values and prefixes"@)
    } else if first_bad_text(all, 0) is Some {
        Some(text_refusal("a label value or prefix"@, MAX_TEXT as nat))
    } else if d.rules@.len() > MAX_RULES {
        Some("at most 64 rules"@)
    } else {
        rules_refusal(d.rules@, 0)
    }
}

/// Whether `s` is 1 to `max` bytes, refused naming `what` if not.
fn text(what: &str, s: &str, max: usize) -> (r: Result<(), String>)
    ensures
        text_ok(s@, max as int) ==> r is Ok,
        !text_ok(s@, max as int) ==> (r matches Err(m) && m@ == text_refusal(what@, max as nat)),
{
    let n = s.as_bytes().len();
    if n == 0 || n > max {
        return Err(join3(what, " is 1 to ", usize_text(max).as_str()).concat(" bytes"));
    }
    Ok(())
}

impl Rule {
    /// The rule's action.
    pub fn action(&self) -> (r: &str)
        ensures
            r@ == action_of(*self),
    {
        match self {
            Rule::Label(r) => r.action.as_str(),
            Rule::Param(r) => r.action.as_str(),
        }
    }
}

/// The first refused entry of `m` from its `i`th on.
fn check_map(m: &TextMap<String>) -> (r: Result<(), String>)
    ensures
        match map_refusal(*m, 0) {
            Some(msg) => r matches Err(e) && e@ == msg,
            None => r is Ok,
        },
{
    let n = m.len();
    let mut i: usize = 0;
    while i < n
        invariant
            n == m.keys().len(),
            n == m.values().len(),
            i <= n,
            map_refusal(*m, 0) == map_refusal(*m, i as int),
        decreases n - i,
    {
        text("a map key", m.key_at(i), MAX_TEXT)?;
        text("a map value", m.value_at(i).as_str(), MAX_TEXT)?;
        i = i + 1;
    }
    Ok(())
}

/// Whether an earlier rule has `action`.
fn seen(rules: &Vec<Rule>, n: usize, action: &str) -> (r: bool)
    requires
        n <= rules@.len(),
    ensures
        r == actions(rules@, n as int).contains(action@),
{
    let ghost acts = actions(rules@, n as int);
    let mut j: usize = 0;
    while j < n
        invariant
            n <= rules@.len(),
            acts == actions(rules@, n as int),
            j <= n,
            forall|k: int| 0 <= k < j ==> #[trigger] acts[k] != action@,
        decreases n - j,
    {
        if str_eq(rules[j].action(), action) {
            proof {
                assert(acts[j as int] == action@);
            }
            return true;
        }
        j = j + 1;
    }
    false
}

impl TaskAdapterDoc {
    /// Validate the adapter: its name and version, its labels, and each
    /// rule in order, one rule per action.
    pub fn check(&self) -> (r: Result<(), String>)
        ensures
            match adapter_refusal(*self) {
                Some(m) => r matches Err(e) && e@ == m,
                None => r is Ok,
            },
    {
        text("name", self.name.as_str(), 64)?;
        text("version", self.version.as_str(), 64)?;
        let l = &self.labels;
        if l.values.len() == 0 && l.prefixes.len() == 0 {
            return Err(String::from_str("labels need at least one value or prefix"));
        }
        if l.values.len() > MAX_LABELS || l.prefixes.len() > MAX_LABELS - l.values.len() {
            return Err(String::from_str("at most 1024 label values and prefixes"));
        }
        let ghost all = label_texts(*self);
        let nv = l.values.len();
        let mut i: usize = 0;
        while i < nv
            invariant
                heading_ok(*self),
                l == self.labels,
                nv == l.values@.len(),
                all == label_texts(*self),
                i <= nv,
                first_bad_text(all, 0) == first_bad_text(all, i as int),
            decreases nv - i,
        {
            proof {
                assert(all[i as int] == l.values@[i as int]@);
            }
            text("a label value or prefix", l.values[i].as_str(), MAX_TEXT)?;
            i = i + 1;
        }
        let np = l.prefixes.len();
        let mut k: usize = 0;
        while k < np
            invariant
                heading_ok(*self),
                l == self.labels,
                nv == l.values@.len(),
                np == l.prefixes@.len(),
                all == label_texts(*self),
                k <= np,
                first_bad_text(all, 0) == first_bad_text(all, nv + k),
            decreases np - k,
        {
            proof {
                assert(all[nv + k] == l.prefixes@[k as int]@);
            }
            text("a label value or prefix", l.prefixes[k].as_str(), MAX_TEXT)?;
            k = k + 1;
        }
        proof {
            assert(all.len() == nv + np);
        }
        if self.rules.len() > MAX_RULES {
            return Err(String::from_str("at most 64 rules"));
        }
        let n = self.rules.len();
        let mut j: usize = 0;
        while j < n
            invariant
                heading_ok(*self),
                first_bad_text(label_texts(*self), 0) is None,
                n == self.rules@.len(),
                n <= MAX_RULES,
                j <= n,
                rules_refusal(self.rules@, 0) == rules_refusal(self.rules@, j as int),
            decreases n - j,
        {
            let r = &self.rules[j];
            text("an action", r.action(), MAX_TEXT)?;
            if seen(&self.rules, j, r.action()) {
                return Err(join("two rules for action ", debug_quoted(r.action()).as_str()));
            }
            match r {
                Rule::Label(x) => {
                    text("a rule label", x.label.as_str(), MAX_TEXT)?;
                },
                Rule::Param(x) => {
                    text("a parameter name", x.param.as_str(), MAX_TEXT)?;
                    if x.map.len() > MAX_LABELS {
                        return Err(String::from_str("a map has at most 1024 entries"));
                    }
                    check_map(&x.map)?;
                    match &x.otherwise {
                        Some(o) => {
                            text("otherwise", o.as_str(), MAX_TEXT)?;
                        },
                        None => {},
                    }
                },
            }
            j = j + 1;
        }
        Ok(())
    }
}

/// `label` equals one of the values or starts with one of the prefixes.
pub open spec fn is_label(d: TaskAdapterDoc, label: Seq<char>) -> bool {
    ||| exists|i: int| 0 <= i < d.labels.values@.len() && (#[trigger] d.labels.values@[i])@ == label
    ||| exists|i: int|
        0 <= i < d.labels.prefixes@.len() && (#[trigger] d.labels.prefixes@[i])@.is_prefix_of(label)
}

/// The first rule for `action`, from the `i`th on.
pub open spec fn rule_for(rules: Seq<Rule>, action: Seq<char>, i: int) -> Option<int>
    decreases rules.len() - i,
{
    if i < 0 || i >= rules.len() {
        None
    } else if action_of(rules[i]) == action {
        Some(i)
    } else {
        rule_for(rules, action, i + 1)
    }
}

/// The text a rule selects from a parameter value, or none when the
/// parameter is missing or of another kind.
pub open spec fn selected_text(select: Select, v: Option<ParamValue>) -> Option<Seq<char>> {
    match (select, v) {
        (Select::Enum, Some(ParamValue::Enum(s))) => Some(s@),
        (Select::Text, Some(ParamValue::Text(s))) => Some(s@),
        (Select::Integer, Some(ParamValue::Integer(i))) => Some(decode_utf8(int_text(i as int))),
        (Select::FirstRanked, Some(ParamValue::Ranking(r))) => if r@.len() > 0 {
            Some(r@[0]@)
        } else {
            None
        },
        _ => None,
    }
}

/// The view of an optional text.
pub open spec fn opt_text(o: Option<String>) -> Option<Seq<char>> {
    match o {
        Some(s) => Some(s@),
        None => None,
    }
}

/// Whether a proposal of `action` with `params` is correct for `label`.
pub open spec fn is_correct(
    d: TaskAdapterDoc,
    action: Seq<char>,
    params: TextMap<ParamValue>,
    label: Seq<char>,
) -> bool {
    match rule_for(d.rules@, action, 0) {
        None => false,
        Some(i) => match d.rules@[i] {
            Rule::Label(r) => r.label@ == label,
            Rule::Param(r) => match selected_text(r.select, params.lookup(r.param@)) {
                None => false,
                Some(v) => {
                    let mapped = if r.map.keys().len() == 0 {
                        Some(v)
                    } else {
                        match r.map.lookup(v) {
                            Some(m) => Some(m@),
                            None => opt_text(r.otherwise),
                        }
                    };
                    mapped == Some(label)
                },
            },
        },
    }
}

/// Whether `p` starts `s`.
fn starts_with(s: &str, p: &str) -> (r: bool)
    ensures
        r == p@.is_prefix_of(s@),
{
    let n = p.unicode_len();
    if n > s.unicode_len() {
        return false;
    }
    let mut i: usize = 0;
    while i < n
        invariant
            n == p@.len(),
            n <= s@.len(),
            i <= n,
            forall|j: int| 0 <= j < i ==> #[trigger] p@[j] == s@[j],
        decreases n - i,
    {
        if p.get_char(i) != s.get_char(i) {
            return false;
        }
        i = i + 1;
    }
    proof {
        assert(p@ =~= s@.subrange(0, n as int));
    }
    true
}

/// The text a rule selects from a parameter value.
fn selected(select: Select, v: Option<&ParamValue>) -> (r: Option<String>)
    ensures
        opt_text(r) == selected_text(
            select,
            match v {
                Some(x) => Some(*x),
                None => None,
            },
        ),
{
    match (select, v) {
        (Select::Enum, Some(ParamValue::Enum(s))) => Some(s.clone()),
        (Select::Text, Some(ParamValue::Text(s))) => Some(s.clone()),
        (Select::Integer, Some(ParamValue::Integer(i))) => Some(integer_text(*i)),
        (Select::FirstRanked, Some(ParamValue::Ranking(r))) => if r.len() > 0 {
            Some(r[0].clone())
        } else {
            None
        },
        _ => None,
    }
}

impl TaskAdapterDoc {
    /// Whether `label` is a label of this adapter.
    pub fn check_label(&self, label: &str) -> (r: Result<(), String>)
        ensures
            is_label(*self, label@) ==> r is Ok,
            !is_label(*self, label@) ==> (r matches Err(m) && m@ == debug_text(label@)
                + " is not a label of adapter "@ + self.name@),
    {
        let l = &self.labels;
        let mut i: usize = 0;
        while i < l.values.len()
            invariant
                l == self.labels,
                i <= l.values@.len(),
                forall|j: int| 0 <= j < i ==> (#[trigger] l.values@[j])@ != label@,
            decreases l.values@.len() - i,
        {
            if str_eq(l.values[i].as_str(), label) {
                return Ok(());
            }
            i = i + 1;
        }
        let mut k: usize = 0;
        while k < l.prefixes.len()
            invariant
                l == self.labels,
                k <= l.prefixes@.len(),
                forall|j: int| 0 <= j < l.values@.len() ==> (#[trigger] l.values@[j])@ != label@,
                forall|j: int| 0 <= j < k ==> !(#[trigger] l.prefixes@[j])@.is_prefix_of(label@),
            decreases l.prefixes@.len() - k,
        {
            if starts_with(label, l.prefixes[k].as_str()) {
                return Ok(());
            }
            k = k + 1;
        }
        Err(join3(debug_quoted(label).as_str(), " is not a label of adapter ", self.name.as_str()))
    }

    /// Whether a proposal of `action` with `params` is correct for
    /// `label`: the first rule for the action decides; a missing parameter,
    /// another kind of value or an unmapped value without `otherwise` is
    /// never correct.
    pub fn correct(&self, action: &str, params: &TextMap<ParamValue>, label: &str) -> (r: bool)
        ensures
            r == is_correct(*self, action@, *params, label@),
    {
        let n = self.rules.len();
        let mut i: usize = 0;
        while i < n
            invariant
                n == self.rules@.len(),
                i <= n,
                rule_for(self.rules@, action@, 0) == rule_for(self.rules@, action@, i as int),
            decreases n - i,
        {
            if str_eq(self.rules[i].action(), action) {
                return match &self.rules[i] {
                    Rule::Label(r) => str_eq(r.label.as_str(), label),
                    Rule::Param(r) => {
                        let value = match selected(r.select, params.get(r.param.as_str())) {
                            None => {
                                return false;
                            },
                            Some(v) => v,
                        };
                        if r.map.is_empty() {
                            str_eq(value.as_str(), label)
                        } else {
                            match r.map.get(value.as_str()) {
                                Some(m) => str_eq(m.as_str(), label),
                                None => match &r.otherwise {
                                    Some(o) => str_eq(o.as_str(), label),
                                    None => false,
                                },
                            }
                        }
                    },
                };
            }
            i = i + 1;
        }
        false
    }
}

proof fn lemma_rules_refusal(rules: Seq<Rule>, i: int)
    requires
        0 <= i,
        rules_refusal(rules, i) is None,
    ensures
        forall|j: int|
            i <= j < rules.len() ==> #[trigger] rule_refusal(rules[j], actions(rules, j)) is None,
    decreases rules.len() - i,
{
    if i < rules.len() {
        lemma_rules_refusal(rules, i + 1);
    }
}

/// A valid adapter has one rule per action, so the rule that judges an
/// action is the only one for it.
pub proof fn law_valid_adapters_have_one_rule_per_action(d: TaskAdapterDoc)
    requires
        adapter_refusal(d) is None,
    ensures
        forall|i: int, j: int|
            0 <= i < j < d.rules@.len() ==> action_of(#[trigger] d.rules@[i]) != action_of(
                #[trigger] d.rules@[j],
            ),
{
    lemma_rules_refusal(d.rules@, 0);
    assert forall|i: int, j: int| 0 <= i < j < d.rules@.len() implies action_of(
        #[trigger] d.rules@[i],
    ) != action_of(#[trigger] d.rules@[j]) by {
        assert(rule_refusal(d.rules@[j], actions(d.rules@, j)) is None);
        assert(actions(d.rules@, j)[i] == action_of(d.rules@[i]));
        if action_of(d.rules@[i]) == action_of(d.rules@[j]) {
            assert(actions(d.rules@, j).contains(action_of(d.rules@[j])));
        }
    }
}

} // verus!
