//! Reading one projection document: the task it asks, the declared fields
//! it supplies, checked before any rule runs, and the rules run in order
//! over those values.
use vstd::prelude::*;
use vstd::string::StringExecFns;

use crate::canonical::Json;
use crate::decimal::{spec_parse, units_result, Decimal};
use crate::definition::Operation;
use crate::order::str_eq;
use crate::rules::eval::{apply, applied, cond_fields_below, cond_holds, contrib_in_range, holds, views, FieldValue};
use crate::rules::program::{
    adds_of, adds_ok, cond_compiled, cond_ok, contrib_compiled, contrib_ok, distinct, entry_names,
    field_names, option_names, position_of, rule_compiled, rule_ok, task_compiled, task_ok, CCond,
    CContrib, CField, CTask, Condition, Contribution, FieldType, LookupEntry, NoMatch, Task,
};
use crate::order::texts;
use crate::rules::eval::indices_below;
use crate::text_map::TextMap;
use crate::text::{debug_quoted, debug_text, join, join3, lower_text, to_ascii_lower};
use vstd::string::StringSliceAdditionalSpecFns;

verus! {

/// The first member named `key` from the `i`th on.
pub open spec fn member_at(entries: Seq<(String, Json)>, key: Seq<char>, i: int) -> Option<Json>
    decreases entries.len() - i,
{
    if i < 0 || i >= entries.len() {
        None
    } else if entries[i].0@ == key {
        Some(entries[i].1)
    } else {
        member_at(entries, key, i + 1)
    }
}

/// The member `key` of an object; none for any other value.
pub open spec fn json_get(doc: Json, key: Seq<char>) -> Option<Json> {
    match doc {
        Json::Object(entries) => member_at(entries@, key, 0),
        _ => None,
    }
}

/// The first member named `key`.
fn member<'a>(entries: &'a Vec<(String, Json)>, key: &str) -> (r: Option<&'a Json>)
    ensures
        match member_at(entries@, key@, 0) {
            Some(v) => r matches Some(x) && *x == v,
            None => r is None,
        },
{
    let mut i: usize = 0;
    while i < entries.len()
        invariant
            i <= entries@.len(),
            member_at(entries@, key@, 0) == member_at(entries@, key@, i as int),
        decreases entries@.len() - i,
    {
        if str_eq(entries[i].0.as_str(), key) {
            return Some(&entries[i].1);
        }
        i = i + 1;
    }
    None
}

/// The member `key` of an object; none for any other value.
pub fn get<'a>(doc: &'a Json, key: &str) -> (r: Option<&'a Json>)
    ensures
        match json_get(*doc, key@) {
            Some(v) => r matches Some(x) && *x == v,
            None => r is None,
        },
{
    match doc {
        Json::Object(entries) => member(entries, key),
        _ => None,
    }
}

/// A field value as the rules read it.
pub enum FieldModel {
    Text(Seq<char>),
    Bool(bool),
    Integer(i64),
    Decimal(int),
}

/// What a read value stands for; a text keeps its lower-cased form.
pub open spec fn field_read_as(v: FieldValue, m: FieldModel) -> bool {
    match (v, m) {
        (FieldValue::Text(s, lower), FieldModel::Text(t)) => s@ == t && lower@ == lower_text(t),
        (FieldValue::Bool(a), FieldModel::Bool(b)) => a == b,
        (FieldValue::Integer(a), FieldModel::Integer(b)) => a == b,
        (FieldValue::Decimal(d), FieldModel::Decimal(u)) => d@ == u,
        _ => false,
    }
}

/// The name of a field type, as `{:?}` writes it.
pub open spec fn field_type_name(ty: FieldType) -> Seq<char> {
    match ty {
        FieldType::Text => "Text"@,
        FieldType::Bool => "Bool"@,
        FieldType::Integer => "Integer"@,
        FieldType::Decimal => "Decimal"@,
    }
}

/// The members of the projection's `values` object; none when it has no
/// object there.
pub open spec fn values_of(doc: Json) -> Seq<(String, Json)> {
    match json_get(doc, "values"@) {
        Some(Json::Object(e)) => e@,
        _ => Seq::empty(),
    }
}

/// What the projection's values give field `f`.
pub open spec fn read_model(f: CField, values: Seq<(String, Json)>) -> Result<FieldModel, Seq<char>> {
    let top = member_at(values, f.key@, 0);
    let v: Result<Option<Json>, Seq<char>> = match f.member {
        None => Ok(top),
        Some(m) => match top {
            Some(Json::Object(o)) => Ok(member_at(o@, m@, 0)),
            Some(Json::Null) => Ok(None),
            None => Ok(None),
            Some(_) => Err("incompatible field "@ + debug_text(f.name@) + ": "@ + f.key@ + " is not a record"@),
        },
    };
    let bad = "incompatible field "@ + debug_text(f.name@) + ": not "@ + field_type_name(f.ty);
    match v {
        Err(m) => Err(m),
        Ok(None) => Err("missing field "@ + debug_text(f.name@)),
        Ok(Some(Json::Null)) => Err("missing field "@ + debug_text(f.name@)),
        Ok(Some(x)) => match (f.ty, x) {
            (FieldType::Text, Json::Str(s)) => Ok(FieldModel::Text(s@)),
            (FieldType::Bool, Json::Bool(b)) => Ok(FieldModel::Bool(b)),
            (FieldType::Integer, Json::Int(i)) => Ok(FieldModel::Integer(i)),
            (FieldType::Decimal, Json::Str(s)) => match spec_parse(vstd::utf8::encode_utf8(s@)) {
                Ok(u) => Ok(FieldModel::Decimal(u)),
                Err(_) => Err(bad),
            },
            _ => Err(bad),
        },
    }
}

/// Every field read in order from the `i`th on; the first refusal wins.
pub open spec fn fields_model(fields: Seq<CField>, values: Seq<(String, Json)>, i: int) -> Result<
    Seq<FieldModel>,
    Seq<char>,
>
    decreases fields.len() - i,
{
    if i < 0 || i >= fields.len() {
        Ok(Seq::empty())
    } else {
        match read_model(fields[i], values) {
            Err(m) => Err(m),
            Ok(v) => match fields_model(fields, values, i + 1) {
                Err(m) => Err(m),
                Ok(rest) => Ok(seq![v] + rest),
            },
        }
    }
}

/// `r` holds the values `m` stands for, or its refusal.
pub open spec fn fields_read_as(r: Result<Vec<FieldValue>, String>, m: Result<Seq<FieldModel>, Seq<char>>) -> bool {
    match m {
        Ok(ms) => r matches Ok(v) && v@.len() == ms.len() && forall|k: int|
            0 <= k < ms.len() ==> field_read_as(#[trigger] v@[k], ms[k]),
        Err(msg) => r matches Err(e) && e@ == msg,
    }
}

/// The value of field `f` among `values`.
fn read_field(f: &CField, values: &Vec<(String, Json)>) -> (r: Result<FieldValue, String>)
    ensures
        match read_model(*f, values@) {
            Ok(m) => r matches Ok(v) && field_read_as(v, m),
            Err(msg) => r matches Err(e) && e@ == msg,
        },
{
    let top = member(values, f.key.as_str());
    let v: Option<&Json> = match &f.member {
        None => top,
        Some(m) => match top {
            Some(Json::Object(o)) => member(o, m.as_str()),
            Some(Json::Null) => None,
            None => None,
            Some(_) => {
                let mut e = join3("incompatible field ", debug_quoted(f.name.as_str()).as_str(), ": ");
                e.append(f.key.as_str());
                e.append(" is not a record");
                return Err(e);
            },
        },
    };
    let x = match v {
        None => {
            return Err(join("missing field ", debug_quoted(f.name.as_str()).as_str()));
        },
        Some(Json::Null) => {
            return Err(join("missing field ", debug_quoted(f.name.as_str()).as_str()));
        },
        Some(x) => x,
    };
    let good: Option<FieldValue> = match (f.ty, x) {
        (FieldType::Text, Json::Str(s)) => Some(FieldValue::Text(s.clone(), to_ascii_lower(s.as_str()))),
        (FieldType::Bool, Json::Bool(b)) => Some(FieldValue::Bool(*b)),
        (FieldType::Integer, Json::Int(i)) => Some(FieldValue::Integer(*i)),
        (FieldType::Decimal, Json::Str(s)) => match Decimal::parse(s.as_str()) {
            Ok(d) => Some(FieldValue::Decimal(d)),
            Err(_) => None,
        },
        _ => None,
    };
    match good {
        Some(g) => Ok(g),
        None => {
            let mut e = join3("incompatible field ", debug_quoted(f.name.as_str()).as_str(), ": not ");
            let t = match f.ty {
                FieldType::Text => "Text",
                FieldType::Bool => "Bool",
                FieldType::Integer => "Integer",
                FieldType::Decimal => "Decimal",
            };
            e.append(t);
            Err(e)
        },
    }
}

/// Read and check every declared field before any rule runs; the first
/// refusal wins.
pub fn read_fields(task: &CTask, doc: &Json) -> (r: Result<Vec<FieldValue>, String>)
    ensures
        fields_read_as(r, fields_model(task.fields@, values_of(*doc), 0)),
{
    let empty: Vec<(String, Json)> = Vec::new();
    let values: &Vec<(String, Json)> = match get(doc, "values") {
        Some(Json::Object(e)) => e,
        _ => &empty,
    };
    proof {
        if !(json_get(*doc, "values"@) matches Some(Json::Object(_))) {
            assert(values@ =~= Seq::<(String, Json)>::empty());
        }
    }
    let n = task.fields.len();
    let mut out: Vec<FieldValue> = Vec::new();
    let ghost mut ms: Seq<FieldModel> = Seq::empty();
    let mut i: usize = 0;
    while i < n
        invariant
            n == task.fields@.len(),
            values@ == values_of(*doc),
            i <= n,
            out@.len() == i,
            ms.len() == i,
            forall|k: int| 0 <= k < i ==> field_read_as(#[trigger] out@[k], ms[k]),
            fields_model(task.fields@, values@, 0) == match fields_model(task.fields@, values@, i as int) {
                Ok(rest) => Ok(ms + rest),
                Err(m) => Err(m),
            },
        decreases n - i,
    {
        let v = read_field(&task.fields[i], values);
        match v {
            Err(e) => {
                return Err(e);
            },
            Ok(x) => {
                proof {
                    let m = read_model(task.fields@[i as int], values@)->Ok_0;
                    match fields_model(task.fields@, values@, i + 1) {
                        Ok(rest) => {
                            assert(ms + (seq![m] + rest) =~= ms.push(m) + rest);
                        },
                        Err(_) => {},
                    }
                    ms = ms.push(m);
                }
                out.push(x);
            },
        }
        i = i + 1;
    }
    proof {
        assert(ms + Seq::<FieldModel>::empty() =~= ms);
    }
    Ok(out)
}

/// The name of an operation, as the projection writes it.
pub open spec fn operation_name(op: Operation) -> Seq<char> {
    match op {
        Operation::Classify => "classify"@,
        Operation::Proposition => "proposition"@,
        Operation::Rubric => "rubric"@,
        Operation::Rank => "rank"@,
    }
}

/// The first task named `name`, from the `i`th on.
pub open spec fn task_named(tasks: Seq<CTask>, name: Seq<char>, i: int) -> Option<int>
    decreases tasks.len() - i,
{
    if i < 0 || i >= tasks.len() {
        None
    } else if tasks[i].name@ == name {
        Some(i)
    } else {
        task_named(tasks, name, i + 1)
    }
}

/// The projection's options are exactly the task's, in order.
pub open spec fn options_match(doc: Json, t: CTask) -> bool {
    json_get(doc, "options"@) matches Some(Json::Array(a)) && a@.len() == t.options@.len() && forall|
        k: int,
    |
        0 <= k < a@.len() ==> (#[trigger] a@[k] matches Json::Str(s) && s@ == t.options@[k]@)
}

/// The task the projection asks, by name, with the same operation,
/// question and options.
pub open spec fn chosen(tasks: Seq<CTask>, doc: Json) -> Result<int, Seq<char>> {
    match json_get(doc, "task"@) {
        Some(Json::Str(name)) => match task_named(tasks, name@, 0) {
            None => Err("no rules for task "@ + debug_text(name@)),
            Some(i) => {
                let t = tasks[i];
                let what = "task "@ + debug_text(name@);
                if !(json_get(doc, "operation"@) matches Some(Json::Str(o)) && o@ == operation_name(
                    t.operation,
                )) {
                    Err(what + ": operation differs from the program's"@)
                } else if !(json_get(doc, "question"@) matches Some(Json::Str(q)) && q@
                    == t.question@) {
                    Err(what + ": question differs from the program's"@)
                } else if !options_match(doc, t) {
                    Err(what + ": options differ from the program's"@)
                } else {
                    Ok(i)
                }
            },
        },
        _ => Err("projection has no task"@),
    }
}

proof fn lemma_task_named(tasks: Seq<CTask>, name: Seq<char>, i: int)
    ensures
        task_named(tasks, name, i) matches Some(j) ==> i <= j < tasks.len() && tasks[j].name@ == name,
    decreases tasks.len() - i,
{
    if 0 <= i < tasks.len() && tasks[i].name@ != name {
        lemma_task_named(tasks, name, i + 1);
    }
}

/// The first task named `name`.
pub(crate) fn find_task(tasks: &Vec<CTask>, name: &str) -> (r: Option<usize>)
    ensures
        r matches Some(i) ==> i < tasks@.len() && task_named(tasks@, name@, 0) == Some(i as int),
        r is None ==> task_named(tasks@, name@, 0) is None,
{
    proof {
        lemma_task_named(tasks@, name@, 0);
    }
    let mut i: usize = 0;
    while i < tasks.len()
        invariant
            i <= tasks@.len(),
            task_named(tasks@, name@, 0) == task_named(tasks@, name@, i as int),
        decreases tasks@.len() - i,
    {
        if str_eq(tasks[i].name.as_str(), name) {
            return Some(i);
        }
        i = i + 1;
    }
    None
}

/// The task the projection asks, by name, with the same operation,
/// question and options as the program's.
pub fn select_task(tasks: &Vec<CTask>, doc: &Json) -> (r: Result<usize, String>)
    ensures
        r matches Ok(i) ==> i < tasks@.len(),
        chosen(tasks@, *doc) matches Ok(k) ==> 0 <= k < tasks@.len(),
        match chosen(tasks@, *doc) {
            Ok(i) => r matches Ok(j) && j as int == i,
            Err(m) => r matches Err(e) && e@ == m,
        },
{
    let name = match get(doc, "task") {
        Some(Json::Str(s)) => s,
        _ => {
            return Err(String::from_str("projection has no task"));
        },
    };
    let i = match find_task(tasks, name.as_str()) {
        None => {
            return Err(join("no rules for task ", debug_quoted(name.as_str()).as_str()));
        },
        Some(i) => i,
    };
    let t = &tasks[i];
    let what = join("task ", debug_quoted(name.as_str()).as_str());
    let op = match t.operation {
        Operation::Classify => "classify",
        Operation::Proposition => "proposition",
        Operation::Rubric => "rubric",
        Operation::Rank => "rank",
    };
    let op_ok = match get(doc, "operation") {
        Some(Json::Str(o)) => str_eq(o.as_str(), op),
        _ => false,
    };
    proof {
        assert(op@ == operation_name(t.operation));
    }
    if !op_ok {
        return Err(what.concat(": operation differs from the program's"));
    }
    let q_ok = match get(doc, "question") {
        Some(Json::Str(q)) => str_eq(q.as_str(), t.question.as_str()),
        _ => false,
    };
    if !q_ok {
        return Err(what.concat(": question differs from the program's"));
    }
    let opts_ok = match get(doc, "options") {
        Some(Json::Array(a)) => {
            if a.len() != t.options.len() {
                false
            } else {
                let mut k: usize = 0;
                let mut ok = true;
                while k < a.len()
                    invariant
                        a@.len() == t.options@.len(),
                        k <= a@.len(),
                        ok == forall|m: int|
                            0 <= m < k ==> (#[trigger] a@[m] matches Json::Str(s) && s@
                                == t.options@[m]@),
                    decreases a@.len() - k,
                {
                    let same = match &a[k] {
                        Json::Str(s) => str_eq(s.as_str(), t.options[k].as_str()),
                        _ => false,
                    };
                    proof {
                        if !same {
                            assert(!(a@[k as int] matches Json::Str(s) && s@ == t.options@[k as int]@));
                        }
                    }
                    ok = ok && same;
                    k = k + 1;
                }
                ok
            }
        },
        _ => false,
    };
    if !opts_ok {
        return Err(what.concat(": options differ from the program's"));
    }
    Ok(i)
}

/// What running the rules gives: logits in option order, a failed rule,
/// or no rule applied where the task demands one.
pub enum RunModel {
    Logits(Seq<int>),
    Failed { rule: int },
    NoMatch,
}

/// The logits after a rule's contributions from the `j`th on, or none at
/// the first that fails.
pub open spec fn contribs_model(cs: Seq<CContrib>, values: Seq<FieldValue>, logits: Seq<int>, j: int) -> Option<
    Seq<int>,
>
    decreases cs.len() - j,
{
    if j < 0 || j >= cs.len() {
        Some(logits)
    } else {
        match applied(cs[j], values, logits) {
            None => None,
            Some(l) => contribs_model(cs, values, l, j + 1),
        }
    }
}

/// The rules from the `i`th on, in order: a rule whose condition holds adds
/// its contributions, and a stopping rule ends the run.
pub open spec fn rules_model(t: CTask, values: Seq<FieldValue>, i: int, logits: Seq<int>, any: bool) -> RunModel
    decreases t.rules@.len() - i,
{
    if i < 0 || i >= t.rules@.len() {
        if !any && t.on_no_match == NoMatch::Fail {
            RunModel::NoMatch
        } else {
            RunModel::Logits(logits)
        }
    } else {
        let r = t.rules@[i];
        if !cond_holds(r.when, values) {
            rules_model(t, values, i + 1, logits, any)
        } else {
            match contribs_model(r.contributions@, values, logits, 0) {
                None => RunModel::Failed { rule: i },
                Some(l) => if r.stop {
                    RunModel::Logits(l)
                } else {
                    rules_model(t, values, i + 1, l, true)
                },
            }
        }
    }
}

/// Every index a task's rules read or write is in range for `n_fields`
/// field values, and there is one base logit per option.
pub open spec fn task_runnable(t: CTask, n_fields: int) -> bool {
    &&& t.base@.len() == t.options@.len()
    &&& forall|i: int| 0 <= i < t.rules@.len() ==> cond_fields_below((#[trigger] t.rules@[i]).when, n_fields)
    &&& forall|i: int, j: int|
        0 <= i < t.rules@.len() && 0 <= j < t.rules@[i].contributions@.len() ==> contrib_in_range(
            #[trigger] t.rules@[i].contributions@[j],
            t.options@.len() as int,
            n_fields,
        )
}

/// How a run of the rules ended.
#[derive(Debug)]
pub enum RulesRun {
    /// One logit per option, in option order.
    Logits(Vec<Decimal>),
    /// The request cannot be answered for this program and projection.
    Failed(String),
    /// A cancellation was observed before the named rule.
    Cancelled(String),
}

/// Run the rules in order over the field values, asking `cancelled` before
/// each rule and stopping there when it answers true.
pub fn run_rules<F: Fn(usize) -> bool>(task: &CTask, values: &Vec<FieldValue>, cancelled: &F) -> (r:
    RulesRun)
    requires
        task_runnable(*task, values@.len() as int),
        forall|i: usize| call_requires(*cancelled, (i,)),
    ensures
        r matches RulesRun::Logits(l) ==> rules_model(*task, values@, 0, views(task.base@), false)
            == RunModel::Logits(views(l@)) && l@.len() == task.options@.len(),
        r matches RulesRun::Failed(m) ==> match rules_model(
            *task,
            values@,
            0,
            views(task.base@),
            false,
        ) {
            RunModel::Failed { rule } => exists|e: Seq<char>|
                m@ == "task "@ + debug_text(task.name@) + ", rule "@ + debug_text(
                    task.rules@[rule].name@,
                ) + ": "@ + e,
            RunModel::NoMatch => m@ == "task "@ + debug_text(task.name@) + ": no rule applied"@,
            RunModel::Logits(_) => false,
        },
        r matches RulesRun::Cancelled(m) ==> exists|i: int|
            0 <= i < task.rules@.len() && call_ensures(*cancelled, (i as usize,), true) && m@
                == "before rule "@ + debug_text(task.rules@[i].name@),
{
    let mut logits: Vec<Decimal> = task.base.clone();
    proof {
        assert(logits@ == task.base@);
    }
    let mut any = false;
    let n = task.rules.len();
    let mut i: usize = 0;
    while i < n
        invariant
            n == task.rules@.len(),
            i <= n,
            task_runnable(*task, values@.len() as int),
            forall|k: usize| call_requires(*cancelled, (k,)),
            logits@.len() == task.options@.len(),
            rules_model(*task, values@, 0, views(task.base@), false) == rules_model(
                *task,
                values@,
                i as int,
                views(logits@),
                any,
            ),
        decreases n - i,
    {
        let rule = &task.rules[i];
        if cancelled(i) {
            return RulesRun::Cancelled(join("before rule ", debug_quoted(rule.name.as_str()).as_str()));
        }
        if holds(&rule.when, values) {
            let ghost before = views(logits@);
            let nc = rule.contributions.len();
            let mut j: usize = 0;
            while j < nc
                invariant
                    nc == rule.contributions@.len(),
                    *rule == task.rules@[i as int],
                    cond_holds(task.rules@[i as int].when, values@),
                    rules_model(*task, values@, 0, views(task.base@), false) == rules_model(
                        *task,
                        values@,
                        i as int,
                        before,
                        any,
                    ),
                    i < n,
                    n == task.rules@.len(),
                    j <= nc,
                    task_runnable(*task, values@.len() as int),
                    logits@.len() == task.options@.len(),
                    contribs_model(rule.contributions@, values@, before, 0) == contribs_model(
                        rule.contributions@,
                        values@,
                        views(logits@),
                        j as int,
                    ),
                decreases nc - j,
            {
                proof {
                    assert(contrib_in_range(
                        task.rules@[i as int].contributions@[j as int],
                        task.options@.len() as int,
                        values@.len() as int,
                    ));
                }
                let ghost at = views(logits@);
                match apply(&rule.contributions[j], values, &mut logits, task) {
                    Err(e) => {
                        proof {
                            assert(applied(rule.contributions@[j as int], values@, at) is None);
                            assert(contribs_model(rule.contributions@, values@, at, j as int) is None);
                            assert(cond_holds(task.rules@[i as int].when, values@));
                            assert(rules_model(*task, values@, i as int, before, any) == RunModel::Failed {
                                rule: i as int,
                            });
                        }
                        let mut m = join3("task ", debug_quoted(task.name.as_str()).as_str(), ", rule ");
                        m.append(debug_quoted(rule.name.as_str()).as_str());
                        m.append(": ");
                        m.append(e.as_str());
                        proof {
                            assert(m@ == "task "@ + debug_text(task.name@) + ", rule "@ + debug_text(
                                task.rules@[i as int].name@,
                            ) + ": "@ + e@);
                            let w = e@;
                            assert(m@ == "task "@ + debug_text(task.name@) + ", rule "@ + debug_text(
                                task.rules@[i as int].name@,
                            ) + ": "@ + w);
                        }
                        return RulesRun::Failed(m);
                    },
                    Ok(()) => {},
                }
                j = j + 1;
            }
            any = true;
            if rule.stop {
                return RulesRun::Logits(logits);
            }
        }
        i = i + 1;
    }
    match task.on_no_match {
        NoMatch::Fail => if !any {
            return RulesRun::Failed(join3("task ", debug_quoted(task.name.as_str()).as_str(), ": no rule applied"));
        },
        _ => {},
    }
    RulesRun::Logits(logits)
}

proof fn lemma_position_below(s: Seq<Seq<char>>, x: Seq<char>)
    ensures
        position_of(s, x) >= 0 ==> position_of(s, x) < s.len() && s[position_of(s, x)] == x,
{
}

proof fn lemma_cond_runnable(t: Task, c: Condition, cc: CCond, depth: int)
    requires
        cond_ok(t, c, depth),
        cond_compiled(t, c, cc),
    ensures
        cond_fields_below(cc, t.fields@.len() as int),
    decreases c,
{
    match c {
        Condition::ContainsAny { field, .. } => {
            lemma_position_below(field_names(t), field@);
        },
        Condition::Equals { field, .. } => {
            lemma_position_below(field_names(t), field@);
        },
        Condition::Compare { field, .. } => {
            lemma_position_below(field_names(t), field@);
        },
        Condition::All(ms) => {
            let cs = cc->All_0;
            assert forall|i: int| 0 <= i < cs@.len() implies cond_fields_below(
                #[trigger] cs@[i],
                t.fields@.len() as int,
            ) by {
                lemma_cond_runnable(t, ms@[i], cs@[i], depth + 1);
            }
        },
        Condition::Any(ms) => {
            let cs = cc->Any_0;
            assert forall|i: int| 0 <= i < cs@.len() implies cond_fields_below(
                #[trigger] cs@[i],
                t.fields@.len() as int,
            ) by {
                lemma_cond_runnable(t, ms@[i], cs@[i], depth + 1);
            }
        },
        Condition::Not(b) => {
            lemma_cond_runnable(t, *b, *cc->Not_0, depth + 1);
        },
        Condition::Always => {},
    }
}

proof fn lemma_adds_runnable(t: Task, m: TextMap<Decimal>, may_be_empty: bool)
    requires
        adds_ok(t, m, may_be_empty),
    ensures
        indices_below(adds_of(t, m), t.options@.len() as int),
{
    assert forall|i: int| 0 <= i < adds_of(t, m).len() implies (#[trigger] adds_of(t, m)[i]).0
        < t.options@.len() by {
        lemma_position_below(option_names(t), m.keys()[i]);
    }
}

proof fn lemma_lookup_runnable(t: Task, entries: Seq<LookupEntry>, table: TextMap<Vec<(usize, Decimal)>>)
    requires
        forall|e: int|
            0 <= e < entries.len() ==> adds_ok(t, (#[trigger] entries[e]).add, false),
        distinct(entry_names(entries)),
        table.keys().len() == entries.len(),
        forall|e: int|
            0 <= e < entries.len() ==> (table.lookup(#[trigger] entries[e].key@) matches Some(a) && a@
                == adds_of(t, entries[e].add)),
    ensures
        forall|k: Seq<char>|
            #[trigger] table.lookup(k) matches Some(a) ==> indices_below(a@, t.options@.len() as int),
{
    let names = entry_names(entries);
    let keys = table.keys();
    assert(names.no_duplicates()) by {
        assert forall|i: int, j: int| 0 <= i < names.len() && 0 <= j < names.len() && i != j implies names[i]
            != names[j] by {
            if i < j {
                assert(names[i] != names[j]);
            } else {
                assert(names[j] != names[i]);
            }
        }
    }
    names.unique_seq_to_set();
    keys.lemma_cardinality_of_set();
    assert(names.to_set().subset_of(keys.to_set())) by {
        assert forall|x: Seq<char>| names.to_set().contains(x) implies keys.to_set().contains(x) by {
            let e = choose|e: int| 0 <= e < names.len() && names[e] == x;
            assert(entries[e].key@ == x);
            assert(table.lookup(x) is Some);
            let p = table.position(x)->0;
            assert(keys[p] == x);
        }
    }
    vstd::set_lib::lemma_len_subset(names.to_set(), keys.to_set());
    vstd::set_lib::lemma_subset_equality(names.to_set(), keys.to_set());
    assert forall|k: Seq<char>| (#[trigger] table.lookup(k)) is Some implies indices_below(
        table.lookup(k)->0@,
        t.options@.len() as int,
    ) by {
        let p = table.position(k)->0;
        assert(keys[p] == k);
        assert(keys.to_set().contains(k));
        assert(names.to_set().contains(k));
        let e = choose|e: int| 0 <= e < names.len() && names[e] == k;
        assert(entries[e].key@ == k);
        lemma_adds_runnable(t, entries[e].add, false);
    }
}

/// A task of a valid program, once checked, can be run: every field its
/// conditions and contributions read is one of its fields, every option a
/// contribution adds to is one of its options, and there is one base logit
/// per option.
pub proof fn law_checked_tasks_are_runnable(t: Task, ct: CTask)
    requires
        task_ok(t),
        task_compiled(t, ct),
    ensures
        task_runnable(ct, ct.fields@.len() as int),
{
    assert(ct.options@.len() == t.options@.len()) by {
        assert(texts(ct.options@).len() == option_names(t).len());
    }
    assert forall|i: int| 0 <= i < ct.rules@.len() implies cond_fields_below(
        (#[trigger] ct.rules@[i]).when,
        ct.fields@.len() as int,
    ) by {
        assert(rule_ok(t, t.rules@[i]));
        assert(rule_compiled(t, t.rules@[i], ct.rules@[i]));
        lemma_cond_runnable(t, t.rules@[i].when, ct.rules@[i].when, 0);
    }
    assert forall|i: int, j: int|
        0 <= i < ct.rules@.len() && 0 <= j < ct.rules@[i].contributions@.len() implies contrib_in_range(
        #[trigger] ct.rules@[i].contributions@[j],
        ct.options@.len() as int,
        ct.fields@.len() as int,
    ) by {
        let r = t.rules@[i];
        assert(rule_ok(t, r));
        assert(rule_compiled(t, r, ct.rules@[i]));
        let c = r.contributions@[j];
        assert(contrib_ok(t, c));
        assert(contrib_compiled(t, c, ct.rules@[i].contributions@[j]));
        match c {
            Contribution::Add(m) => {
                lemma_adds_runnable(t, m, false);
            },
            Contribution::Linear { field, coefficients } => {
                lemma_position_below(field_names(t), field@);
                lemma_adds_runnable(t, coefficients, false);
            },
            Contribution::Lookup { field, entries, .. } => {
                lemma_position_below(field_names(t), field@);
                let table = ct.rules@[i].contributions@[j]->Lookup_table;
                assert forall|e: int| 0 <= e < entries@.len() implies adds_ok(
                    t,
                    (#[trigger] entries@[e]).add,
                    false,
                ) by {
                    let _ = entries@[e].key@;
                }
                lemma_lookup_runnable(t, entries@, table);
            },
        }
    }
}

} // verus!
