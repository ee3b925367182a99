//! Answering one request: the projection's size is checked against the
//! program's limit, the parsed projection selects a task and supplies its
//! fields, and the task's rules give one logit per option. The host's
//! cancellation signal is asked before parsing, after the fields are read
//! and before each rule, and evaluation stops where it answers true.
use vstd::prelude::*;

use crate::bounded::{parse_error_text, ParseError};
use crate::canonical::Json;
use crate::decimal::Decimal;
use crate::order::texts;
use crate::rules::backend::RulesBackend;
use crate::rules::eval::{views, FieldValue};
use crate::rules::program::{distinct, option_names, program_ok, task_compiled, task_ok, CField, CTask};
use crate::rules::projection::task_runnable;
use crate::rules::projection::{
    chosen, field_read_as, fields_model, law_checked_tasks_are_runnable, read_fields, rules_model, run_rules,
    select_task, values_of, FieldModel, RulesRun, RunModel,
};
use crate::text::{debug_quoted, debug_text, decimal_text, join, join3, join4, u64_text, usize_text};
use crate::text_map::TextMap;

verus! {

/// Where the host's cancellation signal is asked.
#[derive(Debug, Clone, Copy, PartialEq, Eq)]
pub enum Point {
    BeforeParse,
    AfterFields,
    /// Before the rule at this position.
    BeforeRule(usize),
}

/// How one request was answered.
#[derive(Debug)]
pub enum Evaluated {
    /// One logit per option of the task, keyed by the option.
    Output(TextMap<Decimal>),
    /// The request cannot be answered; it recurs for the same program and
    /// projection.
    Failed(String),
    /// Cancellation was observed at the named point; evaluation stopped
    /// there.
    Cancelled(String),
}

/// What is decided before any rule runs: the selected task, or the refusal
/// of an oversized projection, of one that did not parse, of one that
/// selects no task, or of a field that cannot be read.
pub open spec fn selection(tasks: Seq<CTask>, max_projection_bytes: u64, len: nat, parsed: Result<Json, ParseError>) -> Result<
    int,
    Seq<char>,
> {
    if len > max_projection_bytes {
        Err(
            "projection of "@ + decimal_text(len) + " bytes exceeds the program's limit of "@ + decimal_text(
                max_projection_bytes as nat,
            ),
        )
    } else {
        match parsed {
            Err(e) => Err("projection refused: "@ + parse_error_text(e)),
            Ok(doc) => match chosen(tasks, doc) {
                Err(m) => Err(m),
                Ok(i) => match fields_model(tasks[i].fields@, values_of(doc), 0) {
                    Err(m) => Err("task "@ + debug_text(tasks[i].name@) + ": "@ + m),
                    Ok(_) => Ok(i),
                },
            },
        }
    }
}

/// The fields of the selected task as the projection gives them.
pub open spec fn selected_fields(tasks: Seq<CTask>, parsed: Result<Json, ParseError>, i: int) -> Seq<FieldModel> {
    match parsed {
        Ok(doc) => match fields_model(tasks[i].fields@, values_of(doc), 0) {
            Ok(ms) => ms,
            Err(_) => Seq::empty(),
        },
        Err(_) => Seq::empty(),
    }
}

/// Values that stand for these fields.
pub open spec fn values_as(vs: Seq<FieldValue>, ms: Seq<FieldModel>) -> bool {
    vs.len() == ms.len() && forall|k: int| 0 <= k < ms.len() ==> field_read_as(#[trigger] vs[k], ms[k])
}

/// How running task `t`'s rules over `vs` fails, with message `m`.
pub open spec fn run_failure(t: CTask, vs: Seq<FieldValue>, m: Seq<char>) -> bool {
    match rules_model(t, vs, 0, views(t.base@), false) {
        RunModel::Failed { rule } => exists|e: Seq<char>|
            m == "task "@ + debug_text(t.name@) + ", rule "@ + debug_text(t.rules@[rule].name@) + ": "@ + e,
        RunModel::NoMatch => m == "task "@ + debug_text(t.name@) + ": no rule applied"@,
        RunModel::Logits(_) => false,
    }
}

/// `map` holds logit `ls[k]` at option `options[k]`, and nothing else.
pub open spec fn logits_by_option(map: TextMap<Decimal>, options: Seq<String>, ls: Seq<int>) -> bool {
    &&& ls.len() == options.len()
    &&& forall|k: int| 0 <= k < options.len() ==> (map.lookup(#[trigger] options[k]@) matches Some(d) && d@ == ls[k])
    &&& forall|t: Seq<char>| #[trigger] map.lookup(t) is Some ==> texts(options).contains(t)
}

/// The message of a cancellation observed before parsing.
pub open spec fn cancelled_before_parse<F: Fn(Point) -> bool>(r: Evaluated, cancelled: F) -> bool {
    r matches Evaluated::Cancelled(m) && m@ == "before parsing the projection"@ && call_ensures(
        cancelled,
        (Point::BeforeParse,),
        true,
    )
}

/// The option-keyed map of the logits.
fn by_option(options: &Vec<String>, logits: &Vec<Decimal>) -> (r: TextMap<Decimal>)
    requires
        logits@.len() == options@.len(),
        distinct(texts(options@)),
    ensures
        logits_by_option(r, options@, views(logits@)),
{
    let mut map: TextMap<Decimal> = TextMap::new();
    proof {
        assert forall|t: Seq<char>| #[trigger] map.lookup(t) is None by {
            assert(map.keys().len() == 0);
        }
    }
    let n = options.len();
    let mut k: usize = 0;
    while k < n
        invariant
            n == options@.len(),
            logits@.len() == n,
            distinct(texts(options@)),
            k <= n,
            forall|j: int| 0 <= j < k ==> (map.lookup(#[trigger] options@[j]@) matches Some(d) && d@ == logits@[j]@),
            forall|t: Seq<char>| #[trigger] map.lookup(t) is Some ==> texts(options@).take(k as int).contains(t),
        decreases n - k,
    {
        let ghost before = map;
        map.put(String::from_str(options[k].as_str()), logits[k]);
        proof {
            assert forall|j: int| 0 <= j < k + 1 implies (map.lookup(#[trigger] options@[j]@) matches Some(d) && d@
                == logits@[j]@) by {
                if j < k {
                    assert(texts(options@)[j] != texts(options@)[k as int]);
                }
            }
            assert forall|t: Seq<char>| #[trigger] map.lookup(t) is Some implies texts(options@).take(
                k + 1,
            ).contains(t) by {
                if t == options@[k as int]@ {
                    assert(texts(options@).take(k + 1)[k as int] == t);
                } else {
                    assert(before.lookup(t) is Some);
                    let w = choose|w: int| 0 <= w < k && texts(options@).take(k as int)[w] == t;
                    assert(texts(options@).take(k + 1)[w] == t);
                }
            }
        }
        k = k + 1;
    }
    proof {
        assert(texts(options@).take(n as int) =~= texts(options@));
        assert(views(logits@).len() == n);
    }
    map
}

/// Run the selected task's rules once its fields are read: the signal is
/// asked after the fields and before each rule.
fn answer_selected<F: Fn(Point) -> bool>(task: &CTask, values: &Vec<FieldValue>, cancelled: &F) -> (r: Evaluated)
    requires
        task_runnable(*task, values@.len() as int),
        distinct(texts(task.options@)),
        forall|p: Point| call_requires(*cancelled, (p,)),
    ensures
        r matches Evaluated::Cancelled(m) ==> (m@ == "after field validation"@ && call_ensures(
            *cancelled,
            (Point::AfterFields,),
            true,
        )) || exists|k: int|
            0 <= k < task.rules@.len() && call_ensures(*cancelled, (Point::BeforeRule(k as usize),), true) && m@
                == "before rule "@ + debug_text(task.rules@[k].name@),
        r matches Evaluated::Failed(m) ==> run_failure(*task, values@, m@),
        r matches Evaluated::Output(map) ==> rules_model(*task, values@, 0, views(task.base@), false) matches RunModel::Logits(
            ls,
        ) && logits_by_option(map, task.options@, ls),
{
    if cancelled(Point::AfterFields) {
        return Evaluated::Cancelled(String::from_str("after field validation"));
    }
    let before_rule = |k: usize| -> (b: bool)
        requires
            call_requires(cancelled, (Point::BeforeRule(k),)),
        ensures
            call_ensures(cancelled, (Point::BeforeRule(k),), b),
        { cancelled(Point::BeforeRule(k)) };
    match run_rules(task, values, &before_rule) {
        RulesRun::Logits(l) => {
            Evaluated::Output(by_option(&task.options, &l))
        },
        RulesRun::Failed(m) => Evaluated::Failed(m),
        RulesRun::Cancelled(m) => Evaluated::Cancelled(m),
    }
}

/// Reading every field from the `i`th on gives one value per field.
proof fn lemma_fields_len(fields: Seq<CField>, values: Seq<(String, Json)>, i: int)
    requires
        0 <= i <= fields.len(),
    ensures
        fields_model(fields, values, i) matches Ok(ms) ==> ms.len() == fields.len() - i,
    decreases fields.len() - i,
{
    if i < fields.len() {
        lemma_fields_len(fields, values, i + 1);
    }
}

/// Everything decided before any rule runs: the selected task and its
/// field values, or the refusal.
fn select_and_read(tasks: &Vec<CTask>, max: u64, len: usize, parsed: Result<Json, ParseError>) -> (r: Result<
    (usize, Vec<FieldValue>),
    String,
>)
    ensures
        match selection(tasks@, max, len as nat, parsed) {
            Err(x) => r matches Err(m) && m@ == x,
            Ok(i) => r matches Ok((j, vs)) && j == i && i < tasks@.len() && values_as(
                vs@,
                selected_fields(tasks@, parsed, i),
            ) && vs@.len() == tasks@[i].fields@.len(),
        },
{
    let ghost p0 = parsed;
    if len as u64 > max {
        let mut m = join3("projection of ", usize_text(len).as_str(), " bytes exceeds the program's limit of ");
        m.append(u64_text(max).as_str());
        return Err(m);
    }
    let doc = match parsed {
        Ok(d) => d,
        Err(e) => {
            return Err(join("projection refused: ", e.message().as_str()));
        },
    };
    let sel = select_task(tasks, &doc);
    let i = match sel {
        Ok(i) => i,
        Err(e) => {
            return Err(e);
        },
    };

    let task = &tasks[i];
    match read_fields(task, &doc) {
        Ok(v) => {
            proof {
                assert(p0 == Ok::<Json, ParseError>(doc));
                assert(!(len > max));
                assert(chosen(tasks@, doc) == Ok::<int, Seq<char>>(i as int));
                assert(fields_model(tasks@[i as int].fields@, values_of(doc), 0) is Ok);
                assert(selection(tasks@, max, len as nat, p0) == Ok::<int, Seq<char>>(i as int));
                lemma_fields_len(tasks@[i as int].fields@, values_of(doc), 0);
            }
            Ok((i, v))
        },
        Err(e) => {
            let m = join4("task ", debug_quoted(task.name.as_str()).as_str(), ": ", e.as_str());
            proof {
                assert(p0 == Ok::<Json, ParseError>(doc));
            }
            Err(m)
        },
    }
}

impl RulesBackend {
    /// Answer one request. `projection` is the request's canonical
    /// projection and `parsed` what it parses to under the program's
    /// projection limits; `cancelled` is the host's cancellation signal,
    /// asked before parsing, after the fields are read and before each
    /// rule.
    pub fn evaluate<F: Fn(Point) -> bool>(
        &self,
        projection: &[u8],
        parsed: Result<Json, ParseError>,
        cancelled: &F,
    ) -> (r: Evaluated)
        requires
            forall|p: Point| call_requires(*cancelled, (p,)),
        ensures
            ({
                let tasks = self.tasks_view();
                let max = self.program_view().limits.max_projection_bytes;
                let sel = selection(tasks, max, projection@.len(), parsed);
                &&& sel matches Err(x) ==> (r matches Evaluated::Failed(m) && m@ == x) || cancelled_before_parse(
                    r,
                    *cancelled,
                )
                &&& r matches Evaluated::Cancelled(m) ==> cancelled_before_parse(r, *cancelled) || (
                sel matches Ok(i) && ((m@ == "after field validation"@ && call_ensures(
                    *cancelled,
                    (Point::AfterFields,),
                    true,
                )) || exists|k: int|
                    0 <= k < tasks[i].rules@.len() && call_ensures(
                        *cancelled,
                        (Point::BeforeRule(k as usize),),
                        true,
                    ) && m@ == "before rule "@ + debug_text(tasks[i].rules@[k].name@)))
                &&& r matches Evaluated::Failed(m) ==> (sel matches Err(x) && m@ == x) || (sel matches Ok(i)
                    && exists|vs: Seq<FieldValue>|
                    values_as(vs, selected_fields(tasks, parsed, i)) && run_failure(tasks[i], vs, m@))
                &&& r matches Evaluated::Output(map) ==> sel matches Ok(i) && exists|vs: Seq<FieldValue>|
                    values_as(vs, selected_fields(tasks, parsed, i)) && (rules_model(
                        tasks[i],
                        vs,
                        0,
                        views(tasks[i].base@),
                        false,
                    ) matches RunModel::Logits(ls) && logits_by_option(map, tasks[i].options@, ls))
            }),
    {
        if cancelled(Point::BeforeParse) {
            return Evaluated::Cancelled(String::from_str("before parsing the projection"));
        }
        let tasks = self.tasks();
        let max = self.program().limits.max_projection_bytes;
        let (i, values) = match select_and_read(tasks, max, projection.len(), parsed) {
            Ok(x) => x,
            Err(m) => {
                return Evaluated::Failed(m);
            },
        };
        let task = &tasks[i];
        proof {
            let t = self.program_view().tasks@[i as int];
            law_checked_tasks_are_runnable(t, tasks@[i as int]);
            assert(task_ok(t));
            assert(texts(task.options@) == option_names(t));
        }
        answer_selected(task, &values, cancelled)
    }
}

} // verus!
