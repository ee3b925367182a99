use rustev::canonical::Json;
use rustev::decimal::{Decimal, ONE_UNITS};
use rustev::definition::Operation;
use rustev::rules::program::{
    check, Condition, Contribution, Field, FieldType, NoMatch, ProgramCost, ProgramLimits, Rule,
    RulesProgram, Task,
};
use rustev::bounded::ParseError;
use rustev::canonical::canonical_value_bytes;
use rustev::rules::answer::{Evaluated, Point};
use rustev::rules::backend::RulesBackend;
use rustev::rules::projection::{read_fields, run_rules, select_task, RulesRun};
use rustev::text_map::TextMap;

fn dec(s: &str) -> Decimal {
    Decimal::parse(s).unwrap()
}

fn adds(pairs: &[(&str, &str)]) -> TextMap<Decimal> {
    let mut m = TextMap::new();
    for (k, v) in pairs {
        m.insert_new(k.to_string(), dec(v));
    }
    m
}

fn contains(terms: &[&str]) -> Condition {
    Condition::ContainsAny { field: "t".into(), terms: terms.iter().map(|t| t.to_string()).collect() }
}

fn rule(name: &str, when: Condition, add: &[(&str, &str)], stop: bool) -> Rule {
    Rule { name: name.into(), when, contributions: vec![Contribution::Add(adds(add))], stop }
}

fn program(fields: Vec<Field>, base: &[(&str, &str)], rules: Vec<Rule>, on_no_match: NoMatch) -> RulesProgram {
    RulesProgram {
        schema: "rustev.rules/1".into(),
        backend_id: "synthetic-unit".into(),
        limits: ProgramLimits { max_projection_bytes: 4096 },
        cost: ProgramCost { units_per_call: 0 },
        tasks: vec![Task {
            operation: Operation::Classify,
            task: "unit".into(),
            question: "SYNTHETIC unit question".into(),
            options: vec!["a".into(), "b".into(), "c".into()],
            interpretation: "SYNTHETIC unit-test program; authored logits.".into(),
            fields,
            base: adds(base),
            rules,
            on_no_match,
        }],
    }
}

fn text_field() -> Vec<Field> {
    vec![Field { name: "t".into(), reference: "input:t".into(), ty: FieldType::Text }]
}

fn obj(members: Vec<(&str, Json)>) -> Json {
    Json::Object(members.into_iter().map(|(k, v)| (k.to_string(), v)).collect())
}

fn projection(values: Json) -> Json {
    obj(vec![
        ("candidates", Json::Array(vec![])),
        ("instance", obj(vec![])),
        ("operation", Json::Str("classify".into())),
        ("options", Json::Array(vec![Json::Str("a".into()), Json::Str("b".into()), Json::Str("c".into())])),
        ("question", Json::Str("SYNTHETIC unit question".into())),
        ("task", Json::Str("unit".into())),
        ("values", values),
    ])
}

fn run(p: &RulesProgram, values: Json, cancel_at: Option<usize>) -> RulesRun {
    let tasks = check(p).unwrap();
    let doc = projection(values);
    let i = select_task(&tasks, &doc).unwrap();
    let v = read_fields(&tasks[i], &doc).unwrap();
    run_rules(&tasks[i], &v, &|k: usize| Some(k) == cancel_at)
}

fn logits(r: RulesRun) -> Vec<i128> {
    match r {
        RulesRun::Logits(l) => l.iter().map(|d| d.units() / ONE_UNITS).collect(),
        other => panic!("not logits: {other:?}"),
    }
}

fn text(s: &str) -> Json {
    obj(vec![("input:t", Json::Str(s.into()))])
}

#[test]
fn overlapping_rules_apply_in_order_until_a_stop() {
    let rules = vec![
        rule("first", contains(&["x"]), &[("a", "1")], false),
        rule("second", contains(&["y"]), &[("a", "2"), ("b", "1")], true),
        rule("third", contains(&["x"]), &[("c", "5")], false),
    ];
    let p = program(text_field(), &[], rules, NoMatch::Base);
    assert_eq!(logits(run(&p, text("x y"), None)), vec![3, 1, 0]);
    assert_eq!(logits(run(&p, text("x"), None)), vec![1, 0, 5]);
}

#[test]
fn no_match_returns_base_or_fails_as_declared() {
    let p = program(text_field(), &[("c", "2")], vec![rule("r", contains(&["zzz"]), &[("a", "1")], false)], NoMatch::Base);
    assert_eq!(logits(run(&p, text("nothing"), None)), vec![0, 0, 2]);
    let p = program(text_field(), &[("c", "2")], vec![rule("r", contains(&["zzz"]), &[("a", "1")], false)], NoMatch::Fail);
    match run(&p, text("nothing"), None) {
        RulesRun::Failed(m) => assert_eq!(m, "task \"unit\": no rule applied"),
        other => panic!("{other:?}"),
    }
    assert_eq!(logits(run(&p, text("ZZZ"), None)), vec![1, 0, 2]);
}

#[test]
fn a_cancellation_stops_before_the_named_rule() {
    let rules = vec![
        rule("first", contains(&["x"]), &[("a", "1")], false),
        rule("second", contains(&["x"]), &[("b", "1")], false),
    ];
    let p = program(text_field(), &[], rules, NoMatch::Base);
    match run(&p, text("x"), Some(1)) {
        RulesRun::Cancelled(m) => assert_eq!(m, "before rule \"second\""),
        other => panic!("{other:?}"),
    }
}

#[test]
fn every_declared_field_is_read_before_any_rule() {
    let p = program(text_field(), &[], vec![], NoMatch::Base);
    let tasks = check(&p).unwrap();
    let doc = projection(obj(vec![]));
    assert_eq!(read_fields(&tasks[0], &doc).unwrap_err(), "missing field \"t\"");
    let doc = projection(obj(vec![("input:t", Json::Int(3))]));
    assert_eq!(read_fields(&tasks[0], &doc).unwrap_err(), "incompatible field \"t\": not Text");
    let doc = projection(obj(vec![("input:t", Json::Null)]));
    assert_eq!(read_fields(&tasks[0], &doc).unwrap_err(), "missing field \"t\"");
}

#[test]
fn a_projection_for_another_question_or_options_is_refused() {
    let p = program(text_field(), &[], vec![], NoMatch::Base);
    let tasks = check(&p).unwrap();
    let mut doc = projection(text("x"));
    if let Json::Object(m) = &mut doc {
        m[4].1 = Json::Str("another question".into());
    }
    assert_eq!(select_task(&tasks, &doc).unwrap_err(), "task \"unit\": question differs from the program's");
    let mut doc = projection(text("x"));
    if let Json::Object(m) = &mut doc {
        m[3].1 = Json::Array(vec![Json::Str("a".into()), Json::Str("b".into())]);
    }
    assert_eq!(select_task(&tasks, &doc).unwrap_err(), "task \"unit\": options differ from the program's");
    let mut doc = projection(text("x"));
    if let Json::Object(m) = &mut doc {
        m[5].1 = Json::Str("other".into());
    }
    assert_eq!(select_task(&tasks, &doc).unwrap_err(), "no rules for task \"other\"");
    let mut doc = projection(text("x"));
    if let Json::Object(m) = &mut doc {
        m[2].1 = Json::Str("rank".into());
    }
    assert_eq!(select_task(&tasks, &doc).unwrap_err(), "task \"unit\": operation differs from the program's");
    assert_eq!(select_task(&tasks, &obj(vec![])).unwrap_err(), "projection has no task");
}

fn answer(p: RulesProgram, values: Json, cancel_at: Option<Point>) -> Evaluated {
    let b = RulesBackend::new(p, b"{}").unwrap();
    let doc = projection(values);
    let bytes = canonical_value_bytes(&doc).unwrap();
    b.evaluate(&bytes, Ok(doc), &|q: Point| Some(q) == cancel_at)
}

#[test]
fn a_request_is_answered_with_one_logit_per_option() {
    let rules = vec![rule("first", contains(&["x"]), &[("a", "1"), ("c", "2")], false)];
    let p = program(text_field(), &[("b", "0.5")], rules, NoMatch::Base);
    match answer(p, text("x"), None) {
        Evaluated::Output(m) => {
            assert_eq!(m.len(), 3);
            assert_eq!(*m.get("a").unwrap(), dec("1"));
            assert_eq!(*m.get("b").unwrap(), dec("0.5"));
            assert_eq!(*m.get("c").unwrap(), dec("2"));
        }
        other => panic!("{other:?}"),
    }
}

#[test]
fn a_request_is_refused_before_any_rule() {
    let p = || program(text_field(), &[], vec![], NoMatch::Base);
    match answer(p(), obj(vec![]), None) {
        Evaluated::Failed(m) => assert_eq!(m, "task \"unit\": missing field \"t\""),
        other => panic!("{other:?}"),
    }
    let b = RulesBackend::new(p(), b"{}").unwrap();
    match b.evaluate(b"{}", Err(ParseError::Schema { message: "bad".into() }), &|_: Point| false) {
        Evaluated::Failed(m) => assert_eq!(m, "projection refused: schema: bad"),
        other => panic!("{other:?}"),
    }
    let mut small = p();
    small.limits.max_projection_bytes = 10;
    let b = RulesBackend::new(small, b"{}").unwrap();
    match b.evaluate(&[b' '; 11], Ok(obj(vec![])), &|_: Point| false) {
        Evaluated::Failed(m) => assert_eq!(m, "projection of 11 bytes exceeds the program's limit of 10"),
        other => panic!("{other:?}"),
    }
}

#[test]
fn a_request_stops_where_cancellation_is_observed() {
    let p = || program(text_field(), &[], vec![rule("only", contains(&["x"]), &[("a", "1")], false)], NoMatch::Base);
    match answer(p(), text("x"), Some(Point::BeforeParse)) {
        Evaluated::Cancelled(m) => assert_eq!(m, "before parsing the projection"),
        other => panic!("{other:?}"),
    }
    match answer(p(), text("x"), Some(Point::AfterFields)) {
        Evaluated::Cancelled(m) => assert_eq!(m, "after field validation"),
        other => panic!("{other:?}"),
    }
    match answer(p(), text("x"), Some(Point::BeforeRule(0))) {
        Evaluated::Cancelled(m) => assert_eq!(m, "before rule \"only\""),
        other => panic!("{other:?}"),
    }
}

#[test]
fn every_call_is_bounded_by_the_programs_units() {
    let mut p = program(text_field(), &[], vec![], NoMatch::Base);
    p.cost.units_per_call = 7;
    let b = RulesBackend::new(p, b"{}").unwrap();
    assert_eq!(b.cost_model(), rustev::run::CostModel::Bounded);
    assert_eq!(b.cost_bound(b"{}"), rustev::run::CostBound::Bounded { max_units: 7 });
    assert_eq!(b.charge(), rustev::run::Charge::Observed { units: 7 });
}
