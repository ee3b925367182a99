use rustev::cli::adapter::{
    LabelRule, Labels, ParamRule, ParamValue, Rule, Select, TaskAdapterDoc, TASK_ADAPTER,
};
use rustev::text_map::TextMap;

fn map(pairs: &[(&str, &str)]) -> TextMap<String> {
    let mut m = TextMap::new();
    for (k, v) in pairs {
        m.insert_new(k.to_string(), v.to_string());
    }
    m
}

fn support_rule(otherwise: Option<String>) -> Rule {
    Rule::Param(ParamRule {
        action: "route_ticket".into(),
        param: "queue".into(),
        select: Select::Enum,
        map: map(&[
            ("billing", "billing"),
            ("billing-priority", "billing"),
            ("engineering", "integration_defect"),
            ("identity", "account_access"),
        ]),
        otherwise,
    })
}

fn support() -> TaskAdapterDoc {
    TaskAdapterDoc {
        schema: TASK_ADAPTER.into(),
        name: "support-routing".into(),
        version: "1".into(),
        labels: Labels {
            values: ["billing", "integration_defect", "account_access", "other"]
                .map(String::from)
                .to_vec(),
            prefixes: vec![],
        },
        rules: vec![support_rule(Some("other".into()))],
    }
}

fn params(v: Vec<(&str, ParamValue)>) -> TextMap<ParamValue> {
    let mut m = TextMap::new();
    for (k, x) in v {
        m.insert_new(k.to_string(), x);
    }
    m
}

#[test]
fn a_parameter_rule_maps_and_falls_back_to_otherwise() {
    let a = support();
    a.check().unwrap();
    let q = |s: &str| params(vec![("queue", ParamValue::Enum(s.into()))]);
    assert!(a.correct("route_ticket", &q("billing-priority"), "billing"));
    assert!(!a.correct("route_ticket", &q("billing-priority"), "other"));
    assert!(a.correct("route_ticket", &q("general"), "other"));
    // A missing parameter, another type or another action is never correct.
    assert!(!a.correct("route_ticket", &params(vec![]), "other"));
    let text = params(vec![("queue", ParamValue::Text("billing".into()))]);
    assert!(!a.correct("route_ticket", &text, "billing"));
    assert!(!a.correct("escalate", &q("billing"), "billing"));
    // Without `otherwise`, an unmapped value is never correct.
    let mut b = support();
    b.rules = vec![support_rule(None)];
    assert!(!b.correct("route_ticket", &q("general"), "other"));
}

#[test]
fn label_rules_first_ranked_and_label_shapes() {
    let a = TaskAdapterDoc {
        schema: TASK_ADAPTER.into(),
        name: "lodging".into(),
        version: "1".into(),
        labels: Labels { values: vec!["none".into()], prefixes: vec!["c-".into()] },
        rules: vec![
            Rule::Param(ParamRule {
                action: "present_ranked_lodging".into(),
                param: "ranking".into(),
                select: Select::FirstRanked,
                map: TextMap::new(),
                otherwise: None,
            }),
            Rule::Label(LabelRule { action: "no_eligible_lodging".into(), label: "none".into() }),
        ],
    };
    a.check().unwrap();
    let ranking = |e: Vec<&str>| {
        params(vec![("ranking", ParamValue::Ranking(e.into_iter().map(String::from).collect()))])
    };
    let r = ranking(vec!["c-1", "c-2"]);
    assert!(a.correct("present_ranked_lodging", &r, "c-1"));
    assert!(!a.correct("present_ranked_lodging", &r, "c-2"));
    assert!(!a.correct("present_ranked_lodging", &ranking(vec![]), "c-1"));
    assert!(a.correct("no_eligible_lodging", &params(vec![]), "none"));
    assert!(!a.correct("no_eligible_lodging", &params(vec![]), "c-1"));
    assert!(a.check_label("c-9").is_ok() && a.check_label("none").is_ok());
    assert!(a.check_label("x-1").is_err());
}

#[test]
fn invalid_adapters_are_refused() {
    let mut a = support();
    a.rules.push(support_rule(Some("other".into())));
    assert!(a.check().unwrap_err().contains("two rules"));
    let mut a = support();
    a.labels.values.clear();
    assert!(a.check().is_err());
    let mut a = support();
    a.name = "x".repeat(65);
    assert!(a.check().is_err());
}

#[test]
fn each_refusal_names_what_is_wrong() {
    let mut a = support();
    a.rules.push(support_rule(None));
    assert_eq!(a.check().unwrap_err(), "two rules for action \"route_ticket\"");
    let mut a = support();
    a.labels.values.clear();
    assert_eq!(a.check().unwrap_err(), "labels need at least one value or prefix");
    let mut a = support();
    a.name = "x".repeat(65);
    assert_eq!(a.check().unwrap_err(), "name is 1 to 64 bytes");
    let mut a = support();
    a.labels.values.push(String::new());
    assert_eq!(a.check().unwrap_err(), "a label value or prefix is 1 to 256 bytes");
    let mut a = support();
    a.rules = vec![Rule::Label(LabelRule { action: "x".into(), label: "y".repeat(257) })];
    assert_eq!(a.check().unwrap_err(), "a rule label is 1 to 256 bytes");
    assert_eq!(support().check_label("nope").unwrap_err(), "\"nope\" is not a label of adapter support-routing");
}

#[test]
fn an_integer_parameter_is_compared_as_its_decimal_text() {
    let a = TaskAdapterDoc {
        schema: TASK_ADAPTER.into(),
        name: "n".into(),
        version: "1".into(),
        labels: Labels { values: vec!["-12".into()], prefixes: vec![] },
        rules: vec![Rule::Param(ParamRule {
            action: "count".into(),
            param: "n".into(),
            select: Select::Integer,
            map: TextMap::new(),
            otherwise: None,
        })],
    };
    a.check().unwrap();
    assert!(a.correct("count", &params(vec![("n", ParamValue::Integer(-12))]), "-12"));
    assert!(!a.correct("count", &params(vec![("n", ParamValue::Integer(12))]), "-12"));
}
