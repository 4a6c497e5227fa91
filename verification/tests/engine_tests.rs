use logicbridge::{Action, Condition, EngineError, Event, Rule, RuleEngine, RuleSet, Value};

fn rule(id: &str, when: Condition, key: &str, val: &str) -> Rule {
    Rule {
        id: id.to_string(),
        description: None,
        severity: None,
        tags: vec![],
        when,
        action: Action { outcome: vec![(key.to_string(), Value::Str(val.to_string()))] },
        generated_by_llm: false,
        prompt_sha: None,
    }
}

fn ruleset(rules: Vec<Rule>) -> RuleSet {
    RuleSet { rules, version: "1.0".to_string(), metadata: vec![] }
}

fn event(fields: Vec<(&str, Value)>) -> Event {
    Event { entries: fields.into_iter().map(|(k, v)| (k.to_string(), v)).collect() }
}

fn equals(field: &str, value: Value) -> Condition {
    Condition::Equals { field: field.to_string(), value }
}

#[test]
fn evaluate_unloaded_is_execution_error() {
    let engine = RuleEngine::new();
    let ev = event(vec![("status", Value::Str("active".to_string()))]);
    let r = engine.evaluate(&ev);
    assert!(matches!(r, Err(EngineError::Execution(_))));
}

#[test]
fn evaluate_many_unloaded_is_execution_error() {
    let engine = RuleEngine::new();
    let ev = event(vec![("status", Value::Str("active".to_string()))]);
    let r = engine.evaluate_many(&vec![ev]);
    assert!(matches!(r, Err(EngineError::Execution(_))));
}

#[test]
fn evaluate_many_empty_batch_is_ok() {
    let engine = RuleEngine::new();
    let r = engine.evaluate_many(&vec![]).unwrap();
    assert_eq!(r.len(), 0);
}

#[test]
fn default_engine_has_no_hash() {
    let engine = RuleEngine::default();
    assert!(engine.get_ruleset_sha().is_none());
}

#[test]
fn duplicate_rule_ids_are_rejected() {
    let mut engine = RuleEngine::new();
    let rs = ruleset(vec![
        rule("r1", equals("a", Value::Int(1)), "decision", "approve"),
        rule("r1", equals("b", Value::Int(2)), "decision", "deny"),
    ]);
    let r = engine.load_ruleset(rs);
    match r {
        Err(EngineError::RuleValidation(msg)) => {
            // The message names the first duplicate id found in
            // declaration order.
            assert_eq!(msg, "Duplicate rule ID: r1");
        }
        other => panic!("expected a rule validation error, got {:?}", other),
    }
    assert!(engine.get_ruleset_sha().is_none());
}

#[test]
fn failed_load_keeps_previous_ruleset() {
    let mut engine = RuleEngine::new();
    let good = ruleset(vec![rule(
        "keep",
        equals("status", Value::Str("active".to_string())),
        "decision",
        "approve",
    )]);
    engine.load_ruleset(good).unwrap();
    let sha_before = engine.get_ruleset_sha().unwrap().clone();

    let bad = ruleset(vec![
        rule("dup", equals("a", Value::Int(1)), "decision", "x"),
        rule("dup", equals("a", Value::Int(1)), "decision", "y"),
    ]);
    let r = engine.load_ruleset(bad);
    assert!(matches!(r, Err(EngineError::RuleValidation(_))));

    assert_eq!(engine.get_ruleset_sha().unwrap(), &sha_before);
    let ev = event(vec![("status", Value::Str("active".to_string()))]);
    let d = engine.evaluate(&ev).unwrap().unwrap();
    assert_eq!(d.rule_id, "keep");
}

#[test]
fn end_to_end_equals_rule() {
    let mut engine = RuleEngine::new();
    let rs = ruleset(vec![rule(
        "r1",
        equals("status", Value::Str("active".to_string())),
        "decision",
        "approve",
    )]);
    engine.load_ruleset(rs).unwrap();

    let hit = event(vec![("status", Value::Str("active".to_string()))]);
    let d = engine.evaluate(&hit).unwrap().unwrap();
    assert_eq!(d.rule_id, "r1");
    assert_eq!(
        d.outcome,
        vec![("decision".to_string(), Value::Str("approve".to_string()))]
    );
    assert_eq!(d.matched_conditions, vec!["r1".to_string()]);
    assert_eq!(&d.rule_sha, engine.get_ruleset_sha().unwrap());

    let miss = event(vec![("status", Value::Str("inactive".to_string()))]);
    assert!(engine.evaluate(&miss).unwrap().is_none());
}

#[test]
fn end_to_end_and_rule() {
    let mut engine = RuleEngine::new();
    let when = Condition::And {
        conditions: vec![
            Condition::GreaterThan { field: "amount".to_string(), value: 1000 },
            equals("country", Value::Str("US".to_string())),
        ],
    };
    let rs = ruleset(vec![rule("high_us", when, "decision", "flag")]);
    engine.load_ruleset(rs).unwrap();

    let hit = event(vec![
        ("amount", Value::Int(1500)),
        ("country", Value::Str("US".to_string())),
    ]);
    let d = engine.evaluate(&hit).unwrap().unwrap();
    assert_eq!(d.rule_id, "high_us");

    let miss = event(vec![
        ("amount", Value::Int(1500)),
        ("country", Value::Str("CA".to_string())),
    ]);
    assert!(engine.evaluate(&miss).unwrap().is_none());
}

#[test]
fn rule_order_determines_outcome() {
    let mut engine = RuleEngine::new();
    // An empty `And` is vacuously true, so both rules match every event.
    let rs = ruleset(vec![
        rule("first", Condition::And { conditions: vec![] }, "decision", "approve"),
        rule("second", Condition::And { conditions: vec![] }, "decision", "deny"),
    ]);
    engine.load_ruleset(rs).unwrap();
    let d = engine.evaluate(&event(vec![])).unwrap().unwrap();
    assert_eq!(d.rule_id, "first");
    assert_eq!(
        d.outcome,
        vec![("decision".to_string(), Value::Str("approve".to_string()))]
    );
}

#[test]
fn evaluate_many_keeps_order_and_length() {
    let mut engine = RuleEngine::new();
    let rs = ruleset(vec![rule(
        "r1",
        equals("status", Value::Str("active".to_string())),
        "decision",
        "approve",
    )]);
    engine.load_ruleset(rs).unwrap();

    let events = vec![
        event(vec![("status", Value::Str("active".to_string()))]),
        event(vec![("status", Value::Str("inactive".to_string()))]),
        event(vec![("status", Value::Str("active".to_string()))]),
    ];
    let ds = engine.evaluate_many(&events).unwrap();
    assert_eq!(ds.len(), 3);
    assert_eq!(ds[0].as_ref().unwrap().rule_id, "r1");
    assert!(ds[1].is_none());
    assert_eq!(ds[2].as_ref().unwrap().rule_id, "r1");
}

#[test]
fn validator_accepts_the_closed_grammar() {
    let deep = Condition::Not {
        condition: Box::new(Condition::Or {
            conditions: vec![
                Condition::Contains { field: "f".to_string(), value: "x".to_string() },
                Condition::In { field: "g".to_string(), values: vec![Value::Null] },
            ],
        }),
    };
    let rs = ruleset(vec![rule("r1", deep, "decision", "approve")]);
    assert!(logicbridge::validate_dsl_safety(&rs).is_ok());
}
