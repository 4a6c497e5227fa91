use logicbridge::condition::eval_condition;
use logicbridge::value::value_eq;
use logicbridge::{Condition, Event, Value};

fn ev(fields: Vec<(&str, Value)>) -> Event {
    Event { entries: fields.into_iter().map(|(k, v)| (k.to_string(), v)).collect() }
}

fn holds(c: &Condition, fields: Vec<(&str, Value)>) -> bool {
    eval_condition(c, &ev(fields))
}

#[test]
fn equals_is_type_strict() {
    // A numeric 1 is not equal to the string "1", and the other way round.
    let c = Condition::Equals { field: "x".to_string(), value: Value::Str("1".to_string()) };
    assert!(!holds(&c, vec![("x", Value::Int(1))]));
    let c2 = Condition::Equals { field: "x".to_string(), value: Value::Int(1) };
    assert!(!holds(&c2, vec![("x", Value::Str("1".to_string()))]));
    assert!(holds(&c2, vec![("x", Value::Int(1))]));
}

#[test]
fn equals_missing_field_is_false() {
    let c = Condition::Equals { field: "absent".to_string(), value: Value::Null };
    assert!(!holds(&c, vec![("x", Value::Null)]));
}

#[test]
fn comparisons_on_missing_field_are_false() {
    let gt = Condition::GreaterThan { field: "amount".to_string(), value: 10 };
    let lt = Condition::LessThan { field: "amount".to_string(), value: 10 };
    assert!(!holds(&gt, vec![]));
    assert!(!holds(&lt, vec![]));
}

#[test]
fn comparisons_on_non_numeric_field_are_false() {
    let gt = Condition::GreaterThan { field: "amount".to_string(), value: 10 };
    let lt = Condition::LessThan { field: "amount".to_string(), value: 10 };
    let s = vec![("amount", Value::Str("100".to_string()))];
    assert!(!holds(&gt, s.clone()));
    assert!(!holds(&lt, s));
    assert!(holds(
        &Condition::GreaterThan { field: "amount".to_string(), value: 10 },
        vec![("amount", Value::Int(11))]
    ));
    assert!(holds(
        &Condition::LessThan { field: "amount".to_string(), value: 10 },
        vec![("amount", Value::Int(9))]
    ));
}

#[test]
fn and_short_circuits_on_first_false_child() {
    // The first child is false, so the conjunction is false whatever the
    // second child would evaluate to.
    let c = Condition::And {
        conditions: vec![
            Condition::Equals { field: "a".to_string(), value: Value::Int(1) },
            Condition::GreaterThan { field: "a".to_string(), value: 0 },
        ],
    };
    assert!(!holds(&c, vec![("a", Value::Int(2))]));
}

#[test]
fn empty_and_is_true_empty_or_is_false() {
    assert!(holds(&Condition::And { conditions: vec![] }, vec![]));
    assert!(!holds(&Condition::Or { conditions: vec![] }, vec![]));
}

#[test]
fn or_takes_first_true_child() {
    let c = Condition::Or {
        conditions: vec![
            Condition::Equals { field: "a".to_string(), value: Value::Int(1) },
            Condition::Equals { field: "a".to_string(), value: Value::Int(2) },
        ],
    };
    assert!(holds(&c, vec![("a", Value::Int(1))]));
    assert!(holds(&c, vec![("a", Value::Int(2))]));
    assert!(!holds(&c, vec![("a", Value::Int(3))]));
}

#[test]
fn not_negates_its_child() {
    let c = Condition::Not {
        condition: Box::new(Condition::Equals {
            field: "a".to_string(),
            value: Value::Int(1),
        }),
    };
    assert!(!holds(&c, vec![("a", Value::Int(1))]));
    assert!(holds(&c, vec![("a", Value::Int(2))]));
}

#[test]
fn contains_finds_substrings() {
    let c = Condition::Contains { field: "name".to_string(), value: "ell".to_string() };
    assert!(holds(&c, vec![("name", Value::Str("hello".to_string()))]));
    assert!(!holds(&c, vec![("name", Value::Str("world".to_string()))]));
    // A non-string field value is false, never an error.
    assert!(!holds(&c, vec![("name", Value::Int(5))]));
    // The empty substring is contained in every string.
    let c2 = Condition::Contains { field: "name".to_string(), value: String::new() };
    assert!(holds(&c2, vec![("name", Value::Str("abc".to_string()))]));
}

#[test]
fn in_checks_structural_membership() {
    let c = Condition::In {
        field: "kind".to_string(),
        values: vec![Value::Str("a".to_string()), Value::Int(1)],
    };
    assert!(holds(&c, vec![("kind", Value::Str("a".to_string()))]));
    assert!(holds(&c, vec![("kind", Value::Int(1))]));
    // Membership is type strict: the string "1" is not the number 1.
    assert!(!holds(&c, vec![("kind", Value::Str("1".to_string()))]));
    assert!(!holds(&c, vec![]));
}

#[test]
fn values_compare_structurally() {
    assert!(value_eq(&Value::Null, &Value::Null));
    assert!(!value_eq(&Value::Null, &Value::Bool(false)));
    assert!(!value_eq(&Value::Int(0), &Value::Bool(false)));
    let a = Value::List(vec![Value::Int(1), Value::Str("x".to_string())]);
    let b = Value::List(vec![Value::Int(1), Value::Str("x".to_string())]);
    let c = Value::List(vec![Value::Int(1), Value::Str("y".to_string())]);
    let d = Value::List(vec![Value::Int(1)]);
    assert!(value_eq(&a, &b));
    assert!(!value_eq(&a, &c));
    assert!(!value_eq(&a, &d));
    let nested = Value::List(vec![Value::List(vec![Value::Bool(true)])]);
    let nested2 = Value::List(vec![Value::List(vec![Value::Bool(true)])]);
    assert!(value_eq(&nested, &nested2));
}

#[test]
fn objects_compare_structurally() {
    let obj = |entries: Vec<(&str, Value)>| {
        Value::Object(entries.into_iter().map(|(k, v)| (k.to_string(), v)).collect())
    };
    let a = obj(vec![("k", Value::Int(1)), ("l", Value::Str("x".to_string()))]);
    let b = obj(vec![("k", Value::Int(1)), ("l", Value::Str("x".to_string()))]);
    let different_value = obj(vec![("k", Value::Int(2)), ("l", Value::Str("x".to_string()))]);
    let different_key = obj(vec![("k", Value::Int(1)), ("m", Value::Str("x".to_string()))]);
    let shorter = obj(vec![("k", Value::Int(1))]);
    assert!(value_eq(&a, &b));
    assert!(!value_eq(&a, &different_value));
    assert!(!value_eq(&a, &different_key));
    assert!(!value_eq(&a, &shorter));
    assert!(!value_eq(&a, &Value::List(vec![Value::Int(1)])));
    let nested = obj(vec![("inner", obj(vec![("deep", Value::Bool(true))]))]);
    let nested2 = obj(vec![("inner", obj(vec![("deep", Value::Bool(true))]))]);
    let nested3 = obj(vec![("inner", obj(vec![("deep", Value::Bool(false))]))]);
    assert!(value_eq(&nested, &nested2));
    assert!(!value_eq(&nested, &nested3));
}

#[test]
fn equals_matches_object_values() {
    let literal = Value::Object(vec![("plan".to_string(), Value::Str("pro".to_string()))]);
    let c = Condition::Equals { field: "account".to_string(), value: literal };
    let same = Value::Object(vec![("plan".to_string(), Value::Str("pro".to_string()))]);
    let other = Value::Object(vec![("plan".to_string(), Value::Str("free".to_string()))]);
    assert!(holds(&c, vec![("account", same)]));
    assert!(!holds(&c, vec![("account", other)]));
}

#[test]
fn events_are_built_in_order() {
    let mut e = Event::new();
    assert!(e.get(&"k".to_string()).is_none());
    e.push("k".to_string(), Value::Int(1));
    e.push("other".to_string(), Value::Bool(true));
    assert!(value_eq(e.get(&"k".to_string()).unwrap(), &Value::Int(1)));
    assert!(value_eq(e.get(&"other".to_string()).unwrap(), &Value::Bool(true)));
}

#[test]
fn event_lookup_takes_first_binding() {
    let e = ev(vec![("k", Value::Int(1)), ("k", Value::Int(2))]);
    let got = e.get(&"k".to_string()).unwrap();
    assert!(value_eq(got, &Value::Int(1)));
    assert!(e.get(&"missing".to_string()).is_none());
}
