use logicbridge::canon::canonical_bytes;
use logicbridge::{Action, Condition, Rule, RuleEngine, RuleSet, Value};
use sha2::Digest;

fn sample_ruleset(id: &str, outcome_val: &str, threshold: i64) -> RuleSet {
    RuleSet {
        rules: vec![Rule {
            id: id.to_string(),
            description: Some("a sample rule".to_string()),
            severity: Some("low".to_string()),
            tags: vec!["t1".to_string(), "t2".to_string()],
            when: Condition::GreaterThan { field: "amount".to_string(), value: threshold },
            action: Action {
                outcome: vec![("decision".to_string(), Value::Str(outcome_val.to_string()))],
            },
            generated_by_llm: false,
            prompt_sha: None,
        }],
        version: "1.0".to_string(),
        metadata: vec![("owner".to_string(), Value::Str("risk".to_string()))],
    }
}

fn hash_of(rs: RuleSet) -> String {
    let mut engine = RuleEngine::new();
    engine.load_ruleset(rs).unwrap();
    engine.get_ruleset_sha().unwrap().clone()
}

#[test]
fn hash_is_deterministic_for_identical_rulesets() {
    let h1 = hash_of(sample_ruleset("r1", "approve", 100));
    let h2 = hash_of(sample_ruleset("r1", "approve", 100));
    assert_eq!(h1, h2);
}

#[test]
fn hash_is_stable_under_reload() {
    let mut engine = RuleEngine::new();
    engine.load_ruleset(sample_ruleset("r1", "approve", 100)).unwrap();
    let h1 = engine.get_ruleset_sha().unwrap().clone();
    engine.load_ruleset(sample_ruleset("r1", "approve", 100)).unwrap();
    let h2 = engine.get_ruleset_sha().unwrap().clone();
    assert_eq!(h1, h2);
}

#[test]
fn hash_changes_with_rule_id() {
    let h1 = hash_of(sample_ruleset("r1", "approve", 100));
    let h2 = hash_of(sample_ruleset("r2", "approve", 100));
    assert_ne!(h1, h2);
}

#[test]
fn hash_changes_with_outcome_value() {
    let h1 = hash_of(sample_ruleset("r1", "approve", 100));
    let h2 = hash_of(sample_ruleset("r1", "deny", 100));
    assert_ne!(h1, h2);
}

#[test]
fn hash_changes_with_condition() {
    let h1 = hash_of(sample_ruleset("r1", "approve", 100));
    let h2 = hash_of(sample_ruleset("r1", "approve", 101));
    assert_ne!(h1, h2);
}

#[test]
fn hash_changes_with_version() {
    let mut a = sample_ruleset("r1", "approve", 100);
    a.version = "2.0".to_string();
    let h1 = hash_of(a);
    let h2 = hash_of(sample_ruleset("r1", "approve", 100));
    assert_ne!(h1, h2);
}

#[test]
fn hash_changes_with_metadata() {
    let mut a = sample_ruleset("r1", "approve", 100);
    a.metadata.push(("reviewed".to_string(), Value::Bool(true)));
    let h1 = hash_of(a);
    let h2 = hash_of(sample_ruleset("r1", "approve", 100));
    assert_ne!(h1, h2);
}

#[test]
fn hash_changes_with_object_metadata_value() {
    let object = |v: i64| {
        Value::Object(vec![("limit".to_string(), Value::Int(v))])
    };
    let mut a = sample_ruleset("r1", "approve", 100);
    a.metadata.push(("quota".to_string(), object(10)));
    let mut b = sample_ruleset("r1", "approve", 100);
    b.metadata.push(("quota".to_string(), object(11)));
    let mut c = sample_ruleset("r1", "approve", 100);
    c.metadata.push(("quota".to_string(), object(10)));
    let (ha, hb, hc) = (hash_of(a), hash_of(b), hash_of(c));
    assert_ne!(ha, hb);
    assert_eq!(ha, hc);
}

#[test]
fn hash_is_sha256_of_canonical_bytes() {
    let rs = sample_ruleset("r1", "approve", 100);
    let bytes = canonical_bytes(&rs);
    let mut hasher = sha2::Sha256::new();
    hasher.update(&bytes);
    let expected = format!("{:x}", hasher.finalize());
    let h = hash_of(sample_ruleset("r1", "approve", 100));
    assert_eq!(h, expected);
    assert_eq!(h.len(), 64);
    assert!(h.chars().all(|c| c.is_ascii_hexdigit()));
}

#[test]
fn canonical_bytes_are_deterministic() {
    let b1 = canonical_bytes(&sample_ruleset("r1", "approve", 100));
    let b2 = canonical_bytes(&sample_ruleset("r1", "approve", 100));
    assert_eq!(b1, b2);
    let b3 = canonical_bytes(&sample_ruleset("r1", "approve", 7));
    assert_ne!(b1, b3);
}
