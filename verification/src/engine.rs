//! The rule engine: it owns at most one loaded `(ruleset, content hash)`
//! pair, validates and hashes a ruleset on load, and evaluates events
//! against the loaded rules in declaration order — the first rule whose
//! condition matches yields the decision.

use vstd::prelude::*;
use vstd::string::StringExecFns;
use crate::canon::{ruleset_sha, ruleset_sha_spec};
use crate::condition::{eval, eval_condition};
use crate::event::Event;
use crate::model::{
    RuleSet, RuleSetModel, dup_before, first_duplicate, first_match, has_duplicate_ids,
    lemma_first_duplicate_from, lemma_first_match_is_earliest,
};
use crate::value::{Value, ValueModel, entries_model};

verus! {

/// The three error kinds of the engine. Leaf-level condition type
/// mismatches are deliberately not errors: they evaluate to false.
#[derive(Debug)]
pub enum EngineError {
    /// A structurally well-formed but semantically invalid ruleset: a
    /// duplicate rule id, or a condition tree the safety validator
    /// rejects.
    RuleValidation(String),
    /// An evaluation attempted with no ruleset loaded.
    Execution(String),
    /// A malformed ruleset document, surfaced by an external deserializer.
    Parse(String),
}

/// The immutable artifact of a successful rule match: which rule fired,
/// its outcome copied verbatim, timing, and the content hash of the
/// ruleset that produced it.
#[derive(Debug)]
pub struct Decision {
    pub rule_id: String,
    pub outcome: Vec<(String, Value)>,
    pub matched_conditions: Vec<String>,
    pub elapsed_us: u64,
    pub timestamp: u64,
    pub rule_sha: String,
}

/// What one evaluation result means against a ruleset model: a decision
/// carries the first matching rule's id and outcome and the ruleset's
/// hash; no decision means no rule matched.
pub open spec fn decision_matches(
    m: RuleSetModel,
    ev: Seq<(Seq<char>, ValueModel)>,
    od: Option<Decision>,
) -> bool {
    match od {
        Some(d) => first_match(m.rules, ev) matches Some(i) && d.rule_id@ == m.rules[i].id
            && entries_model(d.outcome@) == m.rules[i].action && d.matched_conditions@.len() == 1
            && d.matched_conditions@[0]@ == m.rules[i].id && d.rule_sha@ == ruleset_sha_spec(m),
        None => first_match(m.rules, ev) is None,
    }
}

/// Relies on std::time::SystemTime::now for the current instant, converted
/// to whole microseconds since the Unix epoch. Nothing is promised of the
/// value: the clock may move arbitrarily between calls.
#[verifier::external_body]
fn now_micros() -> u64 {
    match std::time::SystemTime::now().duration_since(std::time::UNIX_EPOCH) {
        Ok(d) => d.as_micros() as u64,
        Err(_) => 0,
    }
}

/// Relies on std::time::SystemTime::now for the current instant, converted
/// to whole seconds since the Unix epoch. Nothing is promised of the
/// value.
#[verifier::external_body]
fn now_seconds() -> u64 {
    match std::time::SystemTime::now().duration_since(std::time::UNIX_EPOCH) {
        Ok(d) => d.as_secs(),
        Err(_) => 0,
    }
}

/// The engine. At most one ruleset is loaded at a time; a failed load
/// leaves the previously loaded ruleset (if any) in place.
pub struct RuleEngine {
    ruleset: Option<RuleSet>,
    ruleset_sha: Option<String>,
}

impl RuleEngine {
    /// The hash is present exactly when a ruleset is, and is always the
    /// content hash of that ruleset: 64 lowercase hex digits.
    #[verifier::type_invariant]
    spec fn wf(self) -> bool {
        match (self.ruleset, self.ruleset_sha) {
            (Some(rs), Some(sha)) => sha@ == ruleset_sha_spec(rs.model())
                && crate::canon::is_hex_digest(sha@),
            (None, None) => true,
            _ => false,
        }
    }

    /// The model of the loaded ruleset, if one is loaded.
    pub closed spec fn loaded_model(self) -> Option<RuleSetModel> {
        match self.ruleset {
            Some(rs) => Some(rs.model()),
            None => None,
        }
    }

    /// The content hash the engine holds, if a ruleset is loaded.
    pub closed spec fn sha_model(self) -> Option<Seq<char>> {
        match self.ruleset_sha {
            Some(s) => Some(s@),
            None => None,
        }
    }

    /// An engine with no ruleset loaded.
    pub fn new() -> (r: RuleEngine)
        ensures
            r.loaded_model() is None,
            r.sha_model() is None,
    {
        RuleEngine { ruleset: None, ruleset_sha: None }
    }

    /// Checks that no two rules share an id; the first duplicate found in
    /// declaration order is the one the error message names.
    fn validate_ruleset(&self, ruleset: &RuleSet) -> (r: Result<(), EngineError>)
        ensures
            match r {
                Ok(()) => !has_duplicate_ids(ruleset.model().rules),
                Err(e) => has_duplicate_ids(ruleset.model().rules) && (e matches
                    EngineError::RuleValidation(msg) && first_duplicate(ruleset.model().rules)
                    matches Some(i) && msg@ == "Duplicate rule ID: "@
                    + ruleset.model().rules[i].id),
            },
    {
        let ghost rm = ruleset.model().rules;
        let n = ruleset.rules.len();
        let mut i: usize = 0;
        while i < n
            invariant
                i <= n,
                n == ruleset.rules@.len(),
                rm == ruleset.model().rules,
                forall|m: int| 0 <= m < i ==> !dup_before(rm, m),
            decreases n - i,
        {
            let mut j: usize = 0;
            while j < i
                invariant
                    j <= i < n,
                    n == ruleset.rules@.len(),
                    rm == ruleset.model().rules,
                    forall|m: int| 0 <= m < i ==> !dup_before(rm, m),
                    forall|b: int| 0 <= b < j ==> #[trigger] rm[b].id != rm[i as int].id,
                decreases i - j,
            {
                if ruleset.rules[j].id == ruleset.rules[i].id {
                    proof {
                        assert(rm[j as int].id == rm[i as int].id);
                        assert(dup_before(rm, i as int));
                        assert(has_duplicate_ids(rm));
                        lemma_first_duplicate_from(rm, 0);
                        match first_duplicate(rm) {
                            Some(i0) => {
                                if i0 < i as int {
                                    assert(!dup_before(rm, i0));
                                }
                                assert(i0 == i as int);
                            },
                            None => {
                                assert(!dup_before(rm, i as int));
                            },
                        }
                    }
                    let msg = String::from_str("Duplicate rule ID: ").concat(
                        ruleset.rules[i].id.as_str(),
                    );
                    return Err(EngineError::RuleValidation(msg));
                }
                j += 1;
            }
            proof {
                assert(!dup_before(rm, i as int));
            }
            i += 1;
        }
        proof {
            assert(forall|m: int| 0 <= m < rm.len() ==> !dup_before(rm, m));
            if has_duplicate_ids(rm) {
                let (a, b) = choose|a: int, b: int|
                    0 <= a < b < rm.len() && #[trigger] rm[a].id == #[trigger] rm[b].id;
                assert(dup_before(rm, b));
            }
        }
        Ok(())
    }

    /// Validates the ruleset (duplicate ids, then the safety validator),
    /// computes its content hash, and only then replaces the previously
    /// loaded ruleset. A failed load leaves the engine exactly as it was,
    /// and its error names the first duplicate id found in declaration
    /// order.
    pub fn load_ruleset(&mut self, ruleset: RuleSet) -> (r: Result<(), EngineError>)
        ensures
            match r {
                Ok(()) => !has_duplicate_ids(ruleset.model().rules) && final(self).loaded_model()
                    == Some(ruleset.model()) && final(self).sha_model() == Some(
                    ruleset_sha_spec(ruleset.model()),
                ),
                Err(e) => has_duplicate_ids(ruleset.model().rules) && (e matches
                    EngineError::RuleValidation(msg) && first_duplicate(ruleset.model().rules)
                    matches Some(i) && msg@ == "Duplicate rule ID: "@
                    + ruleset.model().rules[i].id) && *final(self) == *old(self),
            },
    {
        match self.validate_ruleset(&ruleset) {
            Ok(()) => {},
            Err(e) => {
                return Err(e);
            },
        }
        match crate::dsl::validate_dsl_safety(&ruleset) {
            Ok(()) => {},
            Err(e) => {
                return Err(e);
            },
        }
        let sha = ruleset_sha(&ruleset);
        *self = RuleEngine { ruleset: Some(ruleset), ruleset_sha: Some(sha) };
        Ok(())
    }

    /// The content hash of the loaded ruleset, if one is loaded: 64
    /// lowercase hex digits.
    pub fn get_ruleset_sha(&self) -> (r: Option<&String>)
        ensures
            match r {
                Some(s) => self.sha_model() == Some(s@) && crate::canon::is_hex_digest(s@),
                None => self.sha_model() is None,
            },
    {
        proof {
            use_type_invariant(&*self);
        }
        self.ruleset_sha.as_ref()
    }

    /// Walks the rules in declaration order and returns a decision for the
    /// first whose condition matches the event, no decision when none
    /// does, and an `Execution` error exactly when no ruleset is loaded.
    /// Neither the ruleset nor the event is mutated.
    pub fn evaluate(&self, payload: &Event) -> (r: Result<Option<Decision>, EngineError>)
        ensures
            match r {
                Ok(od) => self.loaded_model() matches Some(m) && decision_matches(
                    m,
                    payload.model(),
                    od,
                ),
                Err(e) => self.loaded_model() is None && e is Execution,
            },
    {
        proof {
            use_type_invariant(&*self);
        }
        let (ruleset, sha): (&RuleSet, &String) = match (&self.ruleset, &self.ruleset_sha) {
            (Some(rs), Some(sha)) => (rs, sha),
            _ => {
                return Err(EngineError::Execution("No ruleset loaded".to_string()));
            },
        };
        let ghost m = ruleset.model();
        let ghost ev = payload.model();
        let start = now_micros();
        let n = ruleset.rules.len();
        let mut i: usize = 0;
        while i < n
            invariant
                i <= n,
                n == ruleset.rules@.len(),
                m == ruleset.model(),
                ev == payload.model(),
                self.loaded_model() == Some(m),
                sha@ == ruleset_sha_spec(m),
                forall|j: int| 0 <= j < i ==> !eval(#[trigger] m.rules[j].when, ev),
            decreases n - i,
        {
            let rule = &ruleset.rules[i];
            if eval_condition(&rule.when, payload) {
                proof {
                    assert(m.rules[i as int] == ruleset.rules@[i as int].model());
                    assert(eval(m.rules[i as int].when, ev));
                    lemma_first_match_is_earliest(m.rules, ev);
                    match first_match(m.rules, ev) {
                        Some(k) => {
                            if k < i as int {
                                assert(!eval(m.rules[k].when, ev));
                            }
                        },
                        None => {
                            assert(!eval(m.rules[i as int].when, ev));
                        },
                    }
                    assert(first_match(m.rules, ev) == Some(i as int));
                }
                let end = now_micros();
                let elapsed: u64 = if end >= start {
                    end - start
                } else {
                    0
                };
                let decision = Decision {
                    rule_id: rule.id.clone(),
                    outcome: rule.action.clone().outcome,
                    matched_conditions: vec![rule.id.clone()],
                    elapsed_us: elapsed,
                    timestamp: now_seconds(),
                    rule_sha: sha.clone(),
                };
                return Ok(Some(decision));
            }
            i += 1;
        }
        proof {
            lemma_first_match_is_earliest(m.rules, ev);
            match first_match(m.rules, ev) {
                Some(k) => {
                    assert(!eval(m.rules[k].when, ev));
                },
                None => {},
            }
        }
        Ok(None)
    }

    /// Applies `evaluate` to each event independently and in order; the
    /// result has one entry per event. A failure — possible only when no
    /// ruleset is loaded — aborts the whole batch.
    pub fn evaluate_many(&self, events: &Vec<Event>) -> (r: Result<
        Vec<Option<Decision>>,
        EngineError,
    >)
        ensures
            match r {
                Ok(ds) => ds@.len() == events@.len() && (events@.len() > 0
                    ==> self.loaded_model() is Some) && (forall|i: int|
                    0 <= i < ds@.len() ==> decision_matches(
                        self.loaded_model()->Some_0,
                        events@[i].model(),
                        #[trigger] ds@[i],
                    )),
                Err(e) => self.loaded_model() is None && events@.len() > 0 && e is Execution,
            },
    {
        let mut out: Vec<Option<Decision>> = Vec::new();
        let n = events.len();
        let mut i: usize = 0;
        while i < n
            invariant
                i <= n,
                n == events@.len(),
                out@.len() == i,
                i > 0 ==> self.loaded_model() is Some,
                forall|j: int| 0 <= j < i ==> decision_matches(
                    self.loaded_model()->Some_0,
                    events@[j].model(),
                    #[trigger] out@[j],
                ),
            decreases n - i,
        {
            match self.evaluate(&events[i]) {
                Ok(d) => {
                    out.push(d);
                },
                Err(e) => {
                    return Err(e);
                },
            }
            i += 1;
        }
        Ok(out)
    }
}

impl Default for RuleEngine {
    /// The same as `RuleEngine::new`: an engine with no ruleset loaded.
    fn default() -> (r: RuleEngine)
        ensures
            r.loaded_model() is None,
            r.sha_model() is None,
    {
        RuleEngine::new()
    }
}

/// The content hash is deterministic: it is a function of the ruleset's
/// model alone, so two structurally identical rulesets hash identically
/// whatever incidental form their source representation had.
pub proof fn lemma_hash_deterministic(a: RuleSet, b: RuleSet)
    requires
        a.model() == b.model(),
    ensures
        ruleset_sha_spec(a.model()) == ruleset_sha_spec(b.model()),
{
}

} // verus!
