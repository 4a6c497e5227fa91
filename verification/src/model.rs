//! The entities a ruleset is built from: rules, their outcomes, and the
//! ruleset itself. Rule order is semantically significant — the first rule
//! whose condition matches an event wins — and rule ids must be unique
//! within a ruleset.

use vstd::prelude::*;
use crate::condition::{Condition, ConditionModel, eval};
use crate::value::{Value, ValueModel, entries_model};

verus! {

/// The outcome attached to a rule: an ordered list of `(key, value)`
/// entries, copied verbatim into the decision when the rule fires.
pub struct Action {
    pub outcome: Vec<(String, Value)>,
}

impl Action {
    /// The model of this action: its outcome entries.
    pub open spec fn model(self) -> Seq<(Seq<char>, ValueModel)> {
        entries_model(self.outcome@)
    }
}

impl Clone for Action {
    /// A clone of an action has the same model.
    fn clone(&self) -> (r: Action)
        ensures
            r.model() == self.model(),
    {
        let mut outcome: Vec<(String, Value)> = Vec::new();
        let n = self.outcome.len();
        let mut i: usize = 0;
        while i < n
            invariant
                i <= n,
                n == self.outcome@.len(),
                outcome@.len() == i,
                forall|j: int| 0 <= j < i ==> #[trigger] outcome@[j].0@ == self.outcome@[j].0@
                    && outcome@[j].1.model() == self.outcome@[j].1.model(),
            decreases n - i,
        {
            let (k, v) = (&self.outcome[i].0, &self.outcome[i].1);
            outcome.push((k.clone(), v.clone()));
            i += 1;
        }
        let r = Action { outcome };
        proof {
            assert(r.model() =~= self.model());
        }
        r
    }
}

/// A named condition-to-outcome mapping: the unit of first-match
/// evaluation.
pub struct Rule {
    pub id: String,
    pub description: Option<String>,
    pub severity: Option<String>,
    pub tags: Vec<String>,
    pub when: Condition,
    pub action: Action,
    pub generated_by_llm: bool,
    pub prompt_sha: Option<String>,
}

/// The mathematical model of a [`Rule`].
pub struct RuleModel {
    pub id: Seq<char>,
    pub description: Option<Seq<char>>,
    pub severity: Option<Seq<char>>,
    pub tags: Seq<Seq<char>>,
    pub when: ConditionModel,
    pub action: Seq<(Seq<char>, ValueModel)>,
    pub generated_by_llm: bool,
    pub prompt_sha: Option<Seq<char>>,
}

/// The model of an optional string.
pub open spec fn opt_str_model(o: Option<String>) -> Option<Seq<char>> {
    match o {
        None => None,
        Some(s) => Some(s@),
    }
}

impl Rule {
    /// The model of this rule.
    pub open spec fn model(self) -> RuleModel {
        RuleModel {
            id: self.id@,
            description: opt_str_model(self.description),
            severity: opt_str_model(self.severity),
            tags: Seq::new(self.tags@.len(), |i: int| self.tags@[i]@),
            when: self.when.model(),
            action: self.action.model(),
            generated_by_llm: self.generated_by_llm,
            prompt_sha: opt_str_model(self.prompt_sha),
        }
    }
}

/// An ordered, versioned collection of rules plus metadata, treated as one
/// atomic unit for loading and hashing.
pub struct RuleSet {
    pub rules: Vec<Rule>,
    pub version: String,
    pub metadata: Vec<(String, Value)>,
}

/// The mathematical model of a [`RuleSet`].
pub struct RuleSetModel {
    pub rules: Seq<RuleModel>,
    pub version: Seq<char>,
    pub metadata: Seq<(Seq<char>, ValueModel)>,
}

impl RuleSet {
    /// The model of this ruleset.
    pub open spec fn model(self) -> RuleSetModel {
        RuleSetModel {
            rules: Seq::new(self.rules@.len(), |i: int| self.rules@[i].model()),
            version: self.version@,
            metadata: entries_model(self.metadata@),
        }
    }
}

/// True iff two distinct rules share an id — which makes a ruleset invalid.
pub open spec fn has_duplicate_ids(rules: Seq<RuleModel>) -> bool {
    exists|i: int, j: int|
        0 <= i < j < rules.len() && #[trigger] rules[i].id == #[trigger] rules[j].id
}

/// True iff the id of the rule at position `i` already occurred at an
/// earlier position.
pub open spec fn dup_before(rules: Seq<RuleModel>, i: int) -> bool {
    exists|j: int| 0 <= j < i && #[trigger] rules[j].id == rules[i].id
}

/// The position of the first rule, in declaration order, whose id already
/// occurred earlier: the duplicate that validation reports.
pub open spec fn first_duplicate_from(rules: Seq<RuleModel>, i: int) -> Option<int>
    decreases rules.len() - i,
{
    if 0 <= i < rules.len() {
        if dup_before(rules, i) {
            Some(i)
        } else {
            first_duplicate_from(rules, i + 1)
        }
    } else {
        None
    }
}

/// The position of the first duplicate-id rule, if any.
pub open spec fn first_duplicate(rules: Seq<RuleModel>) -> Option<int> {
    first_duplicate_from(rules, 0)
}

/// What `first_duplicate_from` finds: the earliest position at or after
/// `k` whose id already occurred, and nothing when there is none.
pub proof fn lemma_first_duplicate_from(rules: Seq<RuleModel>, k: int)
    requires
        0 <= k,
    ensures
        match first_duplicate_from(rules, k) {
            Some(i) => k <= i < rules.len() && dup_before(rules, i) && (forall|m: int|
                k <= m < i ==> !dup_before(rules, m)),
            None => forall|m: int| k <= m < rules.len() ==> !dup_before(rules, m),
        },
    decreases rules.len() - k,
{
    if 0 <= k < rules.len() {
        if !dup_before(rules, k) {
            lemma_first_duplicate_from(rules, k + 1);
        }
    }
}

/// The position of the first rule whose condition matches the event, if
/// any rule does.
pub open spec fn first_match(rules: Seq<RuleModel>, ev: Seq<(Seq<char>, ValueModel)>) -> Option<
    int,
>
    decreases rules.len(),
{
    if rules.len() == 0 {
        None
    } else if eval(rules[0].when, ev) {
        Some(0)
    } else {
        match first_match(rules.drop_first(), ev) {
            None => None,
            Some(i) => Some(i + 1),
        }
    }
}

/// What `first_match` finds: the matching rule with the smallest position,
/// and nothing when no rule matches.
pub proof fn lemma_first_match_is_earliest(
    rules: Seq<RuleModel>,
    ev: Seq<(Seq<char>, ValueModel)>,
)
    ensures
        match first_match(rules, ev) {
            Some(i) => 0 <= i < rules.len() && eval(rules[i].when, ev) && (forall|k: int|
                0 <= k < i ==> !eval(#[trigger] rules[k].when, ev)),
            None => forall|k: int| 0 <= k < rules.len() ==> !eval(#[trigger] rules[k].when, ev),
        },
    decreases rules.len(),
{
    if rules.len() > 0 && !eval(rules[0].when, ev) {
        let rest = rules.drop_first();
        lemma_first_match_is_earliest(rest, ev);
        assert(forall|k: int| 1 <= k < rules.len() ==> #[trigger] rules[k] == rest[k - 1]);
        match first_match(rules, ev) {
            Some(i) => {
                assert(first_match(rest, ev) == Some(i - 1));
                assert(forall|k: int| 0 <= k < i ==> !eval(#[trigger] rules[k].when, ev)) by {
                    assert(forall|k: int| 1 <= k < i ==> rules[k] == rest[k - 1] && !eval(
                        #[trigger] rest[k - 1].when,
                        ev,
                    ));
                }
            },
            None => {
                assert(forall|k: int| 0 <= k < rules.len() ==> !eval(
                    #[trigger] rules[k].when,
                    ev,
                )) by {
                    assert(forall|k: int| 1 <= k < rules.len() ==> rules[k] == rest[k - 1]
                        && !eval(#[trigger] rest[k - 1].when, ev));
                }
            },
        }
    }
}

/// Rule order determines the outcome: when a rule matches an event, the
/// rule that fires is it or one declared before it — never a later one.
pub proof fn lemma_rule_order(rules: Seq<RuleModel>, ev: Seq<(Seq<char>, ValueModel)>, i: int)
    requires
        0 <= i < rules.len(),
        eval(rules[i].when, ev),
    ensures
        match first_match(rules, ev) {
            Some(k) => k <= i,
            None => false,
        },
{
    lemma_first_match_is_earliest(rules, ev);
}

} // verus!
