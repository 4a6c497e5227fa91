//! The condition grammar: a closed, recursively defined set of boolean
//! conditions over a keyed event, and its evaluation semantics. Evaluation
//! is a depth-first, left-to-right tree walk with short-circuiting; a
//! missing field or a field of the wrong kind makes a leaf condition false,
//! never an error.

use vstd::prelude::*;
use crate::event::{Event, lookup};
use crate::value::{Value, ValueModel, lemma_model_kind, value_eq};

verus! {

/// A condition in a rule's `when` clause. The set of variants is closed by
/// design: no variant can invoke external code or read anything but the
/// supplied event and its own literal operands.
pub enum Condition {
    /// True iff every child is true; vacuously true when empty.
    And { conditions: Vec<Condition> },
    /// True iff some child is true; vacuously false when empty.
    Or { conditions: Vec<Condition> },
    /// True iff the child is false.
    Not { condition: Box<Condition> },
    /// True iff the field is present and structurally equal to the literal.
    Equals { field: String, value: Value },
    /// True iff the field is present, an integer, and greater than `value`.
    GreaterThan { field: String, value: i64 },
    /// True iff the field is present, an integer, and less than `value`.
    LessThan { field: String, value: i64 },
    /// True iff the field is present, a string, and contains `value` as a
    /// substring.
    Contains { field: String, value: String },
    /// True iff the field is present and structurally equal to some element
    /// of `values`.
    In { field: String, values: Vec<Value> },
}

/// The mathematical model of a [`Condition`].
pub enum ConditionModel {
    And { conditions: Seq<ConditionModel> },
    Or { conditions: Seq<ConditionModel> },
    Not { condition: Box<ConditionModel> },
    Equals { field: Seq<char>, value: ValueModel },
    GreaterThan { field: Seq<char>, value: int },
    LessThan { field: Seq<char>, value: int },
    Contains { field: Seq<char>, value: Seq<char> },
    In { field: Seq<char>, values: Seq<ValueModel> },
}

impl Condition {
    /// The model of this condition.
    pub open spec fn model(self) -> ConditionModel
        decreases self,
    {
        match self {
            Condition::And { conditions } => ConditionModel::And {
                conditions: Seq::new(
                    conditions@.len(),
                    |i: int|
                        if 0 <= i < conditions@.len() {
                            conditions@[i].model()
                        } else {
                            ConditionModel::And { conditions: Seq::empty() }
                        },
                ),
            },
            Condition::Or { conditions } => ConditionModel::Or {
                conditions: Seq::new(
                    conditions@.len(),
                    |i: int|
                        if 0 <= i < conditions@.len() {
                            conditions@[i].model()
                        } else {
                            ConditionModel::And { conditions: Seq::empty() }
                        },
                ),
            },
            Condition::Not { condition } => ConditionModel::Not {
                condition: Box::new((*condition).model()),
            },
            Condition::Equals { field, value } => ConditionModel::Equals {
                field: field@,
                value: value.model(),
            },
            Condition::GreaterThan { field, value } => ConditionModel::GreaterThan {
                field: field@,
                value: value as int,
            },
            Condition::LessThan { field, value } => ConditionModel::LessThan {
                field: field@,
                value: value as int,
            },
            Condition::Contains { field, value } => ConditionModel::Contains {
                field: field@,
                value: value@,
            },
            Condition::In { field, values } => ConditionModel::In {
                field: field@,
                values: Seq::new(
                    values@.len(),
                    |i: int|
                        if 0 <= i < values@.len() {
                            values@[i].model()
                        } else {
                            ValueModel::Null
                        },
                ),
            },
        }
    }
}

/// True iff `needle` occurs in `hay` as a contiguous substring.
pub open spec fn contains_substring(hay: Seq<char>, needle: Seq<char>) -> bool {
    exists|i: int|
        0 <= i && i + needle.len() <= hay.len() && #[trigger] hay.subrange(i, i + needle.len())
            == needle
}

/// The evaluation semantics of a condition against an event: a depth-first
/// walk of the tree. A missing field, or a field whose value is not of the
/// kind the operator requires, makes the leaf false.
pub open spec fn eval(c: ConditionModel, ev: Seq<(Seq<char>, ValueModel)>) -> bool
    decreases c,
{
    match c {
        ConditionModel::And { conditions } => forall|i: int|
            0 <= i < conditions.len() ==> eval(#[trigger] conditions[i], ev),
        ConditionModel::Or { conditions } => exists|i: int|
            0 <= i < conditions.len() && eval(#[trigger] conditions[i], ev),
        ConditionModel::Not { condition } => !eval(*condition, ev),
        ConditionModel::Equals { field, value } => lookup(ev, field) == Some(value),
        ConditionModel::GreaterThan { field, value } => match lookup(ev, field) {
            Some(ValueModel::Int(n)) => n > value,
            _ => false,
        },
        ConditionModel::LessThan { field, value } => match lookup(ev, field) {
            Some(ValueModel::Int(n)) => n < value,
            _ => false,
        },
        ConditionModel::Contains { field, value } => match lookup(ev, field) {
            Some(ValueModel::Str(s)) => contains_substring(s, value),
            _ => false,
        },
        ConditionModel::In { field, values } => match lookup(ev, field) {
            Some(v) => exists|i: int| 0 <= i < values.len() && #[trigger] values[i] == v,
            _ => false,
        },
    }
}

/// Short-circuit law for `And`: as soon as one child is false the whole
/// conjunction is false, whatever the children after it evaluate to — so an
/// evaluator that stops at the first false child returns the same result as
/// one that walks every child.
pub proof fn lemma_and_short_circuit(
    conditions: Seq<ConditionModel>,
    ev: Seq<(Seq<char>, ValueModel)>,
    i: int,
)
    requires
        0 <= i < conditions.len(),
        !eval(conditions[i], ev),
    ensures
        !eval(ConditionModel::And { conditions }, ev),
{
    let c = ConditionModel::And { conditions };
    assert(c->And_conditions[i] == conditions[i]);
    if eval(c, ev) {
        assert(eval(conditions[i], ev));
    }
}

/// Short-circuit law for `Or`: as soon as one child is true the whole
/// disjunction is true, whatever the children after it evaluate to.
pub proof fn lemma_or_short_circuit(
    conditions: Seq<ConditionModel>,
    ev: Seq<(Seq<char>, ValueModel)>,
    i: int,
)
    requires
        0 <= i < conditions.len(),
        eval(conditions[i], ev),
    ensures
        eval(ConditionModel::Or { conditions }, ev),
{
    let c = ConditionModel::Or { conditions };
    assert(c->Or_conditions[i] == conditions[i]);
    assert(eval(c->Or_conditions[i], ev));
}

/// Strict typing of `Equals`: when the event's field holds a value of a
/// different kind than the literal — a number against a string, say — the
/// condition is false; no coercion is performed.
pub proof fn lemma_equals_kind_mismatch(
    field: Seq<char>,
    value: ValueModel,
    ev: Seq<(Seq<char>, ValueModel)>,
    found: ValueModel,
)
    requires
        lookup(ev, field) == Some(found),
        !crate::value::same_kind(found, value),
    ensures
        !eval(ConditionModel::Equals { field, value }, ev),
{
    crate::value::lemma_strict_typing(found, value);
}

/// A numeric comparison on a missing field evaluates to false — never to an
/// error.
pub proof fn lemma_comparison_missing_field(
    field: Seq<char>,
    value: int,
    ev: Seq<(Seq<char>, ValueModel)>,
)
    requires
        lookup(ev, field) is None,
    ensures
        !eval(ConditionModel::GreaterThan { field, value }, ev),
        !eval(ConditionModel::LessThan { field, value }, ev),
{
}

/// A numeric comparison on a field whose value is not an integer evaluates
/// to false — never to an error.
pub proof fn lemma_comparison_non_numeric(
    field: Seq<char>,
    value: int,
    ev: Seq<(Seq<char>, ValueModel)>,
    found: ValueModel,
)
    requires
        lookup(ev, field) == Some(found),
        !(found is Int),
    ensures
        !eval(ConditionModel::GreaterThan { field, value }, ev),
        !eval(ConditionModel::LessThan { field, value }, ev),
{
}

/// Relies on str::contains: true iff the pattern string occurs as a
/// substring of the receiver.
#[verifier::external_body]
fn str_contains(hay: &String, needle: &String) -> (r: bool)
    ensures
        r == contains_substring(hay@, needle@),
{
    hay.as_str().contains(needle.as_str())
}

/// Evaluates a condition against an event, depth first and left to right,
/// short-circuiting `And` at the first false child and `Or` at the first
/// true child.
pub fn eval_condition(condition: &Condition, event: &Event) -> (r: bool)
    ensures
        r == eval(condition.model(), event.model()),
    decreases *condition,
{
    match condition {
        Condition::And { conditions } => {
            let n = conditions.len();
            let mut i: usize = 0;
            while i < n
                invariant
                    i <= n,
                    n == conditions@.len(),
                    condition == (Condition::And { conditions: *conditions }),
                    forall|j: int| 0 <= j < i ==> eval(#[trigger] conditions@[j].model(), event.model()),
                decreases n - i,
            {
                if !eval_condition(&conditions[i], event) {
                    proof {
                        let cs = condition.model()->And_conditions;
                        assert(cs[i as int] == conditions@[i as int].model());
                        assert(!eval(cs[i as int], event.model()));
                    }
                    return false;
                }
                i += 1;
            }
            proof {
                let cs = condition.model()->And_conditions;
                assert(forall|j: int| 0 <= j < cs.len() ==> #[trigger] cs[j]
                    == conditions@[j].model());
            }
            true
        },
        Condition::Or { conditions } => {
            let n = conditions.len();
            let mut i: usize = 0;
            while i < n
                invariant
                    i <= n,
                    n == conditions@.len(),
                    condition == (Condition::Or { conditions: *conditions }),
                    forall|j: int| 0 <= j < i ==> !eval(
                        #[trigger] conditions@[j].model(),
                        event.model(),
                    ),
                decreases n - i,
            {
                if eval_condition(&conditions[i], event) {
                    proof {
                        let cs = condition.model()->Or_conditions;
                        assert(cs[i as int] == conditions@[i as int].model());
                        assert(eval(cs[i as int], event.model()));
                    }
                    return true;
                }
                i += 1;
            }
            proof {
                let cs = condition.model()->Or_conditions;
                assert(forall|j: int| 0 <= j < cs.len() ==> #[trigger] cs[j]
                    == conditions@[j].model());
            }
            false
        },
        Condition::Not { condition: child } => !eval_condition(&**child, event),
        Condition::Equals { field, value } => {
            match event.get(field) {
                Some(v) => value_eq(v, value),
                None => false,
            }
        },
        Condition::GreaterThan { field, value } => {
            match event.get(field) {
                Some(v) => match v {
                    Value::Int(n) => *n > *value,
                    _ => {
                        proof {
                            lemma_model_kind(*v);
                        }
                        false
                    },
                },
                None => false,
            }
        },
        Condition::LessThan { field, value } => {
            match event.get(field) {
                Some(v) => match v {
                    Value::Int(n) => *n < *value,
                    _ => {
                        proof {
                            lemma_model_kind(*v);
                        }
                        false
                    },
                },
                None => false,
            }
        },
        Condition::Contains { field, value } => {
            match event.get(field) {
                Some(v) => match v {
                    Value::Str(s) => str_contains(s, value),
                    _ => {
                        proof {
                            lemma_model_kind(*v);
                        }
                        false
                    },
                },
                None => false,
            }
        },
        Condition::In { field, values } => {
            match event.get(field) {
                Some(v) => {
                    let n = values.len();
                    let mut i: usize = 0;
                    while i < n
                        invariant
                            i <= n,
                            n == values@.len(),
                            condition == (Condition::In { field: *field, values: *values }),
                            lookup(event.model(), field@) == Some(v.model()),
                            forall|j: int| 0 <= j < i ==> #[trigger] values@[j].model()
                                != v.model(),
                        decreases n - i,
                    {
                        if value_eq(v, &values[i]) {
                            proof {
                                let vs = condition.model()->In_values;
                                assert(vs[i as int] == values@[i as int].model());
                            }
                            return true;
                        }
                        i += 1;
                    }
                    proof {
                        let vs = condition.model()->In_values;
                        assert(forall|j: int| 0 <= j < vs.len() ==> #[trigger] vs[j]
                            == values@[j].model());
                    }
                    false
                },
                None => false,
            }
        },
    }
}

} // verus!
