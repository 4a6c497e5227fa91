//! The safety validator: a static, recursive walk over a parsed ruleset
//! that is the single enforcement point for the closed condition grammar.
//! Every variant of today's grammar is safe by construction — no variant
//! can invoke external code or perform I/O — so validation always
//! succeeds; the walk is the designated extension point where any future
//! variant must add its safety rule.

use vstd::prelude::*;
use crate::condition::Condition;
use crate::engine::EngineError;
use crate::model::RuleSet;

verus! {

/// Validates that every rule's `when` tree holds only grammar-defined,
/// safe variants. The grammar is closed, so this never fails today; it
/// never mutates the ruleset.
pub fn validate_dsl_safety(ruleset: &RuleSet) -> (r: Result<(), EngineError>)
    ensures
        r is Ok,
{
    let n = ruleset.rules.len();
    let mut i: usize = 0;
    while i < n
        invariant
            i <= n,
            n == ruleset.rules@.len(),
        decreases n - i,
    {
        match validate_condition_safety(&ruleset.rules[i].when) {
            Ok(()) => {},
            Err(e) => {
                return Err(e);
            },
        }
        i += 1;
    }
    Ok(())
}

/// Recursively checks one condition tree, descending into `And`, `Or` and
/// `Not`; every leaf variant is unconditionally safe.
fn validate_condition_safety(condition: &Condition) -> (r: Result<(), EngineError>)
    ensures
        r is Ok,
    decreases *condition,
{
    match condition {
        Condition::And { conditions } | Condition::Or { conditions } => {
            let n = conditions.len();
            let mut i: usize = 0;
            while i < n
                invariant
                    i <= n,
                    n == conditions@.len(),
                    condition is And ==> condition == (Condition::And { conditions: *conditions }),
                    condition is Or ==> condition == (Condition::Or { conditions: *conditions }),
                    condition is And || condition is Or,
                decreases n - i,
            {
                let child = &conditions[i];
                proof {
                    if condition is And {
                        assert(decreases_to!(*condition => condition->And_conditions));
                        assert(decreases_to!(
                            condition->And_conditions => condition->And_conditions[i as int]));
                    } else {
                        assert(decreases_to!(*condition => condition->Or_conditions));
                        assert(decreases_to!(
                            condition->Or_conditions => condition->Or_conditions[i as int]));
                    }
                    assert(decreases_to!(*condition => *child));
                }
                match validate_condition_safety(child) {
                    Ok(()) => {},
                    Err(e) => {
                        return Err(e);
                    },
                }
                i += 1;
            }
            Ok(())
        },
        Condition::Not { condition: child } => validate_condition_safety(&**child),
        _ => Ok(()),
    }
}

} // verus!
