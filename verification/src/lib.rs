//! A rule-based decision engine: rulesets of boolean conditions mapped to
//! outcomes are validated, hashed for provenance, and evaluated against
//! events; the first matching rule yields a decision.

pub mod canon;
pub mod condition;
pub mod dsl;
pub mod engine;
pub mod event;
pub mod model;
pub mod value;

pub use condition::Condition;
pub use dsl::validate_dsl_safety;
pub use engine::{Decision, EngineError, RuleEngine};
pub use event::Event;
pub use model::{Action, Rule, RuleSet};
pub use value::Value;
