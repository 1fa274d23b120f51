//! Identifier generation: a type tag joined to a random component.

use vstd::prelude::*;
use vstd::string::StringExecFns;

use crate::types::{AgentType, AgentTypeView};

verus! {

/// Relies on uuid::Uuid::new_v4 and its hyphenated textual form: a freshly
/// drawn random identifier. Nothing can be promised of a random value.
#[verifier::external_body]
pub fn fresh_uuid() -> (r: String) {
    uuid::Uuid::new_v4().to_string()
}

/// The short lower-case label of an agent type.
pub open spec fn type_label_spec(t: AgentTypeView) -> Seq<char> {
    match t {
        AgentTypeView::Master => "master"@,
        AgentTypeView::Planner => "planner"@,
        AgentTypeView::Executor => "executor"@,
        AgentTypeView::Verifier => "verifier"@,
        AgentTypeView::Monitor => "monitor"@,
        AgentTypeView::Custom(name) => name,
    }
}

/// The short lower-case label of an agent type, as a fresh string.
pub fn type_label(t: &AgentType) -> (r: String)
    ensures
        r@ == type_label_spec(t@),
{
    match t {
        AgentType::Master => "master".to_owned(),
        AgentType::Planner => "planner".to_owned(),
        AgentType::Executor => "executor".to_owned(),
        AgentType::Verifier => "verifier".to_owned(),
        AgentType::Monitor => "monitor".to_owned(),
        AgentType::Custom(name) => name.clone(),
    }
}

/// A fresh agent identifier: the type label, a separator, and a random
/// component.
pub fn generate_id(t: &AgentType) -> (r: String)
    ensures
        exists|suffix: Seq<char>| r@ == type_label_spec(t@) + "-"@ + suffix,
{
    let label = type_label(t);
    let tail = fresh_uuid();
    let r = label.concat("-").concat(tail.as_str());
    proof {
        assert(r@ == type_label_spec(t@) + "-"@ + tail@);
    }
    r
}

} // verus!
