//! The user's task request, as handed to the planning side.

use vstd::prelude::*;

use crate::message::opt_str_view;

verus! {

/// A high-level goal submitted by the user.
#[derive(Debug)]
pub struct UserTaskInput {
    /// The short task goal.
    pub goal: String,
    /// The task's data content.
    pub content: String,
    /// Background for the task.
    pub description: Option<String>,
    /// Special requirements.
    pub constraints: Option<String>,
    /// Additional references.
    pub references: Option<Vec<String>>,
}

impl UserTaskInput {
    /// Bundles the pieces of a request.
    pub fn new(
        goal: String,
        content: String,
        description: Option<String>,
        constraints: Option<String>,
        references: Option<Vec<String>>,
    ) -> (r: UserTaskInput)
        ensures
            r.goal@ == goal@,
            r.content@ == content@,
            opt_str_view(r.description) == opt_str_view(description),
            opt_str_view(r.constraints) == opt_str_view(constraints),
            r.references == references,
    {
        UserTaskInput { goal, content, description, constraints, references }
    }
}

} // verus!
