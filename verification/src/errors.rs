//! The error taxonomy of the runtime.

use vstd::prelude::*;

verus! {

/// Why a `send` on the bus failed.
#[derive(Debug, Clone, Copy, PartialEq, Eq, Structural)]
pub enum DeliveryError {
    /// The point-to-point receiver is not registered.
    UnknownReceiver,
    /// The receiver's inbox is full.
    Backpressure,
    /// The message had already expired when handed to the bus.
    Expired,
    /// A broadcast found no subscriber at all.
    NoSubscribers,
}

/// An error surfaced by the coordination runtime.
#[derive(Debug)]
pub enum AgentError {
    /// Action-level failure inside a worker step.
    ExecutionError(String),
    /// A verifier rejected an output.
    VerificationError(String),
    /// The executor reached the end of the plan normally.
    PlanExhausted,
    /// Directory miss on an agent id.
    AgentNotFound(String),
    /// Directory miss on a task id.
    TaskNotFound(String),
    /// A bus delivery failed.
    MessageDeliveryError(DeliveryError),
    /// A capacity bound was reached.
    ResourceExhausted(String),
    /// Malformed payload or plan.
    ParseError(String),
    /// An internal invariant was violated by the caller.
    InternalError(String),
}

/// Ghost form of [`AgentError`].
pub enum AgentErrorView {
    ExecutionError(Seq<char>),
    VerificationError(Seq<char>),
    PlanExhausted,
    AgentNotFound(Seq<char>),
    TaskNotFound(Seq<char>),
    MessageDeliveryError(DeliveryError),
    ResourceExhausted(Seq<char>),
    ParseError(Seq<char>),
    InternalError(Seq<char>),
}

impl View for AgentError {
    type V = AgentErrorView;

    open spec fn view(&self) -> AgentErrorView {
        match self {
            AgentError::ExecutionError(s) => AgentErrorView::ExecutionError(s@),
            AgentError::VerificationError(s) => AgentErrorView::VerificationError(s@),
            AgentError::PlanExhausted => AgentErrorView::PlanExhausted,
            AgentError::AgentNotFound(s) => AgentErrorView::AgentNotFound(s@),
            AgentError::TaskNotFound(s) => AgentErrorView::TaskNotFound(s@),
            AgentError::MessageDeliveryError(d) => AgentErrorView::MessageDeliveryError(*d),
            AgentError::ResourceExhausted(s) => AgentErrorView::ResourceExhausted(s@),
            AgentError::ParseError(s) => AgentErrorView::ParseError(s@),
            AgentError::InternalError(s) => AgentErrorView::InternalError(s@),
        }
    }
}

} // verus!
