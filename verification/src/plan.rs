//! The plan model and the decisions of the single-agent execution loop:
//! which step runs next, what its action demands from the outside world,
//! and how a step's outcome advances the recorded state. The host performs
//! the tool call or the user prompt and feeds the outcome back.

use vstd::prelude::*;

use crate::json::{JsonValue, JsonView};
use crate::message::opt_str_view;
use crate::state::{AgentState, StepResult, status_lookup};
use crate::types::StepStatus;

verus! {

/// One plan step.
#[derive(Debug)]
pub struct PlanStep {
    pub step_id: usize,
    pub description: String,
    pub status: StepStatus,
    pub action: String,
    pub tool: Option<String>,
    pub parameters: Option<JsonValue>,
    pub input: Option<JsonValue>,
    pub output: Option<JsonValue>,
    pub is_succeeded: bool,
    pub error_code: Option<String>,
    pub error_reason: Option<String>,
}

/// Ghost form of [`PlanStep`].
pub struct PlanStepView {
    pub step_id: int,
    pub description: Seq<char>,
    pub status: StepStatus,
    pub action: Seq<char>,
    pub tool: Option<Seq<char>>,
    pub parameters: Option<JsonView>,
    pub input: Option<JsonView>,
    pub output: Option<JsonView>,
    pub is_succeeded: bool,
    pub error_code: Option<Seq<char>>,
    pub error_reason: Option<Seq<char>>,
}

/// Ghost form of an optional payload.
pub open spec fn opt_json_view(o: Option<JsonValue>) -> Option<JsonView> {
    match o {
        Some(v) => Some(v@),
        None => None,
    }
}

impl View for PlanStep {
    type V = PlanStepView;

    open spec fn view(&self) -> PlanStepView {
        PlanStepView {
            step_id: self.step_id as int,
            description: self.description@,
            status: self.status,
            action: self.action@,
            tool: opt_str_view(self.tool),
            parameters: opt_json_view(self.parameters),
            input: opt_json_view(self.input),
            output: opt_json_view(self.output),
            is_succeeded: self.is_succeeded,
            error_code: opt_str_view(self.error_code),
            error_reason: opt_str_view(self.error_reason),
        }
    }
}

impl DeepView for PlanStep {
    type V = PlanStepView;

    open spec fn deep_view(&self) -> PlanStepView {
        self.view()
    }
}

/// An ordered list of steps owned by one worker.
#[derive(Debug)]
pub struct Plan {
    pub plan_id: String,
    pub description: Option<String>,
    pub version: Option<String>,
    pub steps: Vec<PlanStep>,
    pub is_succeeded: bool,
    pub error_step_id: Option<usize>,
}

/// What a step demands from the outside world, or why the loop must stop.
#[derive(Debug)]
pub enum StepCommand {
    /// Invoke this tool with these parameters.
    CallTool(String, Option<JsonValue>),
    /// Put this question to the user and read one line.
    AskUser(Option<String>),
    /// The step cannot run; the loop aborts with this reason.
    Refuse(String),
}

/// A step is selectable while its recorded status is `Pending` or absent.
pub open spec fn selectable(recorded: Option<StepStatus>) -> bool {
    match recorded {
        None => true,
        Some(st) => st == StepStatus::Pending,
    }
}

impl Plan {
    /// The position of the first step whose recorded status is `Pending` or
    /// absent; the loop ends when there is none.
    #[verifier::loop_isolation(false)]
    pub fn next_pending_step(&self, state: &AgentState) -> (r: Option<usize>)
        ensures
            match r {
                Some(i) => i < self.steps.deep_view().len() && selectable(
                    status_lookup(
                        state.status_v(),
                        self.steps.deep_view()[i as int].step_id,
                    ),
                ) && (forall|j: int|
                    0 <= j < i ==> !selectable(
                        status_lookup(
                            state.status_v(),
                            (#[trigger] self.steps.deep_view()[j]).step_id,
                        ),
                    )),
                None => forall|j: int|
                    0 <= j < self.steps.deep_view().len() ==> !selectable(
                        status_lookup(
                            state.status_v(),
                            (#[trigger] self.steps.deep_view()[j]).step_id,
                        ),
                    ),
            },
    {
        let mut k: usize = 0;
        while k < self.steps.len()
            invariant
                k <= self.steps.len(),
                forall|j: int|
                    0 <= j < k ==> !selectable(
                        status_lookup(
                            state.status_v(),
                            (#[trigger] self.steps.deep_view()[j]).step_id,
                        ),
                    ),
            decreases self.steps.len() - k,
        {
            let recorded = state.get_step_status(self.steps[k].step_id);
            let pick = match recorded {
                None => true,
                Some(st) => st == StepStatus::Pending,
            };
            if pick {
                return Some(k);
            }
            k += 1;
        }
        None
    }
}

/// What running `step` demands: `call_tool` needs its tool name, `ask_user`
/// carries the question found in the step input, and anything else refuses.
pub fn step_command(step: &PlanStep) -> (r: StepCommand)
    ensures
        match r {
            StepCommand::CallTool(t, ps) => step@.action == "call_tool"@ && step@.tool == Some(
                t@,
            ) && opt_json_view(ps) == step@.parameters,
            StepCommand::AskUser(q) => step@.action == "ask_user"@ && (match q {
                Some(qs) => (match step@.input {
                    Some(iv) => iv.lookup("question"@) == Some(JsonView::Str(qs@)),
                    None => false,
                }),
                None => (match step@.input {
                    Some(iv) => (match iv.lookup("question"@) {
                        Some(v) => !(v is Str),
                        None => true,
                    }),
                    None => true,
                }),
            }),
            StepCommand::Refuse(_) => (step@.action == "call_tool"@ && step@.tool is None) || (
            step@.action != "call_tool"@ && step@.action != "ask_user"@),
        },
{
    if self_action_is(step, "call_tool") {
        match &step.tool {
            Some(tool) => {
                let params = match &step.parameters {
                    Some(p) => Some(p.duplicate()),
                    None => None,
                };
                StepCommand::CallTool(tool.clone(), params)
            },
            None => StepCommand::Refuse("call_tool step without a tool".to_owned()),
        }
    } else if self_action_is(step, "ask_user") {
        match &step.input {
            Some(input) => match input.get("question") {
                Some(q) => match q.as_str() {
                    Some(text) => StepCommand::AskUser(Some(text.clone())),
                    None => StepCommand::AskUser(None),
                },
                None => StepCommand::AskUser(None),
            },
            None => StepCommand::AskUser(None),
        }
    } else {
        StepCommand::Refuse("unknown step action".to_owned())
    }
}

/// Whether the step's action is this label.
fn self_action_is(step: &PlanStep, label: &str) -> (r: bool)
    ensures
        r == (step@.action == label@),
{
    step.action == label.to_owned()
}

/// Records a step outcome: `Done` on success, `Failed` otherwise, with the
/// result appended either way. The loop continues only after a success.
pub fn apply_step_outcome(state: &mut AgentState, step_id: usize, outcome: StepResult) -> (cont:
    bool)
    ensures
        cont == outcome.success,
        final(state).status_v() =~= seq![
            (
                step_id as int,
                if outcome.success {
                    StepStatus::Done
                } else {
                    StepStatus::Failed
                },
            ),
        ] + old(state).status_v(),
        final(state).results_v() =~= seq![(step_id as int, outcome@)] + old(state).results_v(),
        status_lookup(final(state).status_v(), step_id as int) == Some(
            if outcome.success {
                StepStatus::Done
            } else {
                StepStatus::Failed
            },
        ),
{
    let cont = outcome.success;
    if cont {
        state.set_step_status(step_id, StepStatus::Done);
    } else {
        state.set_step_status(step_id, StepStatus::Failed);
    }
    state.append_result(step_id, outcome);
    cont
}

} // verus!
