use rusagent::json::JsonValue;
use rusagent::plan::{Plan, PlanStep, StepCommand, apply_step_outcome, step_command};
use rusagent::state::{AgentState, StepResult};
use rusagent::types::StepStatus;

fn obj(pairs: Vec<(&str, JsonValue)>) -> JsonValue {
    JsonValue::Obj(pairs.into_iter().map(|(k, v)| (k.to_string(), v)).collect())
}

fn step(step_id: usize, action: &str, tool: Option<&str>, input: Option<JsonValue>) -> PlanStep {
    PlanStep {
        step_id,
        description: format!("step {}", step_id),
        status: StepStatus::Pending,
        action: action.to_string(),
        tool: tool.map(|t| t.to_string()),
        parameters: None,
        input,
        output: None,
        is_succeeded: false,
        error_code: None,
        error_reason: None,
    }
}

#[test]
fn test_plan_execution() {
    // step 1 asks the user, step 2 calls a tool; with the answer "symptoms"
    // and a stub tool, both steps end Done and nothing stays selectable
    let mut plan = Plan {
        plan_id: "p1".to_string(),
        description: None,
        version: None,
        steps: vec![
            step(
                1,
                "ask_user",
                None,
                Some(obj(vec![(
                    "question",
                    JsonValue::Str("Which aspect?".to_string()),
                )])),
            ),
            step(2, "call_tool", Some("fetch_url"), None),
        ],
        is_succeeded: false,
        error_step_id: None,
    };
    plan.steps[1].parameters = Some(obj(vec![(
        "url",
        JsonValue::Str("https://example.com".to_string()),
    )]));

    let mut state = AgentState::new();

    let first = plan.next_pending_step(&state).unwrap();
    assert_eq!(plan.steps[first].step_id, 1);
    match step_command(&plan.steps[first]) {
        StepCommand::AskUser(Some(q)) => assert_eq!(q, "Which aspect?"),
        other => panic!("unexpected command {:?}", other),
    }
    // the host reads the line "symptoms" and reports success
    let cont = apply_step_outcome(
        &mut state,
        1,
        StepResult { output: "{\"answer\":\"symptoms\"}".to_string(), success: true },
    );
    assert!(cont);
    assert_eq!(state.get_step_status(1), Some(StepStatus::Done));

    let second = plan.next_pending_step(&state).unwrap();
    assert_eq!(plan.steps[second].step_id, 2);
    match step_command(&plan.steps[second]) {
        StepCommand::CallTool(tool, _) => assert_eq!(tool, "fetch_url"),
        other => panic!("unexpected command {:?}", other),
    }
    // the stub tool returns {"ok":true}
    let cont = apply_step_outcome(
        &mut state,
        2,
        StepResult { output: "{\"ok\":true}".to_string(), success: true },
    );
    assert!(cont);
    assert_eq!(state.get_step_status(2), Some(StepStatus::Done));

    assert!(plan.next_pending_step(&state).is_none());
}

#[test]
fn test_failed_step_stops_the_loop() {
    let plan = Plan {
        plan_id: "p2".to_string(),
        description: None,
        version: None,
        steps: vec![step(1, "call_tool", Some("t"), None), step(2, "call_tool", Some("t"), None)],
        is_succeeded: false,
        error_step_id: None,
    };
    let mut state = AgentState::new();
    let i = plan.next_pending_step(&state).unwrap();
    assert_eq!(i, 0);
    let cont = apply_step_outcome(
        &mut state,
        1,
        StepResult { output: "boom".to_string(), success: false },
    );
    assert!(!cont);
    assert_eq!(state.get_step_status(1), Some(StepStatus::Failed));
}

#[test]
fn test_unknown_action_refused() {
    let bad = step(7, "dance", None, None);
    match step_command(&bad) {
        StepCommand::Refuse(_) => {}
        other => panic!("unexpected command {:?}", other),
    }
    let toolless = step(8, "call_tool", None, None);
    match step_command(&toolless) {
        StepCommand::Refuse(_) => {}
        other => panic!("unexpected command {:?}", other),
    }
}
