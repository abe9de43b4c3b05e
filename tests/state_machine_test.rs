//! The machine driven synchronously through specifications with validations,
//! conditions, counters and saved states.
use stateflow::{
    Action, ActionHandler, JsonNumber, JsonValue, Memory, StateMachine, TriggerError,
};

/// Context used in the tests.
struct Context {}

/// Prints each action; `increment_counter` bumps the `counter` field of memory.
struct TestHandler;

fn as_i64(v: Option<&JsonValue>) -> i64 {
    match v {
        Some(JsonValue::Number(JsonNumber::PosInt(u))) => *u as i64,
        Some(JsonValue::Number(JsonNumber::NegInt(i))) => *i,
        _ => 0,
    }
}

fn int_value(i: i64) -> JsonValue {
    if i >= 0 {
        JsonValue::Number(JsonNumber::PosInt(i as u64))
    } else {
        JsonValue::Number(JsonNumber::NegInt(i))
    }
}

impl ActionHandler<Context> for TestHandler {
    fn handle(&self, action: &Action, memory: &mut Memory, _context: &mut Context) {
        println!(
            "Test executing action: Type: {}, Command: {}",
            action.action_type, action.command
        );
        if action.action_type == "increment_counter" {
            let next = as_i64(memory.get("counter")) + 1;
            memory.insert("counter".to_string(), int_value(next));
        }
    }
}

#[test]
fn state_machine_test_test_complex_state_machine() {
    let json_config = r#"
    {
        "states": [
            {
                "name": "Idle",
                "on_enter_actions": [
                    {
                        "action_type": "log",
                        "command": "Entering Idle state"
                    }
                ],
                "on_exit_actions": [
                    {
                        "action_type": "log",
                        "command": "Exiting Idle state"
                    }
                ],
                "validations": []
            },
            {
                "name": "Running",
                "on_enter_actions": [
                    {
                        "action_type": "log",
                        "command": "Starting Running state"
                    },
                    {
                        "action_type": "execute",
                        "command": "StartProcess"
                    }
                ],
                "on_exit_actions": [
                    {
                        "action_type": "log",
                        "command": "Stopping Running state"
                    }
                ],
                "validations": []
            },
            {
                "name": "Paused",
                "on_enter_actions": [
                    {
                        "action_type": "log",
                        "command": "Entering Paused state"
                    }
                ],
                "on_exit_actions": [
                    {
                        "action_type": "log",
                        "command": "Exiting Paused state"
                    }
                ],
                "validations": []
            },
            {
                "name": "Completed",
                "on_enter_actions": [
                    {
                        "action_type": "log",
                        "command": "Task completed"
                    }
                ],
                "on_exit_actions": [],
                "validations": []
            },
            {
                "name": "Failed",
                "on_enter_actions": [
                    {
                        "action_type": "log",
                        "command": "Entering Failed state"
                    },
                    {
                        "action_type": "alert",
                        "command": "NotifyAdmin"
                    }
                ],
                "on_exit_actions": [],
                "validations": []
            }
        ],
        "transitions": [
            {
                "from": "Idle",
                "event": "Start",
                "to": "Running",
                "actions": [
                    {
                        "action_type": "log",
                        "command": "Transitioning from Idle to Running"
                    }
                ],
                "validations": []
            },
            {
                "from": "Running",
                "event": "Pause",
                "to": "Paused",
                "actions": [
                    {
                        "action_type": "log",
                        "command": "Pausing the process"
                    }
                ],
                "validations": []
            },
            {
                "from": "Paused",
                "event": "Resume",
                "to": "Running",
                "actions": [
                    {
                        "action_type": "log",
                        "command": "Resuming the process"
                    }
                ],
                "validations": []
            },
            {
                "from": "Running",
                "event": "Complete",
                "to": "Completed",
                "actions": [
                    {
                        "action_type": "log",
                        "command": "Completing the task"
                    }
                ],
                "validations": []
            },
            {
                "from": "Running",
                "event": "Fail",
                "to": "Failed",
                "actions": [
                    {
                        "action_type": "log",
                        "command": "Process failed"
                    }
                ],
                "validations": []
            },
            {
                "from": "Paused",
                "event": "Fail",
                "to": "Failed",
                "actions": [
                    {
                        "action_type": "log",
                        "command": "Process failed while paused"
                    }
                ],
                "validations": []
            }
        ]
    }
    "#;
    let memory = Memory::new();
    let mut state_machine = StateMachine::new(
        json_config,
        Some("Idle".to_string()),
        TestHandler,
        memory,
        Context {},
    )
    .expect("Failed to initialize state machine");
    assert!(
        state_machine.trigger("Start").is_ok(),
        "Failed to start the state machine"
    );
    assert!(
        state_machine.trigger("Pause").is_ok(),
        "Failed to pause the state machine"
    );
    assert!(
        state_machine.trigger("Resume").is_ok(),
        "Failed to resume the state machine"
    );
    assert!(
        state_machine.trigger("Complete").is_ok(),
        "Failed to complete the state machine"
    );
    assert!(
        state_machine.trigger("Fail").is_err(),
        "Unexpectedly succeeded in failing from a completed state"
    );
}

#[test]
fn test_basic_transitions() {
    let json_config = r#"
    {
        "states": [
            {
                "name": "A",
                "on_enter_actions": [],
                "on_exit_actions": [],
                "validations": []
            },
            {
                "name": "B",
                "on_enter_actions": [],
                "on_exit_actions": [],
                "validations": []
            }
        ],
        "transitions": [
            {
                "from": "A",
                "event": "go_to_b",
                "to": "B",
                "actions": [],
                "validations": []
            }
        ]
    }
    "#;
    let memory = Memory::new();
    let mut state_machine = StateMachine::new(
        json_config,
        Some("A".to_string()),
        TestHandler,
        memory,
        Context {},
    )
    .expect("Failed to initialize state machine");
    assert_eq!(state_machine.get_current_state(), "A");
    assert!(
        state_machine.trigger("go_to_b").is_ok(),
        "Failed to transition to state B"
    );
    assert_eq!(state_machine.get_current_state(), "B");
    assert!(
        state_machine.trigger("invalid_event").is_err(),
        "Unexpectedly succeeded with an invalid event"
    );
}

#[test]
fn test_state_validations() {
    let json_config = r#"
    {
        "states": [
            {
                "name": "Start",
                "on_enter_actions": [],
                "on_exit_actions": [],
                "validations": [
                    {
                        "field": "age",
                        "rules": [
                            { "type": "type_check", "expected_type": "number" },
                            { "type": "min_value", "value": 18 }
                        ]
                    }
                ]
            },
            {
                "name": "End",
                "on_enter_actions": [],
                "on_exit_actions": [],
                "validations": []
            }
        ],
        "transitions": [
            {
                "from": "Start",
                "event": "proceed",
                "to": "End",
                "actions": [],
                "validations": []
            }
        ]
    }
    "#;
    let mut memory = Memory::new();
    memory.insert("age".to_string(), int_value(16));
    let mut state_machine = StateMachine::new(
        json_config,
        Some("Start".to_string()),
        TestHandler,
        memory,
        Context {},
    )
    .expect("Failed to initialize state machine");
    assert!(
        state_machine.trigger("proceed").is_err(),
        "Unexpectedly succeeded despite failing state validation"
    );
    state_machine
        .memory_mut()
        .insert("age".to_string(), int_value(20));
    assert!(
        state_machine.trigger("proceed").is_ok(),
        "Failed to proceed after passing validation"
    );
    assert_eq!(state_machine.get_current_state(), "End");
}

#[test]
fn test_transition_validations() {
    let json_config = r#"
    {
        "states": [
            {
                "name": "Init",
                "on_enter_actions": [],
                "on_exit_actions": [],
                "validations": []
            },
            {
                "name": "Processed",
                "on_enter_actions": [],
                "on_exit_actions": [],
                "validations": []
            }
        ],
        "transitions": [
            {
                "from": "Init",
                "event": "process",
                "to": "Processed",
                "actions": [],
                "validations": [
                    {
                        "field": "approved",
                        "rules": [
                            { "type": "type_check", "expected_type": "boolean" },
                            { "type": "nullable", "is_nullable": false }
                        ]
                    }
                ]
            }
        ]
    }
    "#;
    let memory = Memory::new();
    let mut state_machine = StateMachine::new(
        json_config,
        Some("Init".to_string()),
        TestHandler,
        memory,
        Context {},
    )
    .expect("Failed to initialize state machine");
    assert!(
        state_machine.trigger("process").is_err(),
        "Unexpectedly succeeded despite failing transition validation"
    );
    state_machine
        .memory_mut()
        .insert("approved".to_string(), JsonValue::Bool(true));
    assert!(
        state_machine.trigger("process").is_ok(),
        "Failed to process after passing validation"
    );
    assert_eq!(state_machine.get_current_state(), "Processed");
}

#[test]
fn test_conditional_validations() {
    let json_config = r#"
    {
        "states": [
            {
                "name": "Form",
                "on_enter_actions": [],
                "on_exit_actions": [],
                "validations": [
                    {
                        "field": "email",
                        "rules": [
                            { "type": "type_check", "expected_type": "string" }
                        ],
                        "condition": {
                            "field": "email_required",
                            "operator": "==",
                            "value": true
                        }
                    }
                ]
            },
            {
                "name": "Submitted",
                "on_enter_actions": [],
                "on_exit_actions": [],
                "validations": []
            }
        ],
        "transitions": [
            {
                "from": "Form",
                "event": "submit",
                "to": "Submitted",
                "actions": [],
                "validations": []
            }
        ]
    }
    "#;
    let mut memory = Memory::new();
    memory.insert("email_required".to_string(), JsonValue::Bool(true));
    let mut state_machine = StateMachine::new(
        json_config,
        Some("Form".to_string()),
        TestHandler,
        memory,
        Context {},
    )
    .expect("Failed to initialize state machine");
    assert!(
        state_machine.trigger("submit").is_err(),
        "Unexpectedly succeeded despite failing conditional validation"
    );
    state_machine.memory_mut().insert(
        "email".to_string(),
        JsonValue::String("user@example.com".to_string()),
    );
    assert!(
        state_machine.trigger("submit").is_ok(),
        "Failed to submit after passing conditional validation"
    );
    assert_eq!(state_machine.get_current_state(), "Submitted");
}

#[test]
fn test_context_manipulation() {
    let json_config = r#"
    {
        "states": [
            {
                "name": "Init",
                "on_enter_actions": [],
                "on_exit_actions": [],
                "validations": []
            },
            {
                "name": "Counter",
                "on_enter_actions": [
                    {
                        "action_type": "increment_counter",
                        "command": ""
                    }
                ],
                "on_exit_actions": [],
                "validations": []
            },
            {
                "name": "End",
                "on_enter_actions": [],
                "on_exit_actions": [],
                "validations": []
            }
        ],
        "transitions": [
            {
                "from": "Init",
                "event": "start",
                "to": "Counter",
                "actions": [],
                "validations": []
            },
            {
                "from": "Counter",
                "event": "finish",
                "to": "End",
                "actions": [],
                "validations": []
            }
        ]
    }
    "#;
    let mut memory = Memory::new();
    memory.insert("counter".to_string(), int_value(0));
    let mut state_machine = StateMachine::new(
        json_config,
        Some("Init".to_string()),
        TestHandler,
        memory,
        Context {},
    )
    .expect("Failed to initialize state machine");
    assert!(state_machine.trigger("start").is_ok(), "Failed to start counter");
    let counter = as_i64(state_machine.memory().get("counter"));
    assert_eq!(
        counter, 1,
        "Counter was not incremented on entering Counter state"
    );
    assert!(state_machine.trigger("finish").is_ok(), "Failed to finish");
    let counter = as_i64(state_machine.memory().get("counter"));
    assert_eq!(
        counter, 1,
        "Counter changed unexpectedly after transitioning to End state"
    );
}

#[test]
fn test_invalid_configuration() {
    let invalid_json_config = r#"
    {
        "states": [],
        "transitions": []
    }
    "#;
    let memory = Memory::new();
    let result = StateMachine::new(invalid_json_config, None, TestHandler, memory, Context {});
    assert!(
        result.is_err(),
        "StateMachine initialized with invalid configuration"
    );
}

#[test]
fn test_state_persistence() {
    let json_config = r#"
    {
        "states": [
            {
                "name": "First",
                "on_enter_actions": [],
                "on_exit_actions": [],
                "validations": []
            },
            {
                "name": "Second",
                "on_enter_actions": [],
                "on_exit_actions": [],
                "validations": []
            }
        ],
        "transitions": [
            {
                "from": "First",
                "event": "next",
                "to": "Second",
                "actions": [],
                "validations": []
            }
        ]
    }
    "#;
    let memory = Memory::new();
    let mut state_machine = StateMachine::new(
        json_config,
        Some("First".to_string()),
        TestHandler,
        memory,
        Context {},
    )
    .expect("Failed to initialize state machine");
    assert!(
        state_machine.trigger("next").is_ok(),
        "Failed to transition to Second state"
    );
    let current_state = state_machine.get_current_state();
    assert_eq!(current_state, "Second");
    let new_state_machine = StateMachine::new(
        json_config,
        Some(current_state.clone()),
        TestHandler,
        Memory::new(),
        Context {},
    )
    .expect("Failed to initialize new state machine with saved state");
    assert_eq!(new_state_machine.get_current_state(), "Second");
}

/// A context with a counter.
struct MyContext {
    counter: i32,
}

/// Increments or resets the context's counter.
struct CounterHandler;

impl ActionHandler<MyContext> for CounterHandler {
    fn handle(&self, action: &Action, _memory: &mut Memory, context: &mut MyContext) {
        println!(
            "Executing action: Type: {}, Command: {}",
            action.action_type, action.command
        );
        if action.action_type == "increment_counter" {
            context.counter += 1;
        } else if action.action_type == "reset_counter" {
            context.counter = 0;
        }
    }
}

#[test]
fn test_context_usage() {
    let json_config = r#"
    {
        "states": [
            {
                "name": "Init",
                "validations": []
            },
            {
                "name": "Counting",
                "on_enter_actions": [],
                "on_exit_actions": [],
                "validations": []
            },
            {
                "name": "Reset",
                "on_enter_actions": [
                    {
                        "action_type": "reset_counter",
                        "command": ""
                    }
                ],
                "on_exit_actions": [],
                "validations": []
            }
        ],
        "transitions": [
            {
                "from": "Init",
                "event": "start_counting",
                "to": "Counting",
                "actions": [],
                "validations": []
            },
            {
                "from": "Counting",
                "event": "increment",
                "to": "Counting",
                "actions": [
                    {
                        "action_type": "increment_counter",
                        "command": ""
                    }
                ],
                "validations": []
            },
            {
                "from": "Counting",
                "event": "reset",
                "to": "Reset",
                "actions": [],
                "validations": []
            },
            {
                "from": "Reset",
                "event": "start_counting",
                "to": "Counting",
                "actions": [],
                "validations": []
            }
        ]
    }
    "#;
    let memory = Memory::new();
    let context = MyContext { counter: 0 };
    let mut state_machine = StateMachine::new(
        json_config,
        Some("Init".to_string()),
        CounterHandler,
        memory,
        context,
    )
    .expect("Failed to initialize state machine");
    assert!(
        state_machine.trigger("start_counting").is_ok(),
        "Failed to start counting"
    );
    assert_eq!(
        state_machine.context().counter, 0,
        "Counter should be 1 after first increment"
    );
    assert!(
        state_machine.trigger("increment").is_ok(),
        "Failed to increment counter"
    );
    assert_eq!(
        state_machine.context().counter, 1,
        "Counter should be 2 after second increment"
    );
    assert!(state_machine.trigger("reset").is_ok(), "Failed to reset counter");
    assert_eq!(state_machine.context().counter, 0, "Counter should be reset to 0");
    assert!(
        state_machine.trigger("start_counting").is_ok(),
        "Failed to start counting again"
    );
    assert_eq!(
        state_machine.context().counter, 0,
        "Counter should be 1 after restarting counting"
    );
    assert!(
        state_machine.trigger("increment").is_ok(),
        "Failed to start counting again"
    );
    assert_eq!(
        state_machine.context().counter, 1,
        "Counter should be 1 after restarting counting"
    );
}

#[test]
fn refused_trigger_reports_no_such_transition() {
    let json_config = r#"
    {
        "states": [
            {
                "name": "Idle",
                "on_enter_actions": [
                    {
                        "action_type": "log",
                        "command": "Entering Idle state"
                    }
                ],
                "on_exit_actions": [
                    {
                        "action_type": "log",
                        "command": "Exiting Idle state"
                    }
                ],
                "validations": []
            },
            {
                "name": "Running",
                "on_enter_actions": [
                    {
                        "action_type": "log",
                        "command": "Starting Running state"
                    },
                    {
                        "action_type": "execute",
                        "command": "StartProcess"
                    }
                ],
                "on_exit_actions": [
                    {
                        "action_type": "log",
                        "command": "Stopping Running state"
                    }
                ],
                "validations": []
            },
            {
                "name": "Paused",
                "on_enter_actions": [
                    {
                        "action_type": "log",
                        "command": "Entering Paused state"
                    }
                ],
                "on_exit_actions": [
                    {
                        "action_type": "log",
                        "command": "Exiting Paused state"
                    }
                ],
                "validations": []
            },
            {
                "name": "Completed",
                "on_enter_actions": [
                    {
                        "action_type": "log",
                        "command": "Task completed"
                    }
                ],
                "on_exit_actions": [],
                "validations": []
            },
            {
                "name": "Failed",
                "on_enter_actions": [
                    {
                        "action_type": "log",
                        "command": "Entering Failed state"
                    },
                    {
                        "action_type": "alert",
                        "command": "NotifyAdmin"
                    }
                ],
                "on_exit_actions": [],
                "validations": []
            }
        ],
        "transitions": [
            {
                "from": "Idle",
                "event": "Start",
                "to": "Running",
                "actions": [
                    {
                        "action_type": "log",
                        "command": "Transitioning from Idle to Running"
                    }
                ],
                "validations": []
            },
            {
                "from": "Running",
                "event": "Pause",
                "to": "Paused",
                "actions": [
                    {
                        "action_type": "log",
                        "command": "Pausing the process"
                    }
                ],
                "validations": []
            },
            {
                "from": "Paused",
                "event": "Resume",
                "to": "Running",
                "actions": [
                    {
                        "action_type": "log",
                        "command": "Resuming the process"
                    }
                ],
                "validations": []
            },
            {
                "from": "Running",
                "event": "Complete",
                "to": "Completed",
                "actions": [
                    {
                        "action_type": "log",
                        "command": "Completing the task"
                    }
                ],
                "validations": []
            },
            {
                "from": "Running",
                "event": "Fail",
                "to": "Failed",
                "actions": [
                    {
                        "action_type": "log",
                        "command": "Process failed"
                    }
                ],
                "validations": []
            },
            {
                "from": "Paused",
                "event": "Fail",
                "to": "Failed",
                "actions": [
                    {
                        "action_type": "log",
                        "command": "Process failed while paused"
                    }
                ],
                "validations": []
            }
        ]
    }
    "#;
    let mut state_machine = StateMachine::new(
        json_config,
        Some("Idle".to_string()),
        TestHandler,
        Memory::new(),
        Context {},
    )
    .expect("Failed to initialize state machine");
    for event in ["Start", "Pause", "Resume", "Complete"] {
        assert!(state_machine.trigger(event).is_ok());
    }
    assert_eq!(state_machine.get_current_state(), "Completed");
    match state_machine.trigger("Fail") {
        Err(TriggerError::NoSuchTransition { event, state }) => {
            assert_eq!(event, "Fail");
            assert_eq!(state, "Completed");
        }
        other => panic!("unexpected outcome: {:?}", other),
    }
    assert_eq!(state_machine.get_current_state(), "Completed");
}
