//! Behaviour of the engine's parts on concrete values.
use stateflow::json::{compare_numbers, copy_value, get_type_name, values_equal};
use stateflow::parse::compile_text;
use stateflow::validation::{evaluate_condition, evaluate_validations, type_label_of};
use stateflow::{
    get_cache_size, Action, ActionHandler, CompiledSpec, Condition, ConfigError, FieldRule,
    JsonNumber, JsonType, JsonValue, Memory, SpecCache, StateMachine, TriggerError,
    ValidationError, ValidationRule, DEFAULT_CACHE_SIZE,
};
use std::cmp::Ordering;
use std::sync::Arc;

/// Records the command of every action it runs, in order.
struct Recorder;

impl ActionHandler<Vec<String>> for Recorder {
    fn handle(&self, action: &Action, _memory: &mut Memory, log: &mut Vec<String>) {
        log.push(action.command.clone());
    }
}

fn num(i: i64) -> JsonValue {
    if i >= 0 {
        JsonValue::Number(JsonNumber::PosInt(i as u64))
    } else {
        JsonValue::Number(JsonNumber::NegInt(i))
    }
}

fn float(x: f64) -> JsonValue {
    JsonValue::Number(JsonNumber::Float(x.to_bits()))
}

fn text(s: &str) -> JsonValue {
    JsonValue::String(s.to_string())
}

fn rule(field: &str, rules: Vec<FieldRule>, condition: Option<Condition>) -> ValidationRule {
    ValidationRule { field: field.to_string(), rules, condition }
}

fn cond(field: &str, operator: &str, value: JsonValue) -> Condition {
    Condition { field: field.to_string(), operator: operator.to_string(), value }
}

const ORDERED: &str = r#"{
    "states": [
        {"name": "A", "on_exit_actions": [{"action_type": "log", "command": "exit A"}]},
        {"name": "B", "on_enter_actions": [{"action_type": "log", "command": "enter B"}],
         "validations": [{"field": "x", "rules": [{"type": "type_check", "expected_type": "number"}]}]}
    ],
    "transitions": [
        {"from": "A", "event": "go", "to": "B",
         "actions": [{"action_type": "log", "command": "first go"}]},
        {"from": "A", "event": "go", "to": "B",
         "actions": [{"action_type": "log", "command": "A to B"}],
         "validations": [{"field": "ok", "rules": [{"type": "nullable", "is_nullable": false}]}]},
        {"from": "B", "event": "back", "to": "A"}
    ]
}"#;

#[test]
fn numbers_compare_by_exact_value() {
    assert_eq!(compare_numbers(JsonNumber::PosInt(20), JsonNumber::PosInt(18)), Ordering::Greater);
    assert_eq!(compare_numbers(JsonNumber::NegInt(-3), JsonNumber::PosInt(0)), Ordering::Less);
    assert_eq!(compare_numbers(JsonNumber::Float(18.5f64.to_bits()), JsonNumber::PosInt(18)), Ordering::Greater);
    assert_eq!(compare_numbers(JsonNumber::Float(18.0f64.to_bits()), JsonNumber::PosInt(18)), Ordering::Equal);
    assert_eq!(compare_numbers(JsonNumber::Float((-0.5f64).to_bits()), JsonNumber::NegInt(-1)), Ordering::Greater);
    assert_eq!(compare_numbers(JsonNumber::Float(1e300f64.to_bits()), JsonNumber::PosInt(u64::MAX)), Ordering::Greater);
    assert_eq!(compare_numbers(JsonNumber::Float(1e-300f64.to_bits()), JsonNumber::PosInt(0)), Ordering::Greater);
    assert_eq!(compare_numbers(JsonNumber::Float((-0.0f64).to_bits()), JsonNumber::PosInt(0)), Ordering::Equal);
}

#[test]
fn integers_compare_as_doubles() {
    let big = JsonNumber::PosInt(9007199254740993);
    let two53 = JsonNumber::Float(9007199254740992.0f64.to_bits());
    assert_eq!(compare_numbers(big, two53), Ordering::Equal);
    assert_eq!(compare_numbers(JsonNumber::PosInt(u64::MAX), JsonNumber::Float(18446744073709551616.0f64.to_bits())), Ordering::Equal);
    assert_eq!(compare_numbers(JsonNumber::NegInt(i64::MIN), JsonNumber::Float((-9223372036854775808.0f64).to_bits())), Ordering::Equal);
    assert_eq!(compare_numbers(JsonNumber::PosInt(9007199254740995), JsonNumber::PosInt(9007199254740996)), Ordering::Equal);
}

#[test]
fn nan_fails_bounds() {
    let mut m = Memory::new();
    m.insert("n".to_string(), JsonValue::Number(JsonNumber::Float(0x7ff8000000000001)));
    let r = evaluate_validations(&vec![rule("n", vec![FieldRule::MinValue { value: JsonNumber::PosInt(0) }], None)], &m);
    match r {
        Err(e @ ValidationError::BelowMinimum { .. }) => assert_eq!(
            e.message(),
            "Validation failed: Field 'n' value 'NaN' is less than minimum '0'"
        ),
        other => panic!("unexpected: {:?}", other),
    }
    let r = evaluate_validations(&vec![rule("n", vec![FieldRule::MaxValue { value: JsonNumber::PosInt(0) }], None)], &m);
    assert!(matches!(r, Err(ValidationError::AboveMaximum { .. })));
}

#[test]
fn number_texts() {
    let mut m = Memory::new();
    m.insert("v".to_string(), float(18.5));
    let r = evaluate_validations(&vec![rule("v", vec![FieldRule::MaxValue { value: JsonNumber::Float(4.0f64.to_bits()) }], None)], &m);
    match r {
        Err(e) => assert_eq!(e.message(), "Validation failed: Field 'v' value '18.5' is greater than maximum '4.0'"),
        other => panic!("unexpected: {:?}", other),
    }
    m.insert("v".to_string(), float(-0.1));
    let r = evaluate_validations(&vec![rule("v", vec![FieldRule::MinValue { value: JsonNumber::PosInt(0) }], None)], &m);
    assert_eq!(
        r.unwrap_err().message(),
        "Validation failed: Field 'v' value '-0.1000000000000000055511151231257827021181583404541015625' is less than minimum '0'"
    );
    m.insert("v".to_string(), float(1e-300));
    let r = evaluate_validations(&vec![rule("v", vec![FieldRule::MaxValue { value: JsonNumber::PosInt(0) }], None)], &m);
    assert!(r.unwrap_err().message().contains("*2^-"));
    m.insert("v".to_string(), num(-7));
    let r = evaluate_validations(&vec![rule("v", vec![FieldRule::MinValue { value: JsonNumber::PosInt(0) }], None)], &m);
    assert_eq!(r.unwrap_err().message(), "Validation failed: Field 'v' value '-7' is less than minimum '0'");
}

#[test]
fn type_names_and_labels() {
    assert_eq!(get_type_name(&JsonValue::Null), JsonType::Null);
    assert_eq!(get_type_name(&JsonValue::Bool(true)), JsonType::Boolean);
    assert_eq!(get_type_name(&num(3)), JsonType::Number);
    assert_eq!(get_type_name(&text("a")), JsonType::String);
    assert_eq!(get_type_name(&JsonValue::Array(vec![])), JsonType::Array);
    assert_eq!(get_type_name(&JsonValue::Object(vec![])), JsonType::Object);
    assert_eq!(type_label_of(JsonType::Boolean), "boolean");
    assert_eq!(type_label_of(JsonType::Object), "object");
}

#[test]
fn value_equality_and_copies() {
    let a = JsonValue::Object(vec![("k".to_string(), JsonValue::Array(vec![num(1), text("x")]))]);
    let b = copy_value(&a);
    assert!(values_equal(&a, &b));
    let c = JsonValue::Object(vec![("k".to_string(), JsonValue::Array(vec![num(1), text("y")]))]);
    assert!(!values_equal(&a, &c));
    assert!(!values_equal(&num(1), &float(1.0)));
    assert!(values_equal(&float(0.0), &float(-0.0)));
    assert!(!values_equal(&float(0.5), &float(-0.5)));
}

#[test]
fn memory_insert_replaces() {
    let mut m = Memory::new();
    assert_eq!(m.len(), 0);
    m.insert("a".to_string(), num(1));
    m.insert("b".to_string(), num(2));
    m.insert("a".to_string(), num(3));
    assert_eq!(m.len(), 2);
    assert!(values_equal(m.get("a").unwrap(), &num(3)));
    assert!(m.get("c").is_none());
}

#[test]
fn each_field_rule_violation() {
    let mut m = Memory::new();
    m.insert("n".to_string(), num(5));
    m.insert("s".to_string(), text("x"));
    let check = |r: ValidationRule| evaluate_validations(&vec![r], &m);
    assert!(matches!(check(rule("missing", vec![FieldRule::TypeCheck { expected_type: "number".to_string() }], None)),
        Err(ValidationError::MissingField { .. })));
    match check(rule("s", vec![FieldRule::TypeCheck { expected_type: "number".to_string() }], None)) {
        Err(ValidationError::TypeMismatch { field, expected, actual }) => {
            assert_eq!(field, "s");
            assert_eq!(expected, "number");
            assert_eq!(actual, JsonType::String);
        }
        other => panic!("unexpected: {:?}", other),
    }
    assert!(matches!(check(rule("missing", vec![FieldRule::Nullable { is_nullable: false }], None)),
        Err(ValidationError::NotNullable { .. })));
    assert!(check(rule("missing", vec![FieldRule::Nullable { is_nullable: true }], None)).is_ok());
    assert!(matches!(check(rule("s", vec![FieldRule::MinValue { value: JsonNumber::PosInt(1) }], None)),
        Err(ValidationError::NotANumber { .. })));
    match check(rule("n", vec![FieldRule::MinValue { value: JsonNumber::PosInt(6) }], None)) {
        Err(e @ ValidationError::BelowMinimum { .. }) => assert_eq!(
            e.message(),
            "Validation failed: Field 'n' value '5' is less than minimum '6'"
        ),
        other => panic!("unexpected: {:?}", other),
    }
    assert!(matches!(check(rule("n", vec![FieldRule::MaxValue { value: JsonNumber::PosInt(4) }], None)),
        Err(ValidationError::AboveMaximum { .. })));
    assert!(check(rule("n", vec![FieldRule::MinValue { value: JsonNumber::PosInt(5) },
        FieldRule::MaxValue { value: JsonNumber::PosInt(5) }], None)).is_ok());
    match check(rule("s", vec![FieldRule::Enum { values: vec![text("a"), num(2)] }], None)) {
        Err(e @ ValidationError::NotInEnum { .. }) => assert_eq!(
            e.message(),
            "Validation failed: Field 's' value '\"x\"' is not in enum [\"a\", 2]"
        ),
        other => panic!("unexpected: {:?}", other),
    }
    assert!(check(rule("s", vec![FieldRule::Enum { values: vec![text("a"), text("x")] }], None)).is_ok());
    assert!(check(rule("missing", vec![FieldRule::Editable { is_editable: false },
        FieldRule::ReadOnly { is_read_only: true }], None)).is_ok());
}

#[test]
fn first_failure_is_reported() {
    let m = Memory::new();
    let rules = vec![
        rule("a", vec![FieldRule::Nullable { is_nullable: false }], None),
        rule("b", vec![FieldRule::TypeCheck { expected_type: "string".to_string() }], None),
    ];
    match evaluate_validations(&rules, &m) {
        Err(ValidationError::NotNullable { field }) => assert_eq!(field, "a"),
        other => panic!("unexpected: {:?}", other),
    }
}

#[test]
fn condition_operators() {
    let mut m = Memory::new();
    m.insert("n".to_string(), num(10));
    m.insert("s".to_string(), text("x"));
    assert_eq!(evaluate_condition(&cond("n", "==", num(10)), &m).unwrap(), true);
    assert_eq!(evaluate_condition(&cond("n", "!=", num(10)), &m).unwrap(), false);
    assert_eq!(evaluate_condition(&cond("n", ">", num(9)), &m).unwrap(), true);
    assert_eq!(evaluate_condition(&cond("n", "<", num(9)), &m).unwrap(), false);
    assert_eq!(evaluate_condition(&cond("n", ">=", num(10)), &m).unwrap(), true);
    assert_eq!(evaluate_condition(&cond("n", "<=", float(9.5)), &m).unwrap(), false);
    match evaluate_condition(&cond("s", ">", num(1)), &m) {
        Err(e @ ValidationError::NotComparable { .. }) => {
            assert_eq!(e.message(), "Cannot compare non-numeric value '\"x\"' in condition")
        }
        other => panic!("unexpected: {:?}", other),
    }
    let nan = JsonValue::Number(JsonNumber::Float(0x7ff8000000000000));
    m.insert("q".to_string(), nan);
    assert_eq!(evaluate_condition(&cond("q", ">", num(1)), &m).unwrap(), false);
    assert_eq!(evaluate_condition(&cond("q", "<", num(1)), &m).unwrap(), false);
    assert_eq!(evaluate_condition(&cond("q", ">=", num(1)), &m).unwrap(), false);
    assert_eq!(evaluate_condition(&cond("q", "<=", num(1)), &m).unwrap(), false);
    assert_eq!(evaluate_condition(&cond("n", ">=", float(f64::NAN)), &m).unwrap(), false);
    assert!(matches!(evaluate_condition(&cond("absent", "==", num(1)), &m),
        Err(ValidationError::ConditionFieldMissing { .. })));
    match evaluate_condition(&cond("n", "=~", num(1)), &m) {
        Err(ValidationError::UnsupportedOperator { operator }) => assert_eq!(operator, "=~"),
        other => panic!("unexpected: {:?}", other),
    }
}

#[test]
fn false_condition_skips_rule() {
    let mut m = Memory::new();
    m.insert("email_required".to_string(), JsonValue::Bool(false));
    let r = rule("email", vec![FieldRule::TypeCheck { expected_type: "string".to_string() }],
        Some(cond("email_required", "==", JsonValue::Bool(true))));
    assert!(evaluate_validations(&vec![r], &m).is_ok());
}

#[test]
fn condition_on_missing_field_fails() {
    let m = Memory::new();
    let r = rule("email", vec![], Some(cond("email_required", "==", JsonValue::Bool(true))));
    assert!(matches!(evaluate_validations(&vec![r], &m),
        Err(ValidationError::ConditionFieldMissing { .. })));
}

fn start(text: &str, initial: Option<&str>) -> Result<StateMachine<Vec<String>, Recorder>, ConfigError> {
    StateMachine::new(text, initial.map(|s| s.to_string()), Recorder, Memory::new(), Vec::new())
}

#[test]
fn actions_run_exit_then_transition_then_enter() {
    let mut m = start(ORDERED, None).unwrap();
    assert_eq!(m.get_current_state(), "A");
    m.memory_mut().insert("ok".to_string(), JsonValue::Bool(true));
    m.memory_mut().insert("x".to_string(), num(1));
    assert!(m.trigger("go").is_ok());
    assert_eq!(m.get_current_state(), "B");
    assert_eq!(m.context(), &vec!["exit A".to_string(), "A to B".to_string(), "enter B".to_string()]);
}

#[test]
fn unknown_event_runs_no_action() {
    let mut m = start(ORDERED, Some("A")).unwrap();
    assert!(matches!(m.trigger("nope"), Err(TriggerError::NoSuchTransition { .. })));
    assert_eq!(m.get_current_state(), "A");
    assert!(m.context().is_empty());
}

#[test]
fn failed_validation_runs_no_action() {
    let mut m = start(ORDERED, Some("A")).unwrap();
    match m.trigger("go") {
        Err(TriggerError::ValidationFailed { error: ValidationError::NotNullable { field } }) => {
            assert_eq!(field, "ok")
        }
        other => panic!("unexpected: {:?}", other),
    }
    assert_eq!(m.get_current_state(), "A");
    assert!(m.context().is_empty());
    m.memory_mut().insert("ok".to_string(), JsonValue::Bool(true));
    assert!(m.trigger("go").is_ok());
    // B's own validation needs a number in x before leaving B.
    assert!(matches!(m.trigger("back"),
        Err(TriggerError::ValidationFailed { error: ValidationError::MissingField { .. } })));
    assert_eq!(m.get_current_state(), "B");
    assert_eq!(m.context().len(), 3);
}

#[test]
fn plan_lists_actions_in_order() {
    let mut m = start(ORDERED, None).unwrap();
    m.memory_mut().insert("ok".to_string(), JsonValue::Bool(true));
    let plan = m.plan_trigger("go").unwrap();
    let table = m.table();
    let (actions, entry) = plan.actions(&table);
    let commands: Vec<String> = actions.iter().map(|a| a.command.clone()).collect();
    assert_eq!(commands, vec!["exit A".to_string(), "A to B".to_string(), "enter B".to_string()]);
    assert_eq!(entry, 2);
}

#[test]
fn plan_then_enter_state() {
    let mut m = start(ORDERED, None).unwrap();
    m.memory_mut().insert("ok".to_string(), JsonValue::Bool(true));
    let plan = m.plan_trigger("go").unwrap();
    assert_eq!(plan.from, 0);
    assert_eq!(plan.transition, 1);
    assert_eq!(plan.target, 1);
    assert_eq!(m.get_current_state(), "A");
    assert!(m.enter_state(plan.target));
    assert_eq!(m.get_current_state(), "B");
    assert!(!m.enter_state(7));
    assert_eq!(m.get_current_state(), "B");
}

#[test]
fn configuration_errors() {
    assert!(matches!(start("{not json", None), Err(ConfigError::MalformedInput { .. })));
    match start(r#"{"states": [{"name": 3}], "transitions": [{"from": "A"}]}"#, None) {
        Err(ConfigError::SchemaViolation { messages }) => assert_eq!(
            messages,
            vec![
                "a state needs a string member 'name'".to_string(),
                "a transition needs string members 'from', 'event' and 'to'".to_string(),
            ]
        ),
        _ => panic!("expected a schema violation"),
    }
    assert!(matches!(start(r#"{"states": []}"#, None), Err(ConfigError::SchemaViolation { .. })));
    assert!(matches!(start(r#"{"states": [], "transitions": []}"#, None), Err(ConfigError::NoStates)));
    match start(r#"{"states": [{"name": "A"}, {"name": "B"}, {"name": "A"}], "transitions": []}"#, None) {
        Err(ConfigError::DuplicateState { name }) => assert_eq!(name, "A"),
        _ => panic!("expected a duplicate state"),
    }
    match start(r#"{"states": [{"name": "A"}], "transitions": [{"from": "X", "event": "e", "to": "A"}]}"#, None) {
        Err(ConfigError::UnknownFromState { name }) => assert_eq!(name, "X"),
        _ => panic!("expected an unknown source"),
    }
    match start(r#"{"states": [{"name": "A"}], "transitions": [{"from": "A", "event": "e", "to": "Y"}]}"#, None) {
        Err(ConfigError::UnknownToState { name }) => assert_eq!(name, "Y"),
        _ => panic!("expected an unknown target"),
    }
    assert!(matches!(
        start(r#"{"states": [{"name": "A"}], "transitions": [{"from": "A", "event": " \t", "to": "A"}]}"#, None),
        Err(ConfigError::EmptyEvent { .. })));
    match start(r#"{"states": [{"name": "A"}], "transitions": []}"#, Some("Z")) {
        Err(ConfigError::UnknownInitialState { name }) => assert_eq!(name, "Z"),
        _ => panic!("expected an unknown initial state"),
    }
    assert!(matches!(
        start(r#"{"states": [{"name": "A", "validations": [{"field": "f", "rules": [{"type": "shiny"}]}]}], "transitions": []}"#, None),
        Err(ConfigError::SchemaViolation { .. })));
}

#[test]
fn first_state_is_default() {
    let m = start(r#"{"states": [{"name": "P"}, {"name": "Q"}], "transitions": []}"#, None).unwrap();
    assert_eq!(m.get_current_state(), "P");
    let m = start(r#"{"states": [{"name": "P"}, {"name": "Q"}], "transitions": []}"#, Some("Q")).unwrap();
    assert_eq!(m.get_current_state(), "Q");
}

#[test]
fn fractional_bounds_from_text() {
    let spec = r#"{"states": [{"name": "S", "validations": [{"field": "v",
        "rules": [{"type": "min_value", "value": 18.5}, {"type": "max_value", "value": 1e2}]}]},
        {"name": "T"}], "transitions": [{"from": "S", "event": "go", "to": "T"}]}"#;
    let mut m = start(spec, None).unwrap();
    m.memory_mut().insert("v".to_string(), num(18));
    assert!(m.trigger("go").is_err());
    m.memory_mut().insert("v".to_string(), num(101));
    assert!(m.trigger("go").is_err());
    m.memory_mut().insert("v".to_string(), num(19));
    assert!(m.trigger("go").is_ok());
}

#[test]
fn enum_rule_from_text() {
    let spec = r#"{"states": [{"name": "S", "validations": [{"field": "c",
        "rules": [{"type": "enum", "values": ["red", 2, null]}]}]}, {"name": "T"}],
        "transitions": [{"from": "S", "event": "go", "to": "T"}]}"#;
    let mut m = start(spec, None).unwrap();
    m.memory_mut().insert("c".to_string(), text("blue"));
    assert!(m.trigger("go").is_err());
    m.memory_mut().insert("c".to_string(), JsonValue::Null);
    assert!(m.trigger("go").is_ok());
}

#[test]
fn compiling_twice_agrees() {
    let a: CompiledSpec = compile_text(ORDERED).unwrap();
    let b: CompiledSpec = compile_text(ORDERED).unwrap();
    assert_eq!(a.state_count(), b.state_count());
    for i in 0..a.state_count() {
        assert_eq!(a.state(i).name, b.state(i).name);
    }
    let bad = r#"{"states": [{"name": "A"}], "transitions": [{"from": "A", "event": "e", "to": "Q"}]}"#;
    for _ in 0..2 {
        match compile_text(bad) {
            Err(ConfigError::UnknownToState { name }) => assert_eq!(name, "Q"),
            _ => panic!("expected an unknown target"),
        }
    }
}

#[test]
fn cache_shares_tables() {
    let mut cache = SpecCache::new(0);
    let t1 = cache.get_or_compile(ORDERED).unwrap();
    let t2 = cache.get_or_compile(ORDERED).unwrap();
    assert!(Arc::ptr_eq(&t1, &t2));
    assert!(cache.get_or_compile("{").is_err());
    let m1: StateMachine<Vec<String>, Recorder> =
        StateMachine::with_cache(&mut cache, ORDERED, None, Recorder, Memory::new(), Vec::new()).unwrap();
    assert!(Arc::ptr_eq(&m1.table(), &t1));
}

#[test]
fn cache_evicts_least_recently_used() {
    let one = r#"{"states": [{"name": "one"}], "transitions": []}"#;
    let two = r#"{"states": [{"name": "two"}], "transitions": []}"#;
    let mut cache = SpecCache::new(1);
    let a = cache.get_or_compile(one).unwrap();
    let _ = cache.get_or_compile(two).unwrap();
    let c = cache.get_or_compile(one).unwrap();
    assert!(!Arc::ptr_eq(&a, &c));
}

#[test]
fn cache_size_setting() {
    assert_eq!(get_cache_size(None), DEFAULT_CACHE_SIZE);
    assert_eq!(get_cache_size(Some("0")), 100);
    assert_eq!(get_cache_size(Some("abc")), 100);
    assert_eq!(get_cache_size(Some("-3")), 100);
    assert_eq!(get_cache_size(Some("+7")), 7);
    assert_eq!(get_cache_size(Some("250")), 250);
}

#[test]
fn error_messages() {
    assert_eq!(ConfigError::NoStates.message(), "State machine must have at least one state.");
    assert_eq!(
        ConfigError::DuplicateState { name: "A".to_string() }.message(),
        "Duplicate state found: A"
    );
    assert_eq!(
        ConfigError::EmptyEvent { from: "A".to_string(), to: "B".to_string() }.message(),
        "Transition from 'A' to 'B' has an empty event."
    );
    assert_eq!(
        ConfigError::UnknownToState { name: "Q".to_string() }.message(),
        "Transition 'to' state 'Q' is not defined in the states list."
    );
    assert_eq!(
        ConfigError::SchemaViolation { messages: vec!["one".to_string(), "two".to_string()] }.message(),
        "JSON configuration does not conform to schema: one, two"
    );
    assert_eq!(
        ValidationError::TypeMismatch {
            field: "age".to_string(),
            expected: "number".to_string(),
            actual: JsonType::String,
        }
        .message(),
        "Validation failed: Field 'age' expected type 'number', got 'string'"
    );
    assert_eq!(
        TriggerError::NoSuchTransition { event: "Fail".to_string(), state: "Completed".to_string() }
            .message(),
        "No transition found for event 'Fail' from state 'Completed'."
    );
    assert_eq!(
        TriggerError::ValidationFailed {
            error: ValidationError::NotNullable { field: "ok".to_string() }
        }
        .message(),
        "Validation failed: Field 'ok' cannot be null"
    );
}

#[test]
fn saved_state_restores() {
    let mut m = start(ORDERED, None).unwrap();
    m.memory_mut().insert("ok".to_string(), JsonValue::Bool(true));
    assert!(m.trigger("go").is_ok());
    let saved = m.save_state();
    assert_eq!(saved, "B");
    let restored = start(ORDERED, Some(&saved)).unwrap();
    assert_eq!(restored.get_current_state(), "B");
}

#[test]
fn memory_remove() {
    let mut m = Memory::new();
    m.insert("a".to_string(), num(1));
    m.insert("b".to_string(), num(2));
    assert!(m.contains_key("a"));
    let v = m.remove("a").unwrap();
    assert!(values_equal(&v, &num(1)));
    assert!(!m.contains_key("a"));
    assert!(m.remove("a").is_none());
    assert_eq!(m.len(), 1);
}
