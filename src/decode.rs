//! Decoding a specification document into its declarations. The document
//! format: a top-level object with `states` and `transitions` arrays; see the
//! `decodes_*` functions for the shape of each piece. The format is this
//! crate's own, so its shape checks are written here as verified code (with
//! one message per violation, see [`config_issues`]) rather than handed to a
//! general JSON-schema validator, whose verdicts nothing here could state.
use crate::config::{ConfigError, MachineConfig, StateConfig, TransitionConfig};
use crate::json::{copy_value, json_equal, JsonValue};
use crate::model::{same_text, Action, Condition, FieldRule, ValidationRule};
use vstd::prelude::*;

verus! {

/// The value of the first member of `ms` at or after `i` whose key is `key`.
pub open spec fn member_from(ms: Seq<(String, JsonValue)>, key: Seq<char>, i: int) -> Option<
    JsonValue,
>
    decreases ms.len() - i,
{
    if i < 0 || i >= ms.len() {
        None
    } else if ms[i].0@ == key {
        Some(ms[i].1)
    } else {
        member_from(ms, key, i + 1)
    }
}

/// The member of object `v` named `key`.
pub open spec fn member(v: JsonValue, key: Seq<char>) -> Option<JsonValue> {
    match v {
        JsonValue::Object(ms) => member_from(ms@, key, 0),
        _ => None,
    }
}

/// The text of member `key` of `v`, when it is a string.
pub open spec fn text_member(v: JsonValue, key: Seq<char>) -> Option<String> {
    match member(v, key) {
        Some(JsonValue::String(s)) => Some(s),
        _ => None,
    }
}

/// An action object: `{action_type: string, command: string}`.
pub open spec fn decodes_action(v: JsonValue, a: Action) -> bool {
    &&& text_member(v, "action_type"@) == Some(a.action_type)
    &&& text_member(v, "command"@) == Some(a.command)
}

/// An optional array of actions; absent means none.
pub open spec fn decodes_actions(m: Option<JsonValue>, acts: Seq<Action>) -> bool {
    match m {
        None => acts.len() == 0,
        Some(JsonValue::Array(xs)) => xs@.len() == acts.len() && forall|i: int|
            0 <= i < acts.len() ==> #[trigger] decodes_action(xs@[i], acts[i]),
        _ => false,
    }
}

/// A field rule object, tagged by its `type` member.
pub open spec fn decodes_field_rule(v: JsonValue, r: FieldRule) -> bool {
    let ty = text_member(v, "type"@);
    ty is Some && {
        let t = ty->0@;
        if t == "type_check"@ {
            text_member(v, "expected_type"@) matches Some(s) && r == (FieldRule::TypeCheck {
                expected_type: s,
            })
        } else if t == "nullable"@ {
            member(v, "is_nullable"@) matches Some(JsonValue::Bool(b)) && r == (FieldRule::Nullable {
                is_nullable: b,
            })
        } else if t == "min_value"@ {
            member(v, "value"@) matches Some(JsonValue::Number(n)) && r == (FieldRule::MinValue {
                value: n,
            })
        } else if t == "max_value"@ {
            member(v, "value"@) matches Some(JsonValue::Number(n)) && r == (FieldRule::MaxValue {
                value: n,
            })
        } else if t == "editable"@ {
            member(v, "is_editable"@) matches Some(JsonValue::Bool(b)) && r == (FieldRule::Editable {
                is_editable: b,
            })
        } else if t == "read_only"@ {
            member(v, "is_read_only"@) matches Some(JsonValue::Bool(b)) && r == (
            FieldRule::ReadOnly { is_read_only: b })
        } else if t == "enum"@ {
            member(v, "values"@) matches Some(JsonValue::Array(xs)) && r is Enum && {
                let vs = r->Enum_values@;
                vs.len() == xs@.len() && forall|i: int|
                    0 <= i < vs.len() ==> #[trigger] json_equal(vs[i], xs@[i])
            }
        } else {
            false
        }
    }
}

/// A condition object: `{field: string, operator: string, value: any}`.
pub open spec fn decodes_condition(v: JsonValue, c: Condition) -> bool {
    &&& text_member(v, "field"@) == Some(c.field)
    &&& text_member(v, "operator"@) == Some(c.operator)
    &&& member(v, "value"@) matches Some(x) && json_equal(c.value, x)
}

/// A validation rule object: `{field: string, rules: [field rule], condition?}`.
pub open spec fn decodes_validation(v: JsonValue, r: ValidationRule) -> bool {
    &&& text_member(v, "field"@) == Some(r.field)
    &&& member(v, "rules"@) matches Some(JsonValue::Array(xs)) && xs@.len() == r.rules@.len()
        && forall|i: int|
        0 <= i < xs@.len() ==> #[trigger] decodes_field_rule(xs@[i], r.rules@[i])
    &&& match member(v, "condition"@) {
        None => r.condition is None,
        Some(c) => r.condition matches Some(rc) && decodes_condition(c, rc),
    }
}

/// An optional array of validation rules; absent means none.
pub open spec fn decodes_validations(m: Option<JsonValue>, rs: Seq<ValidationRule>) -> bool {
    match m {
        None => rs.len() == 0,
        Some(JsonValue::Array(xs)) => xs@.len() == rs.len() && forall|i: int|
            0 <= i < rs.len() ==> #[trigger] decodes_validation(xs@[i], rs[i]),
        _ => false,
    }
}

/// A state object: `{name: string, on_enter_actions?, on_exit_actions?, validations?}`.
pub open spec fn decodes_state(v: JsonValue, s: StateConfig) -> bool {
    &&& text_member(v, "name"@) == Some(s.name)
    &&& decodes_actions(member(v, "on_enter_actions"@), s.on_enter_actions@)
    &&& decodes_actions(member(v, "on_exit_actions"@), s.on_exit_actions@)
    &&& decodes_validations(member(v, "validations"@), s.validations@)
}

/// A transition object: `{from: string, event: string, to: string, actions?, validations?}`.
pub open spec fn decodes_transition(v: JsonValue, t: TransitionConfig) -> bool {
    &&& text_member(v, "from"@) == Some(t.from)
    &&& text_member(v, "event"@) == Some(t.event)
    &&& text_member(v, "to"@) == Some(t.to)
    &&& decodes_actions(member(v, "actions"@), t.actions@)
    &&& decodes_validations(member(v, "validations"@), t.validations@)
}

/// An array of states.
pub open spec fn decodes_states(m: Option<JsonValue>, out: Seq<StateConfig>) -> bool {
    m matches Some(JsonValue::Array(xs)) && xs@.len() == out.len() && forall|i: int|
        0 <= i < xs@.len() ==> #[trigger] decodes_state(xs@[i], out[i])
}

/// An array of transitions.
pub open spec fn decodes_transitions(m: Option<JsonValue>, out: Seq<TransitionConfig>) -> bool {
    m matches Some(JsonValue::Array(xs)) && xs@.len() == out.len() && forall|i: int|
        0 <= i < xs@.len() ==> #[trigger] decodes_transition(xs@[i], out[i])
}

/// A specification document: `{states: [state], transitions: [transition]}`.
pub open spec fn decodes_config(v: JsonValue, c: MachineConfig) -> bool {
    &&& decodes_states(member(v, "states"@), c.states@)
    &&& decodes_transitions(member(v, "transitions"@), c.transitions@)
}

/// A document that has the shape of a specification.
pub open spec fn conforms(v: JsonValue) -> bool {
    exists|c: MachineConfig| decodes_config(v, c)
}

pub open spec fn deref_opt(m: Option<&JsonValue>) -> Option<JsonValue> {
    match m {
        Some(x) => Some(*x),
        None => None,
    }
}

/// The characters of each message.
pub open spec fn views(s: Seq<String>) -> Seq<Seq<char>> {
    Seq::new(s.len(), |i: int| s[i]@)
}

/// The messages for `xs[..n]`, element by element, in order.
pub open spec fn issues_upto(
    xs: Seq<JsonValue>,
    n: int,
    f: spec_fn(JsonValue) -> Seq<Seq<char>>,
) -> Seq<Seq<char>>
    decreases n,
{
    if n <= 0 || n > xs.len() {
        Seq::empty()
    } else {
        issues_upto(xs, n - 1, f) + f(xs[n - 1])
    }
}

/// The messages for an action object: one when it lacks its members.
pub open spec fn action_issues(v: JsonValue) -> Seq<Seq<char>> {
    if text_member(v, "action_type"@) is Some && text_member(v, "command"@) is Some {
        Seq::empty()
    } else {
        seq!["an action needs string members 'action_type' and 'command'"@]
    }
}

/// The messages for an optional list of actions.
pub open spec fn actions_issues(m: Option<JsonValue>) -> Seq<Seq<char>> {
    match m {
        None => Seq::empty(),
        Some(JsonValue::Array(xs)) => issues_upto(xs@, xs@.len() as int, |x: JsonValue| action_issues(x)),
        _ => seq!["a list of actions must be an array"@],
    }
}

/// The messages for a field rule: one when it has no type, one when its
/// type is unknown or its member is missing.
pub open spec fn field_rule_issues(v: JsonValue) -> Seq<Seq<char>> {
    if text_member(v, "type"@) is None {
        seq!["a field rule needs a string member 'type'"@]
    } else if exists|r: FieldRule| decodes_field_rule(v, r) {
        Seq::empty()
    } else {
        seq!["a field rule has an unknown type or lacks the member its type needs"@]
    }
}

/// The messages for a condition.
pub open spec fn condition_issues(v: JsonValue) -> Seq<Seq<char>> {
    if exists|c: Condition| decodes_condition(v, c) {
        Seq::empty()
    } else {
        seq!["a condition needs members 'field', 'operator' and 'value'"@]
    }
}

/// The messages for a validation rule: its field, then its rules, then its
/// condition.
pub open spec fn validation_issues(v: JsonValue) -> Seq<Seq<char>> {
    (if text_member(v, "field"@) is None {
        seq!["a validation needs a string member 'field'"@]
    } else {
        Seq::empty()
    }) + (match member(v, "rules"@) {
        Some(JsonValue::Array(xs)) => issues_upto(
            xs@,
            xs@.len() as int,
            |x: JsonValue| field_rule_issues(x),
        ),
        _ => seq!["a validation needs an array member 'rules'"@],
    }) + (match member(v, "condition"@) {
        None => Seq::empty(),
        Some(c) => condition_issues(c),
    })
}

/// The messages for an optional list of validation rules.
pub open spec fn validations_issues(m: Option<JsonValue>) -> Seq<Seq<char>> {
    match m {
        None => Seq::empty(),
        Some(JsonValue::Array(xs)) => issues_upto(
            xs@,
            xs@.len() as int,
            |x: JsonValue| validation_issues(x),
        ),
        _ => seq!["a list of validations must be an array"@],
    }
}

/// The messages for a state: its name, enter actions, exit actions,
/// validations.
pub open spec fn state_issues(v: JsonValue) -> Seq<Seq<char>> {
    (if text_member(v, "name"@) is None {
        seq!["a state needs a string member 'name'"@]
    } else {
        Seq::empty()
    }) + actions_issues(member(v, "on_enter_actions"@)) + actions_issues(
        member(v, "on_exit_actions"@),
    ) + validations_issues(member(v, "validations"@))
}

/// The messages for a transition: its endpoints and event, actions,
/// validations.
pub open spec fn transition_issues(v: JsonValue) -> Seq<Seq<char>> {
    (if text_member(v, "from"@) is None || text_member(v, "event"@) is None || text_member(
        v,
        "to"@,
    ) is None {
        seq!["a transition needs string members 'from', 'event' and 'to'"@]
    } else {
        Seq::empty()
    }) + actions_issues(member(v, "actions"@)) + validations_issues(member(v, "validations"@))
}

/// The messages for the states member.
pub open spec fn states_issues(m: Option<JsonValue>) -> Seq<Seq<char>> {
    match m {
        Some(JsonValue::Array(xs)) => issues_upto(xs@, xs@.len() as int, |x: JsonValue| state_issues(x)),
        _ => seq!["the document needs an array member 'states'"@],
    }
}

/// The messages for the transitions member.
pub open spec fn transitions_issues(m: Option<JsonValue>) -> Seq<Seq<char>> {
    match m {
        Some(JsonValue::Array(xs)) => issues_upto(
            xs@,
            xs@.len() as int,
            |x: JsonValue| transition_issues(x),
        ),
        _ => seq!["the document needs an array member 'transitions'"@],
    }
}

/// Every shape violation of a document, one message each, in document
/// order: the states, then the transitions.
pub open spec fn config_issues(v: JsonValue) -> Seq<Seq<char>> {
    states_issues(member(v, "states"@)) + transitions_issues(member(v, "transitions"@))
}

/// Records one schema violation.
fn note(issues: &mut Vec<String>, msg: &str)
    ensures
        final(issues)@.len() == old(issues)@.len() + 1,
        views(final(issues)@) == views(old(issues)@).push(msg@),
{
    issues.push(msg.to_owned());
    assert(views(issues@) =~= views(old(issues)@).push(msg@));
}

/// The member of object `v` named `key`.
pub fn find_member<'a>(v: &'a JsonValue, key: &str) -> (r: Option<&'a JsonValue>)
    ensures
        deref_opt(r) == member(*v, key@),
{
    match v {
        JsonValue::Object(ms) => {
            let mut i: usize = 0;
            while i < ms.len()
                invariant
                    0 <= i <= ms@.len(),
                    member(*v, key@) == member_from(ms@, key@, i as int),
                decreases ms@.len() - i,
            {
                if same_text(ms[i].0.as_str(), key) {
                    return Some(&ms[i].1);
                }
                i = i + 1;
            }
            None
        },
        _ => None,
    }
}

/// The text of member `key` of `v`, when it is a string.
pub fn text_of(v: &JsonValue, key: &str) -> (r: Option<String>)
    ensures
        r == text_member(*v, key@),
{
    match find_member(v, key) {
        Some(JsonValue::String(s)) => Some(s.clone()),
        _ => None,
    }
}

fn decode_action(v: &JsonValue, issues: &mut Vec<String>) -> (r: Option<Action>)
    ensures
        match r {
            Some(a) => decodes_action(*v, a),
            None => forall|a: Action| !decodes_action(*v, a),
        },
        final(issues)@.len() >= old(issues)@.len(),
        r is None ==> final(issues)@.len() > old(issues)@.len(),
        views(final(issues)@) == views(old(issues)@) + action_issues(*v),
{
    match (text_of(v, "action_type"), text_of(v, "command")) {
        (Some(action_type), Some(command)) => Some(Action { action_type, command }),
        _ => {
            note(issues, "an action needs string members 'action_type' and 'command'");
            None
        },
    }
}

fn decode_actions(m: Option<&JsonValue>, issues: &mut Vec<String>) -> (r: Option<Vec<Action>>)
    ensures
        match r {
            Some(acts) => decodes_actions(deref_opt(m), acts@),
            None => forall|acts: Seq<Action>| !decodes_actions(deref_opt(m), acts),
        },
        final(issues)@.len() >= old(issues)@.len(),
        r is None ==> final(issues)@.len() > old(issues)@.len(),
        views(final(issues)@) == views(old(issues)@) + actions_issues(deref_opt(m)),
{
    match m {
        None => Some(Vec::new()),
        Some(JsonValue::Array(xs)) => {
            let mut out: Vec<Action> = Vec::new();
            let mut ok = true;
            let ghost mut bad: int = 0;
            let mut i: usize = 0;
            while i < xs.len()
                invariant
                    0 <= i <= xs@.len(),
                    ok ==> out@.len() == i && forall|j: int|
                        0 <= j < i ==> #[trigger] decodes_action(xs@[j], out@[j]),
                    !ok ==> 0 <= bad < xs@.len() && forall|a: Action| !decodes_action(xs@[bad], a),
                    issues@.len() >= old(issues)@.len(),
                    views(issues@) == views(old(issues)@) + issues_upto(xs@, i as int, |x: JsonValue| action_issues(x)),
                    !ok ==> issues@.len() > old(issues)@.len(),
                decreases xs@.len() - i,
            {
                match decode_action(&xs[i], issues) {
                    Some(a) => {
                        if ok {
                            out.push(a);
                        }
                    },
                    None => {
                        if ok {
                            proof {
                                bad = i as int;
                            }
                        }
                        ok = false;
                    },
                }
                i = i + 1;
            }
            if ok {
                Some(out)
            } else {
                assert forall|acts: Seq<Action>| !decodes_actions(deref_opt(m), acts) by {
                    if decodes_actions(deref_opt(m), acts) {
                        assert(decodes_action(xs@[bad], acts[bad]));
                    }
                }
                None
            }
        },
        _ => {
            note(issues, "a list of actions must be an array");
            None
        },
    }
}

fn decode_field_rule(v: &JsonValue, issues: &mut Vec<String>) -> (r: Option<FieldRule>)
    ensures
        match r {
            Some(x) => decodes_field_rule(*v, x),
            None => forall|x: FieldRule| !decodes_field_rule(*v, x),
        },
        final(issues)@.len() >= old(issues)@.len(),
        r is None ==> final(issues)@.len() > old(issues)@.len(),
        views(final(issues)@) == views(old(issues)@) + field_rule_issues(*v),
{
    let ty = match text_of(v, "type") {
        Some(t) => t,
        None => {
            note(issues, "a field rule needs a string member 'type'");
            assert(views(issues@) =~= views(old(issues)@) + field_rule_issues(*v));
            return None;
        },
    };
    let t = ty.as_str();
    let r = if same_text(t, "type_check") {
        match text_of(v, "expected_type") {
            Some(s) => Some(FieldRule::TypeCheck { expected_type: s }),
            None => None,
        }
    } else if same_text(t, "nullable") {
        match find_member(v, "is_nullable") {
            Some(JsonValue::Bool(b)) => Some(FieldRule::Nullable { is_nullable: *b }),
            _ => None,
        }
    } else if same_text(t, "min_value") {
        match find_member(v, "value") {
            Some(JsonValue::Number(n)) => Some(FieldRule::MinValue { value: *n }),
            _ => None,
        }
    } else if same_text(t, "max_value") {
        match find_member(v, "value") {
            Some(JsonValue::Number(n)) => Some(FieldRule::MaxValue { value: *n }),
            _ => None,
        }
    } else if same_text(t, "editable") {
        match find_member(v, "is_editable") {
            Some(JsonValue::Bool(b)) => Some(FieldRule::Editable { is_editable: *b }),
            _ => None,
        }
    } else if same_text(t, "read_only") {
        match find_member(v, "is_read_only") {
            Some(JsonValue::Bool(b)) => Some(FieldRule::ReadOnly { is_read_only: *b }),
            _ => None,
        }
    } else if same_text(t, "enum") {
        match find_member(v, "values") {
            Some(JsonValue::Array(xs)) => {
                let mut values: Vec<JsonValue> = Vec::new();
                let mut i: usize = 0;
                while i < xs.len()
                    invariant
                        0 <= i <= xs@.len(),
                        values@.len() == i,
                        forall|j: int| 0 <= j < i ==> #[trigger] json_equal(values@[j], xs@[j]),
                    decreases xs@.len() - i,
                {
                    values.push(copy_value(&xs[i]));
                    i = i + 1;
                }
                Some(FieldRule::Enum { values })
            },
            _ => None,
        }
    } else {
        None
    };
    if r.is_none() {
        note(issues, "a field rule has an unknown type or lacks the member its type needs");
    }
    proof {
        if r is Some {
            assert(decodes_field_rule(*v, r->0));
        }
    }
    assert(views(issues@) =~= views(old(issues)@) + field_rule_issues(*v));
    r
}

fn decode_condition(v: &JsonValue, issues: &mut Vec<String>) -> (r: Option<Condition>)
    ensures
        match r {
            Some(x) => decodes_condition(*v, x),
            None => forall|x: Condition| !decodes_condition(*v, x),
        },
        final(issues)@.len() >= old(issues)@.len(),
        r is None ==> final(issues)@.len() > old(issues)@.len(),
        views(final(issues)@) == views(old(issues)@) + condition_issues(*v),
{
    match (text_of(v, "field"), text_of(v, "operator"), find_member(v, "value")) {
        (Some(field), Some(operator), Some(x)) => {
            let c = Condition { field, operator, value: copy_value(x) };
            assert(decodes_condition(*v, c));
            assert(views(issues@) =~= views(old(issues)@) + condition_issues(*v));
            Some(c)
        },
        _ => {
            note(issues, "a condition needs members 'field', 'operator' and 'value'");
            assert(views(issues@) =~= views(old(issues)@) + condition_issues(*v));
            None
        },
    }
}

fn decode_validation(v: &JsonValue, issues: &mut Vec<String>) -> (r: Option<ValidationRule>)
    ensures
        match r {
            Some(x) => decodes_validation(*v, x),
            None => forall|x: ValidationRule| !decodes_validation(*v, x),
        },
        final(issues)@.len() >= old(issues)@.len(),
        r is None ==> final(issues)@.len() > old(issues)@.len(),
        views(final(issues)@) == views(old(issues)@) + validation_issues(*v),
{
    let field = text_of(v, "field");
    if field.is_none() {
        note(issues, "a validation needs a string member 'field'");
    }
    let ghost base = views(issues@);
    assert(base =~= views(old(issues)@) + (if text_member(*v, "field"@) is None {
        seq!["a validation needs a string member 'field'"@]
    } else {
        Seq::<Seq<char>>::empty()
    }));
    let rules = match find_member(v, "rules") {
        Some(JsonValue::Array(xs)) => {
            let mut out: Vec<FieldRule> = Vec::new();
            let mut ok = true;
            let ghost mut bad: int = 0;
            let mut i: usize = 0;
            while i < xs.len()
                invariant
                    member(*v, "rules"@) == Some(JsonValue::Array(*xs)),
                    field is None ==> issues@.len() > old(issues)@.len(),
                    0 <= i <= xs@.len(),
                    ok ==> out@.len() == i && forall|j: int|
                        0 <= j < i ==> #[trigger] decodes_field_rule(xs@[j], out@[j]),
                    !ok ==> 0 <= bad < xs@.len() && forall|a: FieldRule|
                        !decodes_field_rule(xs@[bad], a),
                    issues@.len() >= old(issues)@.len(),
                    views(issues@) == base + issues_upto(xs@, i as int, |x: JsonValue| field_rule_issues(x)),
                    !ok ==> issues@.len() > old(issues)@.len(),
                decreases xs@.len() - i,
            {
                match decode_field_rule(&xs[i], issues) {
                    Some(a) => {
                        if ok {
                            out.push(a);
                        }
                    },
                    None => {
                        if ok {
                            proof {
                                bad = i as int;
                            }
                        }
                        ok = false;
                    },
                }
                i = i + 1;
            }
            if ok {
                Some(out)
            } else {
                assert forall|x: ValidationRule| !decodes_validation(*v, x) by {
                    if decodes_validation(*v, x) {
                        assert(decodes_field_rule(xs@[bad], x.rules@[bad]));
                    }
                }
                None
            }
        },
        _ => {
            note(issues, "a validation needs an array member 'rules'");
            None
        },
    };
    let ghost mid = views(issues@);
    assert(mid =~= views(old(issues)@) + (if text_member(*v, "field"@) is None {
        seq!["a validation needs a string member 'field'"@]
    } else {
        Seq::<Seq<char>>::empty()
    }) + (match member(*v, "rules"@) {
        Some(JsonValue::Array(xs)) => issues_upto(
            xs@,
            xs@.len() as int,
            |x: JsonValue| field_rule_issues(x),
        ),
        _ => seq!["a validation needs an array member 'rules'"@],
    }));
    let condition = match find_member(v, "condition") {
        None => Some(None),
        Some(c) => match decode_condition(c, issues) {
            Some(c) => Some(Some(c)),
            None => None,
        },
    };
    assert(views(issues@) =~= views(old(issues)@) + validation_issues(*v));
    match (field, rules, condition) {
        (Some(field), Some(rules), Some(condition)) => Some(
            ValidationRule { field, rules, condition },
        ),
        _ => None,
    }
}

fn decode_validations(m: Option<&JsonValue>, issues: &mut Vec<String>) -> (r: Option<
    Vec<ValidationRule>,
>)
    ensures
        match r {
            Some(rs) => decodes_validations(deref_opt(m), rs@),
            None => forall|rs: Seq<ValidationRule>| !decodes_validations(deref_opt(m), rs),
        },
        final(issues)@.len() >= old(issues)@.len(),
        r is None ==> final(issues)@.len() > old(issues)@.len(),
        views(final(issues)@) == views(old(issues)@) + validations_issues(deref_opt(m)),
{
    match m {
        None => Some(Vec::new()),
        Some(JsonValue::Array(xs)) => {
            let mut out: Vec<ValidationRule> = Vec::new();
            let mut ok = true;
            let ghost mut bad: int = 0;
            let mut i: usize = 0;
            while i < xs.len()
                invariant
                    0 <= i <= xs@.len(),
                    ok ==> out@.len() == i && forall|j: int|
                        0 <= j < i ==> #[trigger] decodes_validation(xs@[j], out@[j]),
                    !ok ==> 0 <= bad < xs@.len() && forall|a: ValidationRule|
                        !decodes_validation(xs@[bad], a),
                    issues@.len() >= old(issues)@.len(),
                    views(issues@) == views(old(issues)@) + issues_upto(xs@, i as int, |x: JsonValue| validation_issues(x)),
                    !ok ==> issues@.len() > old(issues)@.len(),
                decreases xs@.len() - i,
            {
                match decode_validation(&xs[i], issues) {
                    Some(a) => {
                        if ok {
                            out.push(a);
                        }
                    },
                    None => {
                        if ok {
                            proof {
                                bad = i as int;
                            }
                        }
                        ok = false;
                    },
                }
                i = i + 1;
            }
            if ok {
                Some(out)
            } else {
                assert forall|rs: Seq<ValidationRule>| !decodes_validations(deref_opt(m), rs) by {
                    if decodes_validations(deref_opt(m), rs) {
                        assert(decodes_validation(xs@[bad], rs[bad]));
                    }
                }
                None
            }
        },
        _ => {
            note(issues, "a list of validations must be an array");
            None
        },
    }
}

fn decode_state(v: &JsonValue, issues: &mut Vec<String>) -> (r: Option<StateConfig>)
    ensures
        match r {
            Some(x) => decodes_state(*v, x),
            None => forall|x: StateConfig| !decodes_state(*v, x),
        },
        final(issues)@.len() >= old(issues)@.len(),
        r is None ==> final(issues)@.len() > old(issues)@.len(),
        views(final(issues)@) == views(old(issues)@) + state_issues(*v),
{
    let name = text_of(v, "name");
    if name.is_none() {
        note(issues, "a state needs a string member 'name'");
    }
    let enter = decode_actions(find_member(v, "on_enter_actions"), issues);
    let exit = decode_actions(find_member(v, "on_exit_actions"), issues);
    let validations = decode_validations(find_member(v, "validations"), issues);
    match (name, enter, exit, validations) {
        (Some(name), Some(on_enter_actions), Some(on_exit_actions), Some(validations)) => Some(
            StateConfig { name, on_enter_actions, on_exit_actions, validations },
        ),
        _ => None,
    }
}

fn decode_transition(v: &JsonValue, issues: &mut Vec<String>) -> (r: Option<TransitionConfig>)
    ensures
        match r {
            Some(x) => decodes_transition(*v, x),
            None => forall|x: TransitionConfig| !decodes_transition(*v, x),
        },
        final(issues)@.len() >= old(issues)@.len(),
        r is None ==> final(issues)@.len() > old(issues)@.len(),
        views(final(issues)@) == views(old(issues)@) + transition_issues(*v),
{
    let from = text_of(v, "from");
    let event = text_of(v, "event");
    let to = text_of(v, "to");
    if from.is_none() || event.is_none() || to.is_none() {
        note(issues, "a transition needs string members 'from', 'event' and 'to'");
    }
    let actions = decode_actions(find_member(v, "actions"), issues);
    let validations = decode_validations(find_member(v, "validations"), issues);
    match (from, event, to, actions, validations) {
        (Some(from), Some(event), Some(to), Some(actions), Some(validations)) => Some(
            TransitionConfig { from, event, to, actions, validations },
        ),
        _ => None,
    }
}

fn decode_states(m: Option<&JsonValue>, issues: &mut Vec<String>) -> (r: Option<Vec<StateConfig>>)
    ensures
        match r {
            Some(out) => decodes_states(deref_opt(m), out@),
            None => forall|out: Seq<StateConfig>| !decodes_states(deref_opt(m), out),
        },
        final(issues)@.len() >= old(issues)@.len(),
        r is None ==> final(issues)@.len() > old(issues)@.len(),
        views(final(issues)@) == views(old(issues)@) + states_issues(deref_opt(m)),
{
    match m {
        Some(JsonValue::Array(xs)) => {
            let mut out: Vec<StateConfig> = Vec::new();
            let mut ok = true;
            let ghost mut bad: int = 0;
            let mut i: usize = 0;
            while i < xs.len()
                invariant
                    0 <= i <= xs@.len(),
                    ok ==> out@.len() == i && forall|j: int|
                        0 <= j < i ==> #[trigger] decodes_state(xs@[j], out@[j]),
                    !ok ==> 0 <= bad < xs@.len() && forall|a: StateConfig| !decodes_state(xs@[bad], a),
                    issues@.len() >= old(issues)@.len(),
                    views(issues@) == views(old(issues)@) + issues_upto(xs@, i as int, |x: JsonValue| state_issues(x)),
                    !ok ==> issues@.len() > old(issues)@.len(),
                decreases xs@.len() - i,
            {
                match decode_state(&xs[i], issues) {
                    Some(a) => {
                        if ok {
                            out.push(a);
                        }
                    },
                    None => {
                        if ok {
                            proof {
                                bad = i as int;
                            }
                        }
                        ok = false;
                    },
                }
                i = i + 1;
            }
            if ok {
                Some(out)
            } else {
                assert forall|o: Seq<StateConfig>| !decodes_states(deref_opt(m), o) by {
                    if decodes_states(deref_opt(m), o) {
                        assert(decodes_state(xs@[bad], o[bad]));
                    }
                }
                None
            }
        },
        _ => {
            note(issues, "the document needs an array member 'states'");
            None
        },
    }
}

fn decode_transitions(m: Option<&JsonValue>, issues: &mut Vec<String>) -> (r: Option<
    Vec<TransitionConfig>,
>)
    ensures
        match r {
            Some(out) => decodes_transitions(deref_opt(m), out@),
            None => forall|out: Seq<TransitionConfig>| !decodes_transitions(deref_opt(m), out),
        },
        final(issues)@.len() >= old(issues)@.len(),
        r is None ==> final(issues)@.len() > old(issues)@.len(),
        views(final(issues)@) == views(old(issues)@) + transitions_issues(deref_opt(m)),
{
    match m {
        Some(JsonValue::Array(xs)) => {
            let mut out: Vec<TransitionConfig> = Vec::new();
            let mut ok = true;
            let ghost mut bad: int = 0;
            let mut i: usize = 0;
            while i < xs.len()
                invariant
                    0 <= i <= xs@.len(),
                    ok ==> out@.len() == i && forall|j: int|
                        0 <= j < i ==> #[trigger] decodes_transition(xs@[j], out@[j]),
                    !ok ==> 0 <= bad < xs@.len() && forall|a: TransitionConfig|
                        !decodes_transition(xs@[bad], a),
                    issues@.len() >= old(issues)@.len(),
                    views(issues@) == views(old(issues)@) + issues_upto(xs@, i as int, |x: JsonValue| transition_issues(x)),
                    !ok ==> issues@.len() > old(issues)@.len(),
                decreases xs@.len() - i,
            {
                match decode_transition(&xs[i], issues) {
                    Some(a) => {
                        if ok {
                            out.push(a);
                        }
                    },
                    None => {
                        if ok {
                            proof {
                                bad = i as int;
                            }
                        }
                        ok = false;
                    },
                }
                i = i + 1;
            }
            if ok {
                Some(out)
            } else {
                assert forall|o: Seq<TransitionConfig>| !decodes_transitions(deref_opt(m), o) by {
                    if decodes_transitions(deref_opt(m), o) {
                        assert(decodes_transition(xs@[bad], o[bad]));
                    }
                }
                None
            }
        },
        _ => {
            note(issues, "the document needs an array member 'transitions'");
            None
        },
    }
}

/// Decodes a specification document, reporting every shape violation found.
pub fn decode_config(v: &JsonValue) -> (r: Result<MachineConfig, ConfigError>)
    ensures
        r is Ok <==> conforms(*v),
        r matches Ok(c) ==> decodes_config(*v, c),
        r matches Err(e) ==> e matches ConfigError::SchemaViolation { messages } && messages@.len()
            > 0 && views(messages@) == config_issues(*v),
{
    let mut issues: Vec<String> = Vec::new();
    let states = decode_states(find_member(v, "states"), &mut issues);
    let transitions = decode_transitions(find_member(v, "transitions"), &mut issues);
    assert(views(issues@) =~= config_issues(*v));
    match (states, transitions) {
        (Some(states), Some(transitions)) => {
            let c = MachineConfig { states, transitions };
            assert(decodes_config(*v, c));
            Ok(c)
        },
        _ => {
            assert forall|c: MachineConfig| !decodes_config(*v, c) by {
                if decodes_config(*v, c) {
                    assert(c.states@.len() == c.states@.len());
                }
            }
            Err(ConfigError::SchemaViolation { messages: issues })
        },
    }
}

} // verus!
