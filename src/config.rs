//! A decoded machine specification and its referential checks.
use crate::model::{field_message, field_text, Action, ValidationRule};
use vstd::prelude::*;
use vstd::string::*;

verus! {

/// A declared state.
#[derive(Debug)]
pub struct StateConfig {
    pub name: String,
    pub on_enter_actions: Vec<Action>,
    pub on_exit_actions: Vec<Action>,
    pub validations: Vec<ValidationRule>,
}

/// A declared transition `from --event--> to`.
#[derive(Debug)]
pub struct TransitionConfig {
    pub from: String,
    pub event: String,
    pub to: String,
    pub actions: Vec<Action>,
    pub validations: Vec<ValidationRule>,
}

/// A machine specification as declared, before compilation.
#[derive(Debug)]
pub struct MachineConfig {
    pub states: Vec<StateConfig>,
    pub transitions: Vec<TransitionConfig>,
}

/// Why a specification was refused.
#[derive(Debug)]
pub enum ConfigError {
    /// The text is not JSON.
    MalformedInput { message: String },
    /// The document does not have the shape of a specification; one message
    /// per violation found.
    SchemaViolation { messages: Vec<String> },
    /// No state is declared.
    NoStates,
    /// A state name is declared twice.
    DuplicateState { name: String },
    /// A transition leaves from an undeclared state.
    UnknownFromState { name: String },
    /// A transition leads to an undeclared state.
    UnknownToState { name: String },
    /// A transition's event is empty or white space only.
    EmptyEvent { from: String, to: String },
    /// The requested initial state is not declared.
    UnknownInitialState { name: String },
}

/// `parts` joined by `", "`.
pub open spec fn joined(parts: Seq<String>) -> Seq<char>
    decreases parts.len(),
{
    if parts.len() == 0 {
        Seq::empty()
    } else if parts.len() == 1 {
        parts[0]@
    } else {
        joined(parts.drop_last()) + ", "@ + parts.last()@
    }
}

impl ConfigError {
    /// The text of [`ConfigError::message`].
    pub open spec fn message_text(&self) -> Seq<char> {
        match self {
            ConfigError::MalformedInput { message } => "Invalid JSON format in configuration: "@
                + message@,
            ConfigError::SchemaViolation { messages } =>
                "JSON configuration does not conform to schema: "@ + joined(messages@),
            ConfigError::NoStates => "State machine must have at least one state."@,
            ConfigError::DuplicateState { name } => "Duplicate state found: "@ + name@,
            ConfigError::UnknownFromState { name } => field_text(
                "Transition 'from' state "@,
                name@,
                " is not defined in the states list."@,
            ),
            ConfigError::UnknownToState { name } => field_text(
                "Transition 'to' state "@,
                name@,
                " is not defined in the states list."@,
            ),
            ConfigError::EmptyEvent { from, to } => field_text("Transition from "@, from@, " to "@)
                + "'"@ + to@ + "' has an empty event."@,
            ConfigError::UnknownInitialState { name } => field_text(
                "Initial state "@,
                name@,
                " is not defined in the states list."@,
            ),
        }
    }

    /// A human-readable description of the refusal.
    pub fn message(&self) -> (r: String)
        ensures
            r@ == self.message_text(),
    {
        let mut out = String::new();
        match self {
            ConfigError::MalformedInput { message } => {
                out.append("Invalid JSON format in configuration: ");
                out.append(message.as_str());
            },
            ConfigError::SchemaViolation { messages } => {
                out.append("JSON configuration does not conform to schema: ");
                let ghost head = out@;
                let mut i: usize = 0;
                while i < messages.len()
                    invariant
                        0 <= i <= messages@.len(),
                        out@ == head + joined(messages@.subrange(0, i as int)),
                    decreases messages@.len() - i,
                {
                    if i > 0 {
                        out.append(", ");
                    }
                    out.append(messages[i].as_str());
                    proof {
                        let p = messages@.subrange(0, i + 1);
                        assert(p.drop_last() =~= messages@.subrange(0, i as int));
                    }
                    i = i + 1;
                }
                assert(messages@.subrange(0, messages@.len() as int) =~= messages@);
            },
            ConfigError::NoStates => {
                out.append("State machine must have at least one state.");
            },
            ConfigError::DuplicateState { name } => {
                out.append("Duplicate state found: ");
                out.append(name.as_str());
            },
            ConfigError::UnknownFromState { name } => {
                out = field_message(
                    "Transition 'from' state ",
                    name.as_str(),
                    " is not defined in the states list.",
                );
            },
            ConfigError::UnknownToState { name } => {
                out = field_message(
                    "Transition 'to' state ",
                    name.as_str(),
                    " is not defined in the states list.",
                );
            },
            ConfigError::EmptyEvent { from, to } => {
                out = field_message("Transition from ", from.as_str(), " to ");
                out.append("'");
                out.append(to.as_str());
                out.append("' has an empty event.");
            },
            ConfigError::UnknownInitialState { name } => {
                out = field_message(
                    "Initial state ",
                    name.as_str(),
                    " is not defined in the states list.",
                );
            },
        }
        assert(out@ =~= self.message_text());
        out
    }
}

/// The characters with the Unicode White_Space property.
pub open spec fn is_white_space(c: char) -> bool {
    ('\t' <= c <= '\r') || c == ' ' || c == '\u{85}' || c == '\u{a0}' || c == '\u{1680}' || (
    '\u{2000}' <= c <= '\u{200a}') || c == '\u{2028}' || c == '\u{2029}' || c == '\u{202f}' || c
        == '\u{205f}' || c == '\u{3000}'
}

/// Text that is empty once white space is trimmed from both ends.
pub open spec fn is_blank(s: Seq<char>) -> bool {
    forall|i: int| 0 <= i < s.len() ==> #[trigger] is_white_space(s[i])
}

pub fn white_space(c: char) -> (r: bool)
    ensures
        r == is_white_space(c),
{
    ('\t' <= c && c <= '\r') || c == ' ' || c == '\u{85}' || c == '\u{a0}' || c == '\u{1680}' || (
    '\u{2000}' <= c && c <= '\u{200a}') || c == '\u{2028}' || c == '\u{2029}' || c == '\u{202f}'
        || c == '\u{205f}' || c == '\u{3000}'
}

/// Whether `s` holds only white space.
pub fn blank(s: &str) -> (r: bool)
    ensures
        r == is_blank(s@),
{
    let n = s.unicode_len();
    let mut i: usize = 0;
    while i < n
        invariant
            n == s@.len(),
            0 <= i <= n,
            forall|j: int| 0 <= j < i ==> #[trigger] is_white_space(s@[j]),
        decreases n - i,
    {
        if !white_space(s.get_char(i)) {
            return false;
        }
        i = i + 1;
    }
    true
}

/// Some state in `states` is named `name`.
pub open spec fn declares(states: Seq<StateConfig>, name: Seq<char>) -> bool {
    exists|i: int| 0 <= i < states.len() && #[trigger] states[i].name@ == name
}

/// `states[i]` repeats the name of an earlier state.
pub open spec fn repeats_earlier(states: Seq<StateConfig>, i: int) -> bool {
    exists|j: int| 0 <= j < i && #[trigger] states[j].name@ == states[i].name@
}

/// The first state among `states[from..]` that repeats an earlier name.
pub open spec fn first_duplicate(states: Seq<StateConfig>, from: int) -> Option<int>
    decreases states.len() - from,
{
    if from < 0 || from >= states.len() {
        None
    } else if repeats_earlier(states, from) {
        Some(from)
    } else {
        first_duplicate(states, from + 1)
    }
}

/// What is wrong with one transition, checked in order: its source, its
/// target, its event.
pub open spec fn transition_fault(states: Seq<StateConfig>, t: TransitionConfig) -> Option<
    ConfigError,
> {
    if !declares(states, t.from@) {
        Some(ConfigError::UnknownFromState { name: t.from })
    } else if !declares(states, t.to@) {
        Some(ConfigError::UnknownToState { name: t.to })
    } else if is_blank(t.event@) {
        Some(ConfigError::EmptyEvent { from: t.from, to: t.to })
    } else {
        None
    }
}

/// The first fault among `ts[from..]`.
pub open spec fn first_transition_fault(
    states: Seq<StateConfig>,
    ts: Seq<TransitionConfig>,
    from: int,
) -> Option<ConfigError>
    decreases ts.len() - from,
{
    if from < 0 || from >= ts.len() {
        None
    } else {
        match transition_fault(states, ts[from]) {
            Some(e) => Some(e),
            None => first_transition_fault(states, ts, from + 1),
        }
    }
}

/// The first referential fault of a specification, if any: no states, then
/// repeated state names, then transitions in order.
pub open spec fn referential_fault(c: MachineConfig) -> Option<ConfigError> {
    if c.states@.len() == 0 {
        Some(ConfigError::NoStates)
    } else {
        match first_duplicate(c.states@, 0) {
            Some(i) => Some(ConfigError::DuplicateState { name: c.states@[i].name }),
            None => first_transition_fault(c.states@, c.transitions@, 0),
        }
    }
}

/// A specification with states, unique state names, and transitions between
/// declared states on non-blank events.
pub open spec fn referentially_valid(c: MachineConfig) -> bool {
    referential_fault(c) is None
}

/// Whether some state is named `name`.
pub fn has_state(states: &Vec<StateConfig>, name: &String) -> (r: bool)
    ensures
        r == declares(states@, name@),
{
    let mut i: usize = 0;
    while i < states.len()
        invariant
            0 <= i <= states@.len(),
            forall|j: int| 0 <= j < i ==> states@[j].name@ != name@,
        decreases states@.len() - i,
    {
        if states[i].name == *name {
            return true;
        }
        i = i + 1;
    }
    false
}

fn repeats(states: &Vec<StateConfig>, i: usize) -> (r: bool)
    requires
        i < states@.len(),
    ensures
        r == repeats_earlier(states@, i as int),
{
    let mut j: usize = 0;
    while j < i
        invariant
            i < states@.len(),
            0 <= j <= i,
            forall|k: int| 0 <= k < j ==> states@[k].name@ != states@[i as int].name@,
        decreases i - j,
    {
        if states[j].name == states[i].name {
            return true;
        }
        j = j + 1;
    }
    false
}

/// Checks referential integrity and reports the first fault found.
pub fn validate_config(c: &MachineConfig) -> (r: Result<(), ConfigError>)
    ensures
        match referential_fault(*c) {
            None => r is Ok,
            Some(e) => r == Err::<(), ConfigError>(e),
        },
{
    if c.states.len() == 0 {
        return Err(ConfigError::NoStates);
    }
    let mut i: usize = 0;
    while i < c.states.len()
        invariant
            0 <= i <= c.states@.len(),
            first_duplicate(c.states@, 0) == first_duplicate(c.states@, i as int),
        decreases c.states@.len() - i,
    {
        if repeats(&c.states, i) {
            return Err(ConfigError::DuplicateState { name: c.states[i].name.clone() });
        }
        i = i + 1;
    }
    let mut k: usize = 0;
    while k < c.transitions.len()
        invariant
            0 <= k <= c.transitions@.len(),
            c.states@.len() > 0,
            first_duplicate(c.states@, 0) is None,
            first_transition_fault(c.states@, c.transitions@, 0) == first_transition_fault(
                c.states@,
                c.transitions@,
                k as int,
            ),
        decreases c.transitions@.len() - k,
    {
        let t = &c.transitions[k];
        if !has_state(&c.states, &t.from) {
            return Err(ConfigError::UnknownFromState { name: t.from.clone() });
        }
        if !has_state(&c.states, &t.to) {
            return Err(ConfigError::UnknownToState { name: t.to.clone() });
        }
        if blank(t.event.as_str()) {
            return Err(ConfigError::EmptyEvent { from: t.from.clone(), to: t.to.clone() });
        }
        k = k + 1;
    }
    Ok(())
}

} // verus!
