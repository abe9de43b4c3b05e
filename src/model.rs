//! The declarative pieces of a machine specification.
use crate::json::{number_text, push_number, JsonNumber, JsonType, JsonValue};
use vstd::prelude::*;
use vstd::string::*;

verus! {

/// An action descriptor: what to do is up to the action handler, which
/// dispatches on `action_type`.
#[derive(Debug)]
pub struct Action {
    /// The type of the action.
    pub action_type: String,
    /// The command to execute.
    pub command: String,
}

impl Clone for Action {
    fn clone(&self) -> (r: Action)
        ensures
            r == *self,
    {
        Action { action_type: self.action_type.clone(), command: self.command.clone() }
    }
}

/// One constraint on a memory field.
#[derive(Debug)]
pub enum FieldRule {
    /// The field is present and its type tag is `expected_type`.
    TypeCheck { expected_type: String },
    /// When `is_nullable` is false, the field is present.
    Nullable { is_nullable: bool },
    /// The field is a number not below `value`.
    MinValue { value: JsonNumber },
    /// The field is a number not above `value`.
    MaxValue { value: JsonNumber },
    /// Reserved: never violated.
    Editable { is_editable: bool },
    /// Reserved: never violated.
    ReadOnly { is_read_only: bool },
    /// The field is present and equal to one of `values`.
    Enum { values: Vec<JsonValue> },
}

/// A comparison of a memory field with a value, guarding a validation rule.
#[derive(Debug)]
pub struct Condition {
    pub field: String,
    /// One of `==`, `!=`, `>`, `<`, `>=`, `<=`.
    pub operator: String,
    pub value: JsonValue,
}

/// Rules on one memory field, applied when the condition (if any) holds.
#[derive(Debug)]
pub struct ValidationRule {
    pub field: String,
    pub rules: Vec<FieldRule>,
    pub condition: Option<Condition>,
}

/// Why a validation failed.
#[derive(Debug)]
#[allow(inconsistent_fields)]
pub enum ValidationError {
    /// A `type_check` or `enum` rule found no such field.
    MissingField { field: String },
    /// A `type_check` rule found a value of another type.
    TypeMismatch { field: String, expected: String, actual: JsonType },
    /// A non-nullable field is absent.
    NotNullable { field: String },
    /// A `min_value` or `max_value` rule found no number.
    NotANumber { field: String },
    /// A number below the minimum (or NaN).
    BelowMinimum { field: String, value: JsonNumber, minimum: JsonNumber },
    /// A number above the maximum (or NaN).
    AboveMaximum { field: String, value: JsonNumber, maximum: JsonNumber },
    /// A value outside the allowed set; both as text.
    NotInEnum { field: String, value: String, allowed: String },
    /// A condition names a field that memory lacks.
    ConditionFieldMissing { field: String },
    /// An ordering condition met a value, shown as text, that is not a number.
    NotComparable { value: String },
    /// A condition uses an operator outside the six known ones.
    UnsupportedOperator { operator: String },
}

/// What a [`ValidationError`] says, with texts as character sequences.
#[allow(inconsistent_fields)]
pub enum ValidationFault {
    MissingField { field: Seq<char> },
    TypeMismatch { field: Seq<char>, expected: Seq<char>, actual: JsonType },
    NotNullable { field: Seq<char> },
    NotANumber { field: Seq<char> },
    BelowMinimum { field: Seq<char>, value: JsonNumber, minimum: JsonNumber },
    AboveMaximum { field: Seq<char>, value: JsonNumber, maximum: JsonNumber },
    NotInEnum { field: Seq<char>, value: Seq<char>, allowed: Seq<char> },
    ConditionFieldMissing { field: Seq<char> },
    NotComparable { value: Seq<char> },
    UnsupportedOperator { operator: Seq<char> },
}

impl View for ValidationError {
    type V = ValidationFault;

    open spec fn view(&self) -> ValidationFault {
        match self {
            ValidationError::MissingField { field } => ValidationFault::MissingField { field: field@ },
            ValidationError::TypeMismatch { field, expected, actual } => ValidationFault::TypeMismatch {
                field: field@,
                expected: expected@,
                actual: *actual,
            },
            ValidationError::NotNullable { field } => ValidationFault::NotNullable { field: field@ },
            ValidationError::NotANumber { field } => ValidationFault::NotANumber { field: field@ },
            ValidationError::BelowMinimum { field, value, minimum } => ValidationFault::BelowMinimum {
                field: field@,
                value: *value,
                minimum: *minimum,
            },
            ValidationError::AboveMaximum { field, value, maximum } => ValidationFault::AboveMaximum {
                field: field@,
                value: *value,
                maximum: *maximum,
            },
            ValidationError::NotInEnum { field, value, allowed } => ValidationFault::NotInEnum {
                field: field@,
                value: value@,
                allowed: allowed@,
            },
            ValidationError::ConditionFieldMissing { field } => ValidationFault::ConditionFieldMissing {
                field: field@,
            },
            ValidationError::NotComparable { value } => ValidationFault::NotComparable { value: value@ },
            ValidationError::UnsupportedOperator { operator } => ValidationFault::UnsupportedOperator {
                operator: operator@,
            },
        }
    }
}

/// The fault of an optional error.
pub open spec fn fault_of(r: Option<ValidationError>) -> Option<ValidationFault> {
    match r {
        Some(e) => Some(e@),
        None => None,
    }
}

/// `prefix` + `'field'` + `suffix`.
pub open spec fn field_text(prefix: Seq<char>, field: Seq<char>, suffix: Seq<char>) -> Seq<char> {
    prefix + "'"@ + field + "'"@ + suffix
}

pub(crate) fn field_message(prefix: &str, field: &str, suffix: &str) -> (r: String)
    ensures
        r@ == field_text(prefix@, field@, suffix@),
{
    let mut out = String::from_str(prefix);
    out.append("'");
    out.append(field);
    out.append("'");
    out.append(suffix);
    assert(out@ =~= field_text(prefix@, field@, suffix@));
    out
}

impl ValidationFault {
    /// The text of [`ValidationError::message`].
    pub open spec fn text(&self) -> Seq<char> {
        match self {
            ValidationFault::MissingField { field } => field_text(
                "Validation failed: Field "@,
                *field,
                " is missing in memory"@,
            ),
            ValidationFault::TypeMismatch { field, expected, actual } => field_text(
                "Validation failed: Field "@,
                *field,
                " expected type "@,
            ) + "'"@ + *expected + "', got '"@ + crate::validation::type_label(*actual) + "'"@,
            ValidationFault::NotNullable { field } => field_text(
                "Validation failed: Field "@,
                *field,
                " cannot be null"@,
            ),
            ValidationFault::NotANumber { field } => field_text(
                "Validation failed: Field "@,
                *field,
                " is not a number"@,
            ),
            ValidationFault::BelowMinimum { field, value, minimum } => field_text(
                "Validation failed: Field "@,
                *field,
                " value "@,
            ) + "'"@ + number_text(*value) + "' is less than minimum '"@ + number_text(*minimum)
                + "'"@,
            ValidationFault::AboveMaximum { field, value, maximum } => field_text(
                "Validation failed: Field "@,
                *field,
                " value "@,
            ) + "'"@ + number_text(*value) + "' is greater than maximum '"@ + number_text(
                *maximum,
            ) + "'"@,
            ValidationFault::NotInEnum { field, value, allowed } => field_text(
                "Validation failed: Field "@,
                *field,
                " value "@,
            ) + "'"@ + *value + "' is not in enum "@ + *allowed,
            ValidationFault::ConditionFieldMissing { field } => field_text(
                "Condition evaluation failed: Field "@,
                *field,
                " is missing in memory"@,
            ),
            ValidationFault::NotComparable { value } => field_text(
                "Cannot compare non-numeric value "@,
                *value,
                " in condition"@,
            ),
            ValidationFault::UnsupportedOperator { operator } => field_text(
                "Unsupported operator "@,
                *operator,
                Seq::empty(),
            ),
        }
    }
}

impl ValidationError {
    /// A human-readable description naming the field, the failed rule and the
    /// values involved.
    pub fn message(&self) -> (r: String)
        ensures
            r@ == self@.text(),
    {
        let mut out = match self {
            ValidationError::MissingField { field } => field_message(
                "Validation failed: Field ",
                field.as_str(),
                " is missing in memory",
            ),
            ValidationError::TypeMismatch { field, .. } => field_message(
                "Validation failed: Field ",
                field.as_str(),
                " expected type ",
            ),
            ValidationError::NotNullable { field } => field_message(
                "Validation failed: Field ",
                field.as_str(),
                " cannot be null",
            ),
            ValidationError::NotANumber { field } => field_message(
                "Validation failed: Field ",
                field.as_str(),
                " is not a number",
            ),
            ValidationError::BelowMinimum { field, .. } => field_message(
                "Validation failed: Field ",
                field.as_str(),
                " value ",
            ),
            ValidationError::AboveMaximum { field, .. } => field_message(
                "Validation failed: Field ",
                field.as_str(),
                " value ",
            ),
            ValidationError::NotInEnum { field, .. } => field_message(
                "Validation failed: Field ",
                field.as_str(),
                " value ",
            ),
            ValidationError::ConditionFieldMissing { field } => field_message(
                "Condition evaluation failed: Field ",
                field.as_str(),
                " is missing in memory",
            ),
            ValidationError::NotComparable { value } => field_message(
                "Cannot compare non-numeric value ",
                value.as_str(),
                " in condition",
            ),
            ValidationError::UnsupportedOperator { operator } => {
                let mut o = String::from_str("Unsupported operator ");
                o.append("'");
                o.append(operator.as_str());
                o.append("'");
                o
            },
        };
        let ghost head = out@;
        match self {
            ValidationError::TypeMismatch { expected, actual, .. } => {
                out.append("'");
                out.append(expected.as_str());
                out.append("', got '");
                out.append(crate::validation::type_label_of(*actual));
                out.append("'");
            },
            ValidationError::BelowMinimum { value, minimum, .. } => {
                out.append("'");
                push_number(&mut out, *value);
                out.append("' is less than minimum '");
                push_number(&mut out, *minimum);
                out.append("'");
            },
            ValidationError::AboveMaximum { value, maximum, .. } => {
                out.append("'");
                push_number(&mut out, *value);
                out.append("' is greater than maximum '");
                push_number(&mut out, *maximum);
                out.append("'");
            },
            ValidationError::NotInEnum { value, allowed, .. } => {
                out.append("'");
                out.append(value.as_str());
                out.append("' is not in enum ");
                out.append(allowed.as_str());
            },
            _ => {},
        }
        assert(out@ =~= self@.text());
        out
    }
}

/// Whether two texts hold the same characters.
pub fn same_text(a: &str, b: &str) -> (r: bool)
    ensures
        r == (a@ == b@),
{
    a.to_owned() == b.to_owned()
}

} // verus!
