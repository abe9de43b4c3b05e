//! Evaluation of validation rules against memory.
use crate::json::{
    compare_numbers, get_type_name, is_nan, json_equal, nan, number_cmp, ordering_of, render_value,
    render_values, type_of, value_text, values_equal, values_text, JsonNumber, JsonType, JsonValue,
};
use crate::memory::Memory;
use crate::model::{
    fault_of, same_text, Condition, FieldRule, ValidationError, ValidationFault, ValidationRule,
};
use std::cmp::Ordering;
use vstd::prelude::*;

verus! {

/// The name that `type_check` rules use for a type tag.
pub open spec fn type_label(t: JsonType) -> Seq<char> {
    match t {
        JsonType::Null => "null"@,
        JsonType::Boolean => "boolean"@,
        JsonType::Number => "number"@,
        JsonType::String => "string"@,
        JsonType::Array => "array"@,
        JsonType::Object => "object"@,
    }
}

/// The name that `type_check` rules use for a type tag.
pub fn type_label_of(t: JsonType) -> (r: &'static str)
    ensures
        r@ == type_label(t),
{
    match t {
        JsonType::Null => "null",
        JsonType::Boolean => "boolean",
        JsonType::Number => "number",
        JsonType::String => "string",
        JsonType::Array => "array",
        JsonType::Object => "object",
    }
}

/// Whether `x` equals one of `values`.
pub open spec fn in_values(values: Seq<JsonValue>, x: JsonValue) -> bool {
    exists|i: int| 0 <= i < values.len() && #[trigger] json_equal(values[i], x)
}

/// What one field rule finds wrong with the field that `v` names, if anything.
pub open spec fn rule_violation(
    v: ValidationRule,
    rule: FieldRule,
    mem: Map<Seq<char>, JsonValue>,
) -> Option<ValidationFault> {
    let f = v.field@;
    let present = mem.contains_key(f);
    let value = mem[f];
    match rule {
        FieldRule::TypeCheck { expected_type } => if !present {
            Some(ValidationFault::MissingField { field: f })
        } else if type_label(type_of(value)) != expected_type@ {
            Some(
                ValidationFault::TypeMismatch {
                    field: f,
                    expected: expected_type@,
                    actual: type_of(value),
                },
            )
        } else {
            None
        },
        FieldRule::Nullable { is_nullable } => if !is_nullable && !present {
            Some(ValidationFault::NotNullable { field: f })
        } else {
            None
        },
        FieldRule::MinValue { value: bound } => if !present || !(value is Number) {
            Some(ValidationFault::NotANumber { field: f })
        } else if is_nan(value->Number_0) || is_nan(bound) || number_cmp(value->Number_0, bound)
            < 0 {
            Some(ValidationFault::BelowMinimum { field: f, value: value->Number_0, minimum: bound })
        } else {
            None
        },
        FieldRule::MaxValue { value: bound } => if !present || !(value is Number) {
            Some(ValidationFault::NotANumber { field: f })
        } else if is_nan(value->Number_0) || is_nan(bound) || number_cmp(value->Number_0, bound)
            > 0 {
            Some(ValidationFault::AboveMaximum { field: f, value: value->Number_0, maximum: bound })
        } else {
            None
        },
        FieldRule::Editable { .. } => None,
        FieldRule::ReadOnly { .. } => None,
        FieldRule::Enum { values } => if !present {
            Some(ValidationFault::MissingField { field: f })
        } else if !in_values(values@, value) {
            Some(
                ValidationFault::NotInEnum {
                    field: f,
                    value: value_text(value),
                    allowed: values_text(values@),
                },
            )
        } else {
            None
        },
    }
}

/// The first violation among `rules[from..]`.
pub open spec fn rules_violation(
    v: ValidationRule,
    rules: Seq<FieldRule>,
    mem: Map<Seq<char>, JsonValue>,
    from: int,
) -> Option<ValidationFault>
    decreases rules.len() - from,
{
    if from < 0 || from >= rules.len() {
        None
    } else {
        match rule_violation(v, rules[from], mem) {
            Some(e) => Some(e),
            None => rules_violation(v, rules, mem, from + 1),
        }
    }
}

/// Whether two numbers compare as unordered doubles (one is NaN).
pub open spec fn unordered(a: JsonNumber, b: JsonNumber) -> bool {
    is_nan(a) || is_nan(b)
}

/// What an ordering comparison of two values gives, comparing them as
/// doubles: the fault names the first operand that is not a number; with a
/// NaN no ordering holds, so all four operators give false.
pub open spec fn ordering_outcome(actual: JsonValue, expected: JsonValue, op: Seq<char>) -> Result<
    bool,
    ValidationFault,
> {
    if !(actual is Number) {
        Err(ValidationFault::NotComparable { value: value_text(actual) })
    } else if !(expected is Number) {
        Err(ValidationFault::NotComparable { value: value_text(expected) })
    } else {
        let (a, b) = (actual->Number_0, expected->Number_0);
        let o = number_cmp(a, b);
        Ok(
            if op == ">"@ {
                !unordered(a, b) && o > 0
            } else if op == "<"@ {
                !unordered(a, b) && o < 0
            } else if op == ">="@ {
                !unordered(a, b) && o >= 0
            } else {
                !unordered(a, b) && o <= 0
            },
        )
    }
}

/// What a condition evaluates to, or why it cannot be evaluated.
pub open spec fn condition_outcome(c: Condition, mem: Map<Seq<char>, JsonValue>) -> Result<
    bool,
    ValidationFault,
> {
    let actual = mem[c.field@];
    let op = c.operator@;
    if !mem.contains_key(c.field@) {
        Err(ValidationFault::ConditionFieldMissing { field: c.field@ })
    } else if op == "=="@ {
        Ok(json_equal(actual, c.value))
    } else if op == "!="@ {
        Ok(!json_equal(actual, c.value))
    } else if op == ">"@ || op == "<"@ || op == ">="@ || op == "<="@ {
        ordering_outcome(actual, c.value, op)
    } else {
        Err(ValidationFault::UnsupportedOperator { operator: op })
    }
}

/// The outcome of one validation rule: a failed condition skips it.
pub open spec fn validation_outcome(v: ValidationRule, mem: Map<Seq<char>, JsonValue>) -> Option<
    ValidationFault,
> {
    match v.condition {
        Some(c) => match condition_outcome(c, mem) {
            Err(e) => Some(e),
            Ok(false) => None,
            Ok(true) => rules_violation(v, v.rules@, mem, 0),
        },
        None => rules_violation(v, v.rules@, mem, 0),
    }
}

/// The first failure among `rules[from..]`, rule by rule.
pub open spec fn first_failure(
    rules: Seq<ValidationRule>,
    mem: Map<Seq<char>, JsonValue>,
    from: int,
) -> Option<ValidationFault>
    decreases rules.len() - from,
{
    if from < 0 || from >= rules.len() {
        None
    } else {
        match validation_outcome(rules[from], mem) {
            Some(e) => Some(e),
            None => first_failure(rules, mem, from + 1),
        }
    }
}

/// The fault of a condition's outcome.
pub open spec fn outcome_fault(r: Result<bool, ValidationError>) -> Result<bool, ValidationFault> {
    match r {
        Ok(b) => Ok(b),
        Err(e) => Err(e@),
    }
}

fn not_comparable(actual: &JsonValue, expected: &JsonValue) -> (r: ValidationError)
    requires
        !(actual is Number) || !(expected is Number),
    ensures
        Err::<bool, ValidationFault>(r@) == ordering_outcome(*actual, *expected, Seq::empty()),
{
    let value = match actual {
        JsonValue::Number(_) => render_value(expected),
        _ => render_value(actual),
    };
    ValidationError::NotComparable { value }
}

/// Orders two values as doubles: `Equal` when either is NaN; a fault naming
/// the first operand that is not a number.
pub fn compare_values_ordering(actual: &JsonValue, expected: &JsonValue) -> (r: Result<
    Ordering,
    ValidationError,
>)
    ensures
        match r {
            Ok(o) => actual is Number && expected is Number && o == if unordered(
                actual->Number_0,
                expected->Number_0,
            ) {
                Ordering::Equal
            } else {
                ordering_of(number_cmp(actual->Number_0, expected->Number_0))
            },
            Err(e) => Err::<bool, ValidationFault>(e@) == ordering_outcome(
                *actual,
                *expected,
                Seq::empty(),
            ),
        },
{
    match (actual, expected) {
        (JsonValue::Number(a), JsonValue::Number(b)) => {
            if nan(*a) || nan(*b) {
                Ok(Ordering::Equal)
            } else {
                Ok(compare_numbers(*a, *b))
            }
        },
        _ => Err(not_comparable(actual, expected)),
    }
}

/// Whether two values, as doubles, stand in `ordering` (never when either is
/// NaN); a fault naming the first operand that is not a number.
pub fn compare_values(actual: &JsonValue, expected: &JsonValue, ordering: Ordering) -> (r: Result<
    bool,
    ValidationError,
>)
    ensures
        match r {
            Ok(b) => actual is Number && expected is Number && b == (!unordered(
                actual->Number_0,
                expected->Number_0,
            ) && ordering_of(number_cmp(actual->Number_0, expected->Number_0)) == ordering),
            Err(e) => Err::<bool, ValidationFault>(e@) == ordering_outcome(
                *actual,
                *expected,
                Seq::empty(),
            ),
        },
{
    match (actual, expected) {
        (JsonValue::Number(a), JsonValue::Number(b)) => {
            if nan(*a) || nan(*b) {
                return Ok(false);
            }
            let o = compare_numbers(*a, *b);
            Ok(
                match (o, ordering) {
                    (Ordering::Less, Ordering::Less) => true,
                    (Ordering::Equal, Ordering::Equal) => true,
                    (Ordering::Greater, Ordering::Greater) => true,
                    _ => false,
                },
            )
        },
        _ => Err(not_comparable(actual, expected)),
    }
}

/// Evaluates a condition against memory.
pub fn evaluate_condition(c: &Condition, mem: &Memory) -> (r: Result<bool, ValidationError>)
    ensures
        outcome_fault(r) == condition_outcome(*c, mem@),
{
    let actual = match mem.get(c.field.as_str()) {
        Some(a) => a,
        None => {
            return Err(ValidationError::ConditionFieldMissing { field: c.field.clone() });
        },
    };
    let op = c.operator.as_str();
    if same_text(op, "==") {
        Ok(values_equal(actual, &c.value))
    } else if same_text(op, "!=") {
        Ok(!values_equal(actual, &c.value))
    } else if same_text(op, ">") {
        compare_values(actual, &c.value, Ordering::Greater)
    } else if same_text(op, "<") {
        compare_values(actual, &c.value, Ordering::Less)
    } else if same_text(op, ">=") || same_text(op, "<=") {
        let strict = if same_text(op, ">=") {
            Ordering::Greater
        } else {
            Ordering::Less
        };
        match compare_values(actual, &c.value, strict) {
            Ok(s) => match compare_values(actual, &c.value, Ordering::Equal) {
                Ok(e) => Ok(s || e),
                Err(e) => Err(e),
            },
            Err(e) => Err(e),
        }
    } else {
        Err(ValidationError::UnsupportedOperator { operator: c.operator.clone() })
    }
}

fn contains_value(values: &Vec<JsonValue>, x: &JsonValue) -> (r: bool)
    ensures
        r == in_values(values@, *x),
{
    let mut i: usize = 0;
    while i < values.len()
        invariant
            0 <= i <= values@.len(),
            forall|j: int| 0 <= j < i ==> !#[trigger] json_equal(values@[j], *x),
        decreases values@.len() - i,
    {
        if values_equal(&values[i], x) {
            return true;
        }
        i = i + 1;
    }
    false
}

/// Checks one field rule against the field that `v` names.
pub fn check_rule(v: &ValidationRule, rule: &FieldRule, mem: &Memory) -> (r: Option<
    ValidationError,
>)
    ensures
        fault_of(r) == rule_violation(*v, *rule, mem@),
{
    let found = mem.get(v.field.as_str());
    match rule {
        FieldRule::TypeCheck { expected_type } => match found {
            None => Some(ValidationError::MissingField { field: v.field.clone() }),
            Some(x) => {
                let actual = get_type_name(x);
                if !same_text(type_label_of(actual), expected_type.as_str()) {
                    Some(
                        ValidationError::TypeMismatch {
                            field: v.field.clone(),
                            expected: expected_type.clone(),
                            actual,
                        },
                    )
                } else {
                    None
                }
            },
        },
        FieldRule::Nullable { is_nullable } => {
            if !*is_nullable && found.is_none() {
                Some(ValidationError::NotNullable { field: v.field.clone() })
            } else {
                None
            }
        },
        FieldRule::MinValue { value: bound } => match found {
            Some(JsonValue::Number(n)) => {
                if nan(*n) || nan(*bound) || matches!(compare_numbers(*n, *bound), Ordering::Less) {
                    Some(
                        ValidationError::BelowMinimum {
                            field: v.field.clone(),
                            value: *n,
                            minimum: *bound,
                        },
                    )
                } else {
                    None
                }
            },
            _ => Some(ValidationError::NotANumber { field: v.field.clone() }),
        },
        FieldRule::MaxValue { value: bound } => match found {
            Some(JsonValue::Number(n)) => {
                if nan(*n) || nan(*bound) || matches!(
                    compare_numbers(*n, *bound),
                    Ordering::Greater
                ) {
                    Some(
                        ValidationError::AboveMaximum {
                            field: v.field.clone(),
                            value: *n,
                            maximum: *bound,
                        },
                    )
                } else {
                    None
                }
            },
            _ => Some(ValidationError::NotANumber { field: v.field.clone() }),
        },
        FieldRule::Editable { .. } => None,
        FieldRule::ReadOnly { .. } => None,
        FieldRule::Enum { values } => match found {
            None => Some(ValidationError::MissingField { field: v.field.clone() }),
            Some(x) => {
                if !contains_value(values, x) {
                    Some(
                        ValidationError::NotInEnum {
                            field: v.field.clone(),
                            value: render_value(x),
                            allowed: render_values(values),
                        },
                    )
                } else {
                    None
                }
            },
        },
    }
}

/// Checks the field rules of `v` in order, stopping at the first violation.
fn check_rules(v: &ValidationRule, mem: &Memory) -> (r: Option<ValidationError>)
    ensures
        fault_of(r) == rules_violation(*v, v.rules@, mem@, 0),
{
    let mut i: usize = 0;
    while i < v.rules.len()
        invariant
            0 <= i <= v.rules@.len(),
            rules_violation(*v, v.rules@, mem@, 0) == rules_violation(*v, v.rules@, mem@, i as int),
        decreases v.rules@.len() - i,
    {
        match check_rule(v, &v.rules[i], mem) {
            Some(e) => {
                return Some(e);
            },
            None => {},
        }
        i = i + 1;
    }
    None
}

/// Applies one validation rule: its condition first, then its field rules.
pub fn evaluate_validation(v: &ValidationRule, mem: &Memory) -> (r: Option<ValidationError>)
    ensures
        fault_of(r) == validation_outcome(*v, mem@),
{
    match &v.condition {
        Some(c) => match evaluate_condition(c, mem) {
            Err(e) => Some(e),
            Ok(false) => None,
            Ok(true) => check_rules(v, mem),
        },
        None => check_rules(v, mem),
    }
}

/// Applies validation rules in order and reports the first failure.
pub fn evaluate_validations(validations: &Vec<ValidationRule>, mem: &Memory) -> (r: Result<
    (),
    ValidationError,
>)
    ensures
        match first_failure(validations@, mem@, 0) {
            None => r is Ok,
            Some(f) => r matches Err(e) && e@ == f,
        },
{
    let mut i: usize = 0;
    while i < validations.len()
        invariant
            0 <= i <= validations@.len(),
            first_failure(validations@, mem@, 0) == first_failure(validations@, mem@, i as int),
        decreases validations@.len() - i,
    {
        match evaluate_validation(&validations[i], mem) {
            Some(e) => {
                return Err(e);
            },
            None => {},
        }
        i = i + 1;
    }
    Ok(())
}

} // verus!
