//! Checks on a response body.

use vstd::prelude::*;

use crate::config::{Validation, ValidationResult};
use crate::json::{is_empty, is_empty_value, json_eq, json_equals, json_value_to_string, render, Json, JsonValue};
use crate::path::{get_json_field, json_field};
use crate::text::chars_of;

verus! {

/// The kinds of check; any other operator name is `Unknown`.
#[derive(PartialEq, Eq, Structural, Clone, Copy, Debug)]
pub enum Operator {
    Equals,
    Exists,
    NotEmpty,
    Contains,
    Unknown,
}

/// The check an operator name stands for.
pub open spec fn operator_of(name: Seq<char>) -> Operator {
    if name == "equals"@ {
        Operator::Equals
    } else if name == "exists"@ {
        Operator::Exists
    } else if name == "not_empty"@ {
        Operator::NotEmpty
    } else if name == "contains"@ {
        Operator::Contains
    } else {
        Operator::Unknown
    }
}

/// Whether `needle` occurs in `hay` as a contiguous run.
pub open spec fn has_substring(hay: Seq<char>, needle: Seq<char>) -> bool {
    exists|i: int| 0 <= i <= hay.len() - needle.len() && #[trigger] hay.subrange(i, i + needle.len()) == needle
}

/// Whether a check passes, given the field's value (if present) and the expected value.
pub open spec fn check_passes(op: Operator, actual: Option<Json>, expected: Json) -> bool {
    match op {
        Operator::Equals => actual matches Some(a) && json_eq(a, expected),
        Operator::Exists => actual is Some,
        Operator::NotEmpty => actual matches Some(a) && !is_empty_value(a),
        Operator::Contains => actual matches Some(a) && expected matches Json::Str(e)
            && has_substring(render(a), e),
        Operator::Unknown => false,
    }
}

/// What a check reports for one rule against `response`.
pub open spec fn check_result(v: Validation, response: Json) -> (Seq<char>, Seq<char>, Seq<char>, Seq<char>, bool) {
    let actual = json_field(response, v.field@);
    (
        v.field@,
        v.operator@,
        render(v.expected@),
        match actual {
            Some(a) => render(a),
            None => "null"@,
        },
        check_passes(operator_of(v.operator@), actual, v.expected@),
    )
}

/// What a validation result reports, as plain values.
pub open spec fn result_view(r: ValidationResult) -> (Seq<char>, Seq<char>, Seq<char>, Seq<char>, bool) {
    (r.field@, r.operator@, r.expected@, r.actual@, r.passed)
}

/// The check an operator name stands for.
pub fn parse_operator(name: &String) -> (r: Operator)
    ensures
        r == operator_of(name@),
{
    if *name == String::from_str("equals") {
        Operator::Equals
    } else if *name == String::from_str("exists") {
        Operator::Exists
    } else if *name == String::from_str("not_empty") {
        Operator::NotEmpty
    } else if *name == String::from_str("contains") {
        Operator::Contains
    } else {
        Operator::Unknown
    }
}

/// Whether `needle` occurs in `hay`.
pub fn contains_text(hay: &str, needle: &str) -> (r: bool)
    ensures
        r == has_substring(hay@, needle@),
{
    let h = chars_of(hay);
    let n = chars_of(needle);
    if n.len() > h.len() {
        return false;
    }
    let mut i: usize = 0;
    while i <= h.len() - n.len()
        invariant
            n.len() <= h.len(),
            h@ == hay@,
            n@ == needle@,
            i <= h.len() - n.len() + 1,
            forall|k: int| 0 <= k < i ==> #[trigger] h@.subrange(k, k + n@.len()) != n@,
        decreases h.len() - n.len() + 1 - i,
    {
        let mut j: usize = 0;
        while j < n.len() && h[i + j] == n[j]
            invariant
                i + n.len() <= h.len(),
                j <= n.len(),
                forall|m: int| 0 <= m < j ==> h@[i + m] == n@[m],
            decreases n.len() - j,
        {
            j = j + 1;
        }
        if j == n.len() {
            assert(h@.subrange(i as int, i + n@.len()) =~= n@);
            return true;
        }
        assert(h@.subrange(i as int, i + n@.len())[j as int] != n@[j as int]);
        i = i + 1;
    }
    assert forall|k: int| 0 <= k <= hay@.len() - needle@.len() implies #[trigger] hay@.subrange(k, k + needle@.len()) != needle@ by {
        assert(k < i);
    }
    false
}

/// Whether one check passes against the field's value.
pub fn check(op: Operator, actual: Option<&JsonValue>, expected: &JsonValue) -> (r: bool)
    ensures
        r == check_passes(
            op,
            match actual {
                Some(a) => Some(a@),
                None => None,
            },
            expected@,
        ),
{
    match op {
        Operator::Equals => match actual {
            Some(a) => json_equals(a, expected),
            None => false,
        },
        Operator::Exists => actual.is_some(),
        Operator::NotEmpty => match actual {
            Some(a) => !is_empty(a),
            None => false,
        },
        Operator::Contains => match (actual, expected) {
            (Some(a), JsonValue::Str(e)) => {
                let text = json_value_to_string(a);
                contains_text(text.as_str(), e.as_str())
            },
            _ => false,
        },
        Operator::Unknown => false,
    }
}

/// Runs every check in `validations` against `response`, in order.
pub fn validate_response(response: &JsonValue, validations: &Vec<Validation>) -> (r: Vec<
    ValidationResult,
>)
    ensures
        r.len() == validations.len(),
        forall|i: int|
            0 <= i < r.len() ==> result_view(#[trigger] r[i]) == check_result(
                validations[i],
                response@,
            ),
{
    let mut out: Vec<ValidationResult> = Vec::new();
    let mut i: usize = 0;
    while i < validations.len()
        invariant
            i <= validations.len(),
            out.len() == i,
            forall|k: int|
                0 <= k < i ==> result_view(#[trigger] out[k]) == check_result(
                    validations[k],
                    response@,
                ),
        decreases validations.len() - i,
    {
        let v = &validations[i];
        let actual = get_json_field(response, v.field.as_str());
        let op = parse_operator(&v.operator);
        let passed = match &actual {
            Some(a) => check(op, Some(a), &v.expected),
            None => check(op, None, &v.expected),
        };
        let actual_text = match &actual {
            Some(a) => json_value_to_string(a),
            None => String::from_str("null"),
        };
        out.push(
            ValidationResult {
                field: v.field.clone(),
                operator: v.operator.clone(),
                expected: json_value_to_string(&v.expected),
                actual: actual_text,
                passed,
            },
        );
        i = i + 1;
    }
    out
}

} // verus!
