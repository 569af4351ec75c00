//! The single failure path of the library: rejection at checked construction.

use vstd::prelude::*;
use vstd::string::StringExecFns;

verus! {

/// The constraint a rejected construction input violated.
///
/// With the minimum length fixed at one character, an empty input and an
/// input under the minimum length are the same violation.
#[derive(Clone, Copy, Debug, PartialEq, Eq, Structural)]
pub enum ValidationViolation {
    /// The input held fewer characters than the minimum (in particular, it was empty).
    LengthUnderMinimum,
    /// The input held more characters than the maximum.
    LengthOverMaximum,
    /// A character of the input lay outside the accepted set.
    DisallowedCharacter,
}

/// Why a checked construction rejected its input: the violated constraint
/// together with the offending value, unmodified.
#[derive(Debug)]
pub struct ValidationError {
    /// The constraint the input violated.
    pub violation: ValidationViolation,
    /// The rejected input, exactly as supplied.
    pub value: String,
}

/// The fixed wording for each violation, as a sequence of characters.
pub open spec fn spec_violation_text(v: ValidationViolation) -> Seq<char> {
    match v {
        ValidationViolation::LengthUnderMinimum => "length under minimum"@,
        ValidationViolation::LengthOverMaximum => "length over maximum"@,
        ValidationViolation::DisallowedCharacter => "disallowed character"@,
    }
}

/// The diagnostic message for an error: the violated constraint, then the
/// offending value in single quotes.
pub open spec fn spec_error_message(e: &ValidationError) -> Seq<char> {
    "symbol value rejected ("@ + spec_violation_text(e.violation) + "): '"@ + e.value@ + "'"@
}

impl ValidationError {
    /// The rejected input, exactly as supplied to the constructor.
    pub fn rejected_value(&self) -> (r: &str)
        ensures
            r@ == self.value@,
    {
        self.value.as_str()
    }

    /// The fixed wording for this error's violated constraint.
    pub fn violation_text(&self) -> (r: &'static str)
        ensures
            r@ == spec_violation_text(self.violation),
    {
        match self.violation {
            ValidationViolation::LengthUnderMinimum => "length under minimum",
            ValidationViolation::LengthOverMaximum => "length over maximum",
            ValidationViolation::DisallowedCharacter => "disallowed character",
        }
    }

    /// A diagnostic message naming the violated constraint and the offending
    /// value.
    pub fn message(&self) -> (r: String)
        ensures
            r@ == spec_error_message(self),
    {
        let m = String::from_str("symbol value rejected (");
        let m = m.concat(self.violation_text());
        let m = m.concat("): '");
        let m = m.concat(self.value.as_str());
        let m = m.concat("'");
        proof {
            assert(m@ =~= spec_error_message(self));
        }
        m
    }
}

} // verus!
