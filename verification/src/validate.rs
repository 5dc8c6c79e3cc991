//! The validation report's text: `ghostty +validate-config` prints
//! nothing on success, so an empty report reads as a confirmation.

use vstd::prelude::*;

use crate::chars::{chars_of, contains_chars, contains_seq, spec_trim, trim_chars};

verus! {

/// The message shown for a validation run's output: the output itself,
/// or a fixed confirmation where the output is blank.
pub open spec fn spec_validation_message(output: Seq<char>) -> Seq<char> {
    if spec_trim(output).len() == 0 {
        "Configuration is valid!"@
    } else {
        output
    }
}

/// The message shown for a validation run's output.
pub fn validation_message(output: &str) -> (r: String)
    ensures
        r@ == spec_validation_message(output@),
{
    let cs = chars_of(output);
    let t = trim_chars(cs.as_slice());
    if t.len() == 0 {
        "Configuration is valid!".to_owned()
    } else {
        output.to_owned()
    }
}

/// Whether a validation report reads as a success: it mentions
/// `valid` (in either case) or is blank.
pub open spec fn spec_validation_ok(report: Seq<char>) -> bool {
    contains_seq(report, "valid"@) || contains_seq(report, "Valid"@) || spec_trim(report).len()
        == 0
}

/// Whether a validation report reads as a success.
pub fn validation_ok(report: &str) -> (r: bool)
    ensures
        r == spec_validation_ok(report@),
{
    let cs = chars_of(report);
    if contains_chars(cs.as_slice(), chars_of("valid").as_slice()) {
        return true;
    }
    if contains_chars(cs.as_slice(), chars_of("Valid").as_slice()) {
        return true;
    }
    let t = trim_chars(cs.as_slice());
    t.len() == 0
}

} // verus!
