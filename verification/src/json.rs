//! The JSON builder of `rustc_serialize`, as far as the splitter uses it.

use crate::limits::{whole_numbers, within_limits};
use rustc_serialize::json::{Builder, Json, ParserError};
use vstd::prelude::*;

verus! {

/// `rustc_serialize::json::Json`, a JSON value; it is handed on unread.
#[verifier::external_type_specification]
#[verifier::external_body]
pub struct ExJson(rustc_serialize::json::Json);

/// `rustc_serialize::json::ParserError`, the error of the builder; only its
/// presence is used.
#[verifier::external_type_specification]
#[verifier::external_body]
pub struct ExParserError(rustc_serialize::json::ParserError);

/// What the builder makes of `text` taken as one whole JSON value: the
/// value, or the error at which it stopped.
pub uninterp spec fn built(text: Seq<char>) -> Result<Json, ParserError>;

/// `Builder::new(..).build()` over the characters of `text`.
///
/// Whether the builder succeeds is a matter of the characters alone. So is
/// the value, as long as every number is whole; a number with a fraction or
/// an exponent is computed in floating point, with operations whose result
/// the standard library leaves open, and of such a value nothing is said but
/// that there is one.
///
/// The builder is called only on texts within the limits: on others it may
/// overflow its counters or the stack and stop the program.
#[verifier::external_body]
pub(crate) fn build(text: &Vec<char>) -> (r: Result<Json, ParserError>)
    requires
        within_limits(text@),
    ensures
        r is Ok <==> built(text@) is Ok,
        whole_numbers(text@) ==> r == built(text@),
{
    Builder::new(text.iter().cloned()).build()
}

} // verus!
