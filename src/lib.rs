//! Credential-sweep engine for HTTP form logins: response classification,
//! per-attempt retry discipline, sweep scheduling and input handling, with
//! their behaviour stated as contracts and proved.

pub mod text;
pub mod classify;
pub mod attempt;
pub mod request;
pub mod sweep;
pub mod precheck;
pub mod parse;
pub mod validate;
pub mod progress;

use vstd::prelude::*;

verus! {

/// The library's version.
pub fn version() -> (r: &'static str)
    ensures
        r@ == "1.0.0"@,
{
    "1.0.0"
}

/// The library's authors.
pub fn author() -> (r: &'static str)
    ensures
        r@ == "RedFox Security Team"@,
{
    "RedFox Security Team"
}

} // verus!
