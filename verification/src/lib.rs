use vstd::prelude::*;

pub mod expressions;
pub mod functions;
pub mod helpers;
pub mod source;
pub mod statements;

verus! {

/// The input does not match the rule it was parsed against.
#[derive(Debug, PartialEq, Eq)]
pub struct ParseError;

} // verus!
