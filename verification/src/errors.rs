//! What can go wrong before a run starts.

use vstd::prelude::*;

verus! {

/// Why the input could not be used.
#[derive(Debug)]
pub enum Error {
    InvalidInputPath(String),
    InvalidInputFile(String),
    InputReadFailure,
    InvalidJson(JsonError),
}

/// Where and why the input is not valid JSON.
#[derive(Debug)]
pub struct JsonError {
    pub description: String,
    pub category: String,
    pub line: usize,
    pub column: usize,
}

} // verus!
