//! Error kinds reported while resolving an utterance into intents.

use vstd::prelude::*;

verus! {

/// Intent parsing errors
#[derive(Debug)]
pub enum Errors {
    NetworkError(String),
    ParsingError,
    InvalidInput(String),
    InternalError(String),
}

} // verus!
