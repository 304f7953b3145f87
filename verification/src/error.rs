use vstd::prelude::*;

verus! {

/// The single error surfaced to callers: engine initialization failed,
/// either because the configuration text is not valid JSON or because
/// its shape is not a valid trie definition.
#[derive(Debug)]
pub enum Error {
    Init { message: String },
}

impl Error {
    /// The human-readable description of the failure.
    pub fn message(&self) -> (r: &str)
        ensures
            self matches Error::Init { message } && r@ == message@,
    {
        match self {
            Error::Init { message } => message.as_str(),
        }
    }
}

} // verus!
