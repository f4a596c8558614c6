//! The errors that the client hands back.

use vstd::prelude::*;

verus! {

/// Why no credentials could be resolved from an environment.
#[derive(Debug, Clone, Copy, PartialEq, Eq)]
pub enum ConfigError {
    /// Neither a single key nor a complete key pair is set.
    MissingCredentials,
}

impl ConfigError {
    /// The message for the user, which names the variables that were looked for.
    pub fn message(&self) -> (text: String)
        ensures
            text@ == "FAL_KEY or FAL_KEY_ID and FAL_SECRET must be set in the environment"@,
    {
        match self {
            ConfigError::MissingCredentials => String::from_str(
                "FAL_KEY or FAL_KEY_ID and FAL_SECRET must be set in the environment",
            ),
        }
    }
}

/// Why a dispatched call yielded no usable response. `E` is the transport's
/// own error type.
#[derive(Debug)]
pub enum FalError<E> {
    /// The server answered with a status that is not a success. Every such
    /// status is reported this way, whatever its number.
    InvalidCredentials,
    /// The transport failed before any response was received; the cause is
    /// carried along.
    RequestError(E),
}

} // verus!
