//! Parsing the configuration a service boots with.
use vstd::prelude::*;
use anyhow::Error as AnyError;

verus! {

#[verifier::external_type_specification]
#[verifier::external_body]
pub struct ExAnyhowError(AnyError);

/// A configuration that can be parsed when a service boots.
pub trait ConfigParser: Sized {
    fn parse() -> Result<Self, AnyError>;
}

impl ConfigParser for () {
    fn parse() -> (r: Result<(), AnyError>)
        ensures
            r is Ok,
    {
        Ok(())
    }
}

/// A configuration with nothing in it.
#[derive(Debug, Clone, Copy, PartialEq, Eq, Structural)]
pub struct EmptyConfig;

impl ConfigParser for EmptyConfig {
    fn parse() -> (r: Result<EmptyConfig, AnyError>)
        ensures
            r matches Ok(c) && c == EmptyConfig,
    {
        Ok(EmptyConfig)
    }
}

} // verus!
