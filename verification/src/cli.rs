//! What can go wrong between the command line and an analysis.

use vstd::prelude::*;
use vstd::string::*;

verus! {

/// Why a command was not carried out.
#[derive(Debug, Clone)]
pub enum CliError {
    CustomerNotFound(String),
    NotImplementedYet(),
    CommandNotExists(String),
}

impl CliError {
    /// The error in words.
    pub open spec fn spec_message(&self) -> Seq<char> {
        match self {
            CliError::CustomerNotFound(customer) => "Customer "@ + customer@ + " not found"@,
            CliError::NotImplementedYet() => "Not implemented yet"@,
            CliError::CommandNotExists(reason) => reason@,
        }
    }

    /// The error in words.
    pub fn message(&self) -> (message: String)
        ensures
            message@ == self.spec_message(),
    {
        match self {
            CliError::CustomerNotFound(customer) => String::from_str("Customer ").concat(customer.as_str()).concat(
                " not found",
            ),
            CliError::NotImplementedYet() => String::from_str("Not implemented yet"),
            CliError::CommandNotExists(reason) => reason.clone(),
        }
    }
}

} // verus!
