//! The error values of other libraries that this one hands on. They are
//! carried through as they come: nothing in this library looks into one, and
//! no contract says anything of what one holds.

use vstd::prelude::*;

verus! {

/// `serde_json::Error`: why `serde_json` refused a document.
#[verifier::external_type_specification]
#[verifier::external_body]
pub struct ExJsonError(serde_json::Error);

/// `std::io::Error`: why reading a file or listing a directory failed.
#[verifier::external_type_specification]
#[verifier::external_body]
pub struct ExIoError(std::io::Error);

} // verus!
