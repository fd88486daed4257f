//! Filesystem paths and I/O errors, carried through the library as opaque values.
use vstd::prelude::*;

verus! {

/// `std::path::PathBuf`, whose contents the library never inspects.
#[verifier::external_type_specification]
#[verifier::external_body]
pub struct ExPathBuf(std::path::PathBuf);

/// `std::io::Error`, carried inside errors without being inspected.
#[verifier::external_type_specification]
#[verifier::external_body]
pub struct ExIoError(std::io::Error);

} // verus!
