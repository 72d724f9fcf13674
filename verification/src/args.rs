//! The command line of the builder.
use vstd::prelude::*;
use std::path::PathBuf;

verus! {

#[verifier::external_type_specification]
#[verifier::external_body]
pub struct ExPathBuf(std::path::PathBuf);

/// Where to put the package, and the manifest whose directory the scripts
/// run in.
pub struct Args {
    pub target: PathBuf,
    pub manifest: PathBuf,
}

} // verus!
