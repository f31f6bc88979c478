//! Errors of the command line tool.
use vstd::prelude::*;

verus! {

/// Errors of `plm`; each carries a description.
pub enum PlmError {
    InternalError(String),
    FileSystemError(String),
    SerializationError(String),
}

} // verus!
