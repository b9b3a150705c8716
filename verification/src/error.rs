use vstd::prelude::*;
use crate::path::Path;

verus! {

/// The unified error taxonomy: backend-specific failures are folded into
/// a small set of reportable kinds.
#[derive(Debug)]
pub enum Error {
    /// An underlying read or metadata operation failed.
    Io(String),
    /// A backend-specific failure, wrapped uniformly so callers can
    /// report it without knowing the backend.
    Handler(String),
    /// No mount point claims the requested path. Reserved to the overlay
    /// engine; distinct from a handler-level failure on a claimed path.
    NotFound(Path),
}

} // verus!
