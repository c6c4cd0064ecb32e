use vstd::prelude::*;

verus! {

/// The error taxonomy of the rendering harness.
///
/// Every fallible step returns one of these to its immediate caller;
/// nothing in the core retries. Diagnostic-carrying variants hold the
/// exact text reported by the collaborator that failed.
#[derive(Debug)]
pub enum CustomError {
    /// Reading the shader source file failed; carries the I/O error text.
    Io(String),
    /// Initialising the windowing/context collaborator failed.
    Glfw(String),
    /// A shader stage failed to compile; carries the backend's diagnostic log.
    Compilation(String),
    /// A program failed to link or validate; carries the backend's diagnostic log.
    Link(String),
    /// The shader source text held content before any section marker.
    MalformedShaderSource,
    /// Any other failure, described in free text.
    Other(String),
}

pub type CustomResult = Result<(), CustomError>;

} // verus!
