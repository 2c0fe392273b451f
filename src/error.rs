use vstd::prelude::*;

verus! {

/// Why an operation failed.
#[derive(Debug)]
pub enum ShremError {
    /// A filesystem or system call failed; holds its description.
    IoError(String),
    /// Recursive work on the filesystem root without the override.
    PreservedRootError,
    /// The overwrite tool exited with a failure; holds its exit code, if it had one.
    ExternalProcessError(Option<i32>),
    /// The target does not exist.
    NotFound(String),
    /// A file-only operation met a directory.
    IsADirectory(String),
}

pub open spec fn description_of(e: ShremError) -> Seq<char> {
    match e {
        ShremError::IoError(m) => m@,
        ShremError::PreservedRootError => ROOT_MESSAGE@,
        ShremError::ExternalProcessError(_) => PROCESS_MESSAGE@,
        ShremError::NotFound(_) => NOT_FOUND_MESSAGE@,
        ShremError::IsADirectory(_) => IS_A_DIRECTORY_MESSAGE@,
    }
}

pub const ROOT_MESSAGE: &'static str =
    "It is dangerous to operate on '/' recursively. Use --no-preserve-root to override this failsafe.";

pub const PROCESS_MESSAGE: &'static str = "External process exited with an error.";

pub const NOT_FOUND_MESSAGE: &'static str = "No such file or directory";

pub const IS_A_DIRECTORY_MESSAGE: &'static str = "Is a directory";

impl ShremError {
    /// A one-line account of the failure.
    pub fn description(&self) -> (r: &str)
        ensures
            r@ == description_of(*self),
    {
        match self {
            ShremError::IoError(m) => m.as_str(),
            ShremError::PreservedRootError => ROOT_MESSAGE,
            ShremError::ExternalProcessError(_) => PROCESS_MESSAGE,
            ShremError::NotFound(_) => NOT_FOUND_MESSAGE,
            ShremError::IsADirectory(_) => IS_A_DIRECTORY_MESSAGE,
        }
    }

    /// The underlying system failure, for an I/O error.
    pub fn cause(&self) -> (r: Option<&str>)
        ensures
            r is Some <==> *self is IoError,
            *self is IoError ==> r->0@ == description_of(*self),
    {
        match self {
            ShremError::IoError(m) => Some(m.as_str()),
            _ => None,
        }
    }

    /// Whether the failure was already reported by the overwrite tool itself.
    pub fn is_external(&self) -> (r: bool)
        ensures
            r <==> *self is ExternalProcessError,
    {
        match self {
            ShremError::ExternalProcessError(_) => true,
            _ => false,
        }
    }
}

} // verus!
