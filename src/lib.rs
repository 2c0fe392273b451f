/// Options of an invocation and what the filesystem reports of a path.
pub mod config;
/// The file eraser: checks, questions and the overwrite tool's arguments.
pub mod eraser;
/// Why an operation failed.
pub mod error;
/// Enumeration of short obfuscated names.
pub mod names;
/// Renaming an emptied directory through shrinking names, then removing it.
pub mod obliterate;
/// The run over all given paths: failures, exit code, diagnostics.
pub mod session;
/// Building strings: decimal numbers and concatenation.
pub mod text;
/// The depth-first walk over a path, one filesystem action at a time.
pub mod walker;
