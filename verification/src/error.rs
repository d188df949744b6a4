//! The error taxonomy of the build pipeline.
//!
//! Every failure of discovery, rendering or reconciliation is fatal to
//! the build pass it occurs in; these types say which collaborator or
//! precondition failed.

use vstd::prelude::*;

use crate::text::str_to_chars;

verus! {

/// Thrown whenever a crate cannot be found among the analysis roots.
#[derive(Debug, Clone)]
pub struct CrateErr {
    /// The name of the crate that couldn't be found.
    pub crate_name: String,
}

/// Thrown whenever metadata grabbed from somewhere else is not what is
/// expected, usually the external build tool's output.
#[derive(Debug, Clone)]
pub struct Json {
    /// The location of the unexpected metadata.
    pub location: String,
}

/// An error when a command is run on a project that was never initialized.
#[derive(Debug, Clone)]
pub struct UninitializedProject {
    /// The path of the project that wasn't initialized.
    pub location: String,
    /// The command that was attempted.
    pub command: String,
}

/// An error when initialization is run on an already initialized project.
#[derive(Debug, Clone)]
pub struct InitializedProject {
    /// The path of the project that already holds documentation.
    pub location: String,
}

/// Everything that can end a build pass early.
#[derive(Debug, Clone)]
pub enum Error {
    /// An external tool exited with a failure; carries its captured stderr.
    ExternalToolFailure { stderr: String },
    /// The external tool's output did not have the expected shape.
    MalformedMetadata(Json),
    /// No supported target to document was present in the metadata.
    NoSupportedTargets,
    /// A named crate was not present among the analysis roots.
    DeclarationNotFound(CrateErr),
    /// A command that needs an initialized project ran before `init`.
    Uninitialized(UninitializedProject),
    /// `init` ran on a project that is already initialized.
    AlreadyInitialized(InitializedProject),
    /// A filesystem operation failed.
    IoFailure { message: String },
    /// The template engine refused to render.
    Template { message: String },
}

impl Error {
    /// A human-readable description of the failure.
    pub fn message(&self) -> (r: String)
        ensures
            match self {
                Error::ExternalToolFailure { stderr } => r@ == "external tool failed:\n"@
                    + stderr@,
                Error::MalformedMetadata(j) => r@ == "unexpected metadata from "@ + j.location@,
                Error::NoSupportedTargets => r@
                    == "no targets with supported kinds (`bin`, `lib`) found"@,
                Error::DeclarationNotFound(c) => r@ == "crate not found: "@ + c.crate_name@,
                Error::Uninitialized(u) => r@ == "package at "@ + u.location@
                    + " is not initialized; run `init` before `"@ + u.command@ + "`"@,
                Error::AlreadyInitialized(i) => r@ == "package at "@ + i.location@
                    + " is already initialized"@,
                Error::IoFailure { message } => r@ == "i/o failure: "@ + message@,
                Error::Template { message } => r@ == "template error: "@ + message@,
            },
    {
        let mut out: Vec<char> = Vec::new();
        match self {
            Error::ExternalToolFailure { stderr } => {
                let head = str_to_chars("external tool failed:\n");
                crate::text::append_chars(&mut out, &head);
                let tail = str_to_chars(stderr.as_str());
                crate::text::append_chars(&mut out, &tail);
            },
            Error::MalformedMetadata(j) => {
                let head = str_to_chars("unexpected metadata from ");
                crate::text::append_chars(&mut out, &head);
                let tail = str_to_chars(j.location.as_str());
                crate::text::append_chars(&mut out, &tail);
            },
            Error::NoSupportedTargets => {
                let head = str_to_chars("no targets with supported kinds (`bin`, `lib`) found");
                crate::text::append_chars(&mut out, &head);
            },
            Error::DeclarationNotFound(c) => {
                let head = str_to_chars("crate not found: ");
                crate::text::append_chars(&mut out, &head);
                let tail = str_to_chars(c.crate_name.as_str());
                crate::text::append_chars(&mut out, &tail);
            },
            Error::Uninitialized(u) => {
                let head = str_to_chars("package at ");
                crate::text::append_chars(&mut out, &head);
                let loc = str_to_chars(u.location.as_str());
                crate::text::append_chars(&mut out, &loc);
                let mid = str_to_chars(" is not initialized; run `init` before `");
                crate::text::append_chars(&mut out, &mid);
                let cmd = str_to_chars(u.command.as_str());
                crate::text::append_chars(&mut out, &cmd);
                let end = str_to_chars("`");
                crate::text::append_chars(&mut out, &end);
            },
            Error::AlreadyInitialized(i) => {
                let head = str_to_chars("package at ");
                crate::text::append_chars(&mut out, &head);
                let loc = str_to_chars(i.location.as_str());
                crate::text::append_chars(&mut out, &loc);
                let end = str_to_chars(" is already initialized");
                crate::text::append_chars(&mut out, &end);
            },
            Error::IoFailure { message } => {
                let head = str_to_chars("i/o failure: ");
                crate::text::append_chars(&mut out, &head);
                let tail = str_to_chars(message.as_str());
                crate::text::append_chars(&mut out, &tail);
            },
            Error::Template { message } => {
                let head = str_to_chars("template error: ");
                crate::text::append_chars(&mut out, &head);
                let tail = str_to_chars(message.as_str());
                crate::text::append_chars(&mut out, &tail);
            },
        }
        crate::text::chars_to_string(&out)
    }
}

} // verus!
