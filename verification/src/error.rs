//! The launcher's error type and its messages.
use vstd::prelude::*;

verus! {

#[verifier::external_type_specification]
#[verifier::external_body]
pub struct ExIoError(std::io::Error);

/// What can go wrong.
pub enum ElementError {
    Config(String),
    Database(String),
    Io(std::io::Error),
    Icon { path: String, detail: String },
    Provider { provider: String, detail: String },
    Other(String),
}

/// The text of an I/O error (its `Display` form). Nothing is stated of it:
/// it comes from the operating system.
#[verifier::external_body]
fn io_error_text(e: &std::io::Error) -> (s: String) {
    format!("{}", e)
}

impl ElementError {
    /// The error's message, as shown to the user.
    pub fn message(&self) -> (m: String)
        ensures
            match self {
                ElementError::Config(s) => m@ == "Configuration error: "@ + s@,
                ElementError::Database(s) => m@ == "Database error: "@ + s@,
                ElementError::Io(_) => exists|t: Seq<char>| m@ == "I/O error: "@ + t,
                ElementError::Icon { path, detail } => m@ == "Icon extraction failed for "@ + path@ + ": "@
                    + detail@,
                ElementError::Provider { provider, detail } => m@ == "Search provider '"@ + provider@
                    + "' failed: "@ + detail@,
                ElementError::Other(s) => m@ == s@,
            },
    {
        let mut m = String::new();
        match self {
            ElementError::Config(s) => {
                crate::text::push_all(&mut m, "Configuration error: ");
                crate::text::push_all(&mut m, s.as_str());
            },
            ElementError::Database(s) => {
                crate::text::push_all(&mut m, "Database error: ");
                crate::text::push_all(&mut m, s.as_str());
            },
            ElementError::Io(e) => {
                crate::text::push_all(&mut m, "I/O error: ");
                let t = io_error_text(e);
                crate::text::push_all(&mut m, t.as_str());
            },
            ElementError::Icon { path, detail } => {
                crate::text::push_all(&mut m, "Icon extraction failed for ");
                crate::text::push_all(&mut m, path.as_str());
                crate::text::push_all(&mut m, ": ");
                crate::text::push_all(&mut m, detail.as_str());
            },
            ElementError::Provider { provider, detail } => {
                crate::text::push_all(&mut m, "Search provider '");
                crate::text::push_all(&mut m, provider.as_str());
                crate::text::push_all(&mut m, "' failed: ");
                crate::text::push_all(&mut m, detail.as_str());
            },
            ElementError::Other(s) => {
                crate::text::push_all(&mut m, s.as_str());
            },
        }
        m
    }
}

} // verus!
