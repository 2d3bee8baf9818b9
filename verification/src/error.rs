//! The error taxonomy shared by all operations: errors are values, never
//! process aborts.
use vstd::prelude::*;
use crate::text::{push_all, str_chars, chars_string};

verus! {

/// Why an operation failed.
#[derive(Clone, Debug)]
pub enum TasukiError {
    /// Malformed or missing configuration.
    Config(String),
    /// A named backend's operation failed.
    Backend { backend: String, message: String },
    /// A filesystem failure, carrying the system's message.
    Io(String),
    /// A malformed identifier or an un-decodable targeted line.
    Parse(String),
    /// A serialization failure at the boundary.
    Json(String),
    /// An external file-watch failure.
    Watch(String),
}

impl TasukiError {
    /// The rendered message, category prefix included.
    pub open spec fn spec_render(self) -> Seq<char> {
        match self {
            TasukiError::Config(s) => "Config error: "@ + s@,
            TasukiError::Backend { backend, message } => "Backend '"@ + backend@ + "' error: "@
                + message@,
            TasukiError::Io(s) => "IO error: "@ + s@,
            TasukiError::Parse(s) => "Parse error: "@ + s@,
            TasukiError::Json(s) => "JSON error: "@ + s@,
            TasukiError::Watch(s) => "Watch error: "@ + s@,
        }
    }

    /// Renders the error as a display string.
    pub fn render(&self) -> (r: String)
        ensures
            r@ == self.spec_render(),
    {
        let mut out: Vec<char> = Vec::new();
        match self {
            TasukiError::Config(s) => {
                let p = str_chars("Config error: ");
                push_all(&mut out, p.as_slice());
                let b = str_chars(s.as_str());
                push_all(&mut out, b.as_slice());
            },
            TasukiError::Backend { backend, message } => {
                let p = str_chars("Backend '");
                push_all(&mut out, p.as_slice());
                let b = str_chars(backend.as_str());
                push_all(&mut out, b.as_slice());
                let q = str_chars("' error: ");
                push_all(&mut out, q.as_slice());
                let m = str_chars(message.as_str());
                push_all(&mut out, m.as_slice());
            },
            TasukiError::Io(s) => {
                let p = str_chars("IO error: ");
                push_all(&mut out, p.as_slice());
                let b = str_chars(s.as_str());
                push_all(&mut out, b.as_slice());
            },
            TasukiError::Parse(s) => {
                let p = str_chars("Parse error: ");
                push_all(&mut out, p.as_slice());
                let b = str_chars(s.as_str());
                push_all(&mut out, b.as_slice());
            },
            TasukiError::Json(s) => {
                let p = str_chars("JSON error: ");
                push_all(&mut out, p.as_slice());
                let b = str_chars(s.as_str());
                push_all(&mut out, b.as_slice());
            },
            TasukiError::Watch(s) => {
                let p = str_chars("Watch error: ");
                push_all(&mut out, p.as_slice());
                let b = str_chars(s.as_str());
                push_all(&mut out, b.as_slice());
            },
        }
        chars_string(out.as_slice())
    }
}

pub type TasukiResult<T> = Result<T, TasukiError>;

} // verus!
