//! The error taxonomy of the application: I/O, configuration, not found,
//! invalid path, parse and operation errors, each with an inspector, and
//! the text each one displays.

use vstd::prelude::*;
use crate::text::concat;

verus! {

#[verifier::external_type_specification]
#[verifier::external_body]
pub struct ExIoError(std::io::Error);

#[verifier::external_type_specification]
#[verifier::external_body]
pub struct ExJsonError(serde_json::Error);

/// An error of an application operation.
#[derive(Debug)]
pub enum CoreError {
    /// An I/O failure, with the system's description.
    Io(String),
    /// An I/O failure at a path.
    IoWithPath { path: String, message: String },
    /// A configuration problem.
    Config(String),
    /// A JSON encoding or decoding failure.
    Json(String),
    /// A YAML encoding or decoding failure.
    Yaml(String),
    /// A missing resource of some type.
    NotFound { resource_type: String, id: String },
    /// A missing file.
    FileNotFound { path: String },
    /// A path that cannot be used.
    InvalidPath { path: String, reason: String },
    /// Malformed content.
    Parse(String),
    /// Any other failure of an operation.
    Operation(String),
}

/// The text an error displays.
pub open spec fn error_text(e: CoreError) -> Seq<char> {
    match e {
        CoreError::Io(m) => "I/O error: "@ + m@,
        CoreError::IoWithPath { path, message } => "I/O error at "@ + path@ + ": "@ + message@,
        CoreError::Config(m) => "Configuration error: "@ + m@,
        CoreError::Json(m) => "JSON error: "@ + m@,
        CoreError::Yaml(m) => "YAML error: "@ + m@,
        CoreError::NotFound { resource_type, id } => resource_type@ + " not found: "@ + id@,
        CoreError::FileNotFound { path } => "File not found: "@ + path@,
        CoreError::InvalidPath { path, reason } => "Invalid path "@ + path@ + ": "@ + reason@,
        CoreError::Parse(m) => "Parse error: "@ + m@,
        CoreError::Operation(m) => m@,
    }
}

/// Relies on `Display` of `std::io::Error`: its description.
#[verifier::external_body]
fn io_error_text(err: &std::io::Error) -> String {
    err.to_string()
}

/// Relies on `Display` of `serde_json::Error`: its description.
#[verifier::external_body]
fn json_error_text(err: &serde_json::Error) -> String {
    err.to_string()
}

impl CoreError {
    /// An I/O error from a system error.
    pub fn io(err: std::io::Error) -> (r: CoreError)
        ensures
            r is Io,
    {
        CoreError::Io(io_error_text(&err))
    }

    /// An I/O error at a path.
    pub fn io_with_path(err: std::io::Error, path: &str) -> (r: CoreError)
        ensures
            r matches CoreError::IoWithPath { path: p, .. } && p@ == path@,
    {
        CoreError::IoWithPath { path: path.to_owned(), message: io_error_text(&err) }
    }

    /// A configuration error.
    pub fn config(msg: &str) -> (r: CoreError)
        ensures
            r matches CoreError::Config(m) && m@ == msg@,
    {
        CoreError::Config(msg.to_owned())
    }

    /// A missing resource of a type.
    pub fn not_found(resource_type: &str, id: &str) -> (r: CoreError)
        ensures
            r matches CoreError::NotFound { resource_type: t, id: i } && t@ == resource_type@ && i@ == id@,
    {
        CoreError::NotFound { resource_type: resource_type.to_owned(), id: id.to_owned() }
    }

    /// A missing file.
    pub fn file_not_found(path: &str) -> (r: CoreError)
        ensures
            r matches CoreError::FileNotFound { path: p } && p@ == path@,
    {
        CoreError::FileNotFound { path: path.to_owned() }
    }

    /// A missing resource described by a message alone.
    pub fn not_found_msg(msg: &str) -> (r: CoreError)
        ensures
            r matches CoreError::NotFound { resource_type: t, id: i } && t@ == "Resource"@ && i@ == msg@,
    {
        CoreError::NotFound { resource_type: "Resource".to_owned(), id: msg.to_owned() }
    }

    /// An unusable path, with the reason.
    pub fn invalid_path(path: &str, reason: &str) -> (r: CoreError)
        ensures
            r matches CoreError::InvalidPath { path: p, reason: q } && p@ == path@ && q@ == reason@,
    {
        CoreError::InvalidPath { path: path.to_owned(), reason: reason.to_owned() }
    }

    /// A parse error.
    pub fn parse(msg: &str) -> (r: CoreError)
        ensures
            r matches CoreError::Parse(m) && m@ == msg@,
    {
        CoreError::Parse(msg.to_owned())
    }

    /// Any other failure.
    pub fn operation(msg: &str) -> (r: CoreError)
        ensures
            r matches CoreError::Operation(m) && m@ == msg@,
    {
        CoreError::Operation(msg.to_owned())
    }

    /// Whether this is an I/O error, with or without a path.
    pub fn is_io(&self) -> (r: bool)
        ensures
            r == (*self is Io || *self is IoWithPath),
    {
        match self {
            CoreError::Io(_) | CoreError::IoWithPath { .. } => true,
            _ => false,
        }
    }

    /// Whether this is a not-found error of either kind.
    pub fn is_not_found(&self) -> (r: bool)
        ensures
            r == (*self is NotFound || *self is FileNotFound),
    {
        match self {
            CoreError::NotFound { .. } | CoreError::FileNotFound { .. } => true,
            _ => false,
        }
    }

    /// Whether this is a configuration error.
    pub fn is_config(&self) -> (r: bool)
        ensures
            r == (*self is Config),
    {
        match self {
            CoreError::Config(_) => true,
            _ => false,
        }
    }

    /// Whether this error concerns a path.
    pub fn is_path_error(&self) -> (r: bool)
        ensures
            r == (*self is InvalidPath || *self is FileNotFound || *self is IoWithPath),
    {
        match self {
            CoreError::InvalidPath { .. } | CoreError::FileNotFound { .. } | CoreError::IoWithPath { .. } => true,
            _ => false,
        }
    }

    /// Whether this is a parse error.
    pub fn is_parse(&self) -> (r: bool)
        ensures
            r == (*self is Parse),
    {
        match self {
            CoreError::Parse(_) => true,
            _ => false,
        }
    }

    /// The text this error displays.
    pub fn message(&self) -> (r: String)
        ensures
            r@ == error_text(*self),
    {
        match self {
            CoreError::Io(m) => concat("I/O error: ", m.as_str()),
            CoreError::IoWithPath { path, message } => {
                let a = concat("I/O error at ", path.as_str());
                let b = concat(a.as_str(), ": ");
                concat(b.as_str(), message.as_str())
            },
            CoreError::Config(m) => concat("Configuration error: ", m.as_str()),
            CoreError::Json(m) => concat("JSON error: ", m.as_str()),
            CoreError::Yaml(m) => concat("YAML error: ", m.as_str()),
            CoreError::NotFound { resource_type, id } => {
                let a = concat(resource_type.as_str(), " not found: ");
                concat(a.as_str(), id.as_str())
            },
            CoreError::FileNotFound { path } => concat("File not found: ", path.as_str()),
            CoreError::InvalidPath { path, reason } => {
                let a = concat("Invalid path ", path.as_str());
                let b = concat(a.as_str(), ": ");
                concat(b.as_str(), reason.as_str())
            },
            CoreError::Parse(m) => concat("Parse error: ", m.as_str()),
            CoreError::Operation(m) => m.clone(),
        }
    }
}

impl From<std::io::Error> for CoreError {
    fn from(err: std::io::Error) -> (r: CoreError)
        ensures
            r is Io,
    {
        CoreError::io(err)
    }
}

impl vstd::std_specs::convert::FromSpecImpl<std::io::Error> for CoreError {
    open spec fn obeys_from_spec() -> bool {
        false
    }

    open spec fn from_spec(v: std::io::Error) -> CoreError {
        arbitrary()
    }
}

impl From<serde_json::Error> for CoreError {
    fn from(err: serde_json::Error) -> (r: CoreError)
        ensures
            r is Json,
    {
        CoreError::Json(json_error_text(&err))
    }
}

impl vstd::std_specs::convert::FromSpecImpl<serde_json::Error> for CoreError {
    open spec fn obeys_from_spec() -> bool {
        false
    }

    open spec fn from_spec(v: serde_json::Error) -> CoreError {
        arbitrary()
    }
}

} // verus!
