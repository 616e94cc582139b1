//! Error types for quality operations: I/O failures, parse failures,
//! invalid configuration and missing files, with a common sum type.

use vstd::prelude::*;

verus! {

/// IO operation failed; holds the message of the underlying error.
#[derive(Debug, Clone)]
pub struct IoError {
    message: String,
}

impl IoError {
    /// Create a new IO error with a message.
    pub fn new(message: String) -> (r: IoError)
        ensures
            r.message_view() == message@,
    {
        IoError { message }
    }

    /// The message of the underlying error.
    pub fn message(&self) -> (r: &str)
        ensures
            r@ == self.message_view(),
    {
        self.message.as_str()
    }

    /// The message, as a view.
    pub closed spec fn message_view(&self) -> Seq<char> {
        self.message@
    }
}

/// Syntax parsing failed; holds the parser's message.
#[derive(Debug, Clone)]
pub struct ParseError {
    message: String,
}

impl ParseError {
    /// Create a new parse error with a message.
    pub fn new(message: String) -> (r: ParseError)
        ensures
            r.message_view() == message@,
    {
        ParseError { message }
    }

    /// The message of the underlying parser error.
    pub fn message(&self) -> (r: &str)
        ensures
            r@ == self.message_view(),
    {
        self.message.as_str()
    }

    /// The message, as a view.
    pub closed spec fn message_view(&self) -> Seq<char> {
        self.message@
    }
}

/// Invalid configuration, such as an unknown analyzer name.
#[derive(Debug, Clone)]
pub struct InvalidConfigError {
    message: String,
}

impl InvalidConfigError {
    /// Create new configuration error with message.
    pub fn new(message: String) -> (r: InvalidConfigError)
        ensures
            r.message_view() == message@,
    {
        InvalidConfigError { message }
    }

    /// The configuration error message.
    pub fn message(&self) -> (r: &str)
        ensures
            r@ == self.message_view(),
    {
        self.message.as_str()
    }

    /// The message, as a view.
    pub closed spec fn message_view(&self) -> Seq<char> {
        self.message@
    }
}

/// File not found.
#[derive(Debug, Clone)]
pub struct FileNotFoundError {
    path: String,
}

impl FileNotFoundError {
    /// Create new file not found error with path.
    pub fn new(path: String) -> (r: FileNotFoundError)
        ensures
            r.path_view() == path@,
    {
        FileNotFoundError { path }
    }

    /// The path that was not found.
    pub fn path(&self) -> (r: &str)
        ensures
            r@ == self.path_view(),
    {
        self.path.as_str()
    }

    /// The path, as a view.
    pub closed spec fn path_view(&self) -> Seq<char> {
        self.path@
    }
}

/// Any error of a quality operation.
#[derive(Debug, Clone)]
pub enum QualityError {
    /// An I/O failure.
    Io(IoError),
    /// A parse failure.
    Parse(ParseError),
    /// A configuration failure.
    Config(InvalidConfigError),
    /// A missing file.
    NotFound(FileNotFoundError),
}

/// The user-facing description of an error.
pub open spec fn spec_describe(e: QualityError) -> Seq<char> {
    match e {
        QualityError::Io(inner) => "IO error: "@ + inner.message_view(),
        QualityError::Parse(inner) => "Parse error: "@ + inner.message_view(),
        QualityError::Config(inner) => "Invalid configuration: "@ + inner.message_view(),
        QualityError::NotFound(inner) => "File not found: "@ + inner.path_view(),
    }
}

impl QualityError {
    /// Renders the error as a user-facing message with its kind as prefix.
    pub fn describe(&self) -> (r: String)
        ensures
            r@ == spec_describe(*self),
    {
        match self {
            QualityError::Io(inner) => {
                let mut r = "IO error: ".to_owned();
                r.append(inner.message());
                r
            },
            QualityError::Parse(inner) => {
                let mut r = "Parse error: ".to_owned();
                r.append(inner.message());
                r
            },
            QualityError::Config(inner) => {
                let mut r = "Invalid configuration: ".to_owned();
                r.append(inner.message());
                r
            },
            QualityError::NotFound(inner) => {
                let mut r = "File not found: ".to_owned();
                r.append(inner.path());
                r
            },
        }
    }
}

} // verus!
