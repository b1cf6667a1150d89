//! The errors that projection reports.

use vstd::prelude::*;
use vstd::string::StringExecFns;

verus! {

/// What went wrong, in broad terms.
#[derive(Debug, Clone, Copy, PartialEq, Eq, Structural)]
pub enum ErrorKind {
    /// The schema of the file cannot be understood.
    DataInvalid,
    /// The request is legal, and this library does not serve it yet.
    FeatureUnsupported,
}

/// An error, and the one behind it where there is one.
#[derive(Debug)]
pub struct Error {
    pub kind: ErrorKind,
    pub message: String,
    pub source: Option<Box<Error>>,
}

/// The name of an error's kind.
pub open spec fn kind_text(kind: ErrorKind) -> Seq<char> {
    match kind {
        ErrorKind::DataInvalid => "DataInvalid"@,
        ErrorKind::FeatureUnsupported => "FeatureUnsupported"@,
    }
}

/// How an error reads: its kind, its message where it has one, and the error behind it.
pub open spec fn error_text(error: Error) -> Seq<char>
    decreases error,
{
    kind_text(error.kind) + (if error.message@.len() == 0 {
        seq![]
    } else {
        " => "@ + error.message@
    }) + (match error.source {
        Some(source) => ", source: "@ + error_text(*source),
        None => seq![],
    })
}

impl Error {
    pub fn new(kind: ErrorKind, message: String) -> (error: Error)
        ensures
            error.kind == kind,
            error.message@ == message@,
            error.source is None,
    {
        Error { kind, message, source: None }
    }

    /// The same error, with `source` behind it.
    pub fn with_source(self, source: Error) -> (error: Error)
        ensures
            error.kind == self.kind,
            error.message@ == self.message@,
            error.source == Some(Box::new(source)),
    {
        Error { kind: self.kind, message: self.message, source: Some(Box::new(source)) }
    }

    pub fn kind(&self) -> (kind: ErrorKind)
        ensures
            kind == self.kind,
    {
        self.kind
    }

    pub fn message(&self) -> (message: &str)
        ensures
            message@ == self.message@,
    {
        self.message.as_str()
    }

    pub fn to_string(&self) -> (s: String)
        ensures
            s@ == error_text(*self),
        decreases self,
    {
        let mut s = String::new();
        match self.kind {
            ErrorKind::DataInvalid => s.append("DataInvalid"),
            ErrorKind::FeatureUnsupported => s.append("FeatureUnsupported"),
        }
        if !self.message.as_str().is_empty() {
            s.append(" => ");
            s.append(self.message.as_str());
        }
        match &self.source {
            Some(source) => {
                let behind = source.to_string();
                s.append(", source: ");
                s.append(behind.as_str());
            },
            None => {},
        }
        assert(s@ =~= error_text(*self));
        s
    }
}

/// An error reads as its kind and its message, and then as the error behind it, where there is one.
pub proof fn errors_read_as_far_as_they_go(error: Error, source: Error)
    ensures
        error.source is None && error.message@.len() > 0 ==> error_text(error) == kind_text(
            error.kind,
        ) + " => "@ + error.message@,
        error.source is None && error.message@.len() == 0 ==> error_text(error) == kind_text(
            error.kind,
        ),
        error.source is None ==> error_text((Error { source: Some(Box::new(source)), ..error }))
            == error_text(error) + ", source: "@ + error_text(source),
{
    let bare = kind_text(error.kind);
    let backed = Error { source: Some(Box::new(source)), ..error };
    if error.source is None {
        if error.message@.len() > 0 {
            assert(error_text(error) =~= bare + " => "@ + error.message@);
        } else {
            assert(error_text(error) =~= bare);
        }
        assert(error_text(backed) =~= error_text(error) + ", source: "@ + error_text(source));
    }
}

} // verus!
