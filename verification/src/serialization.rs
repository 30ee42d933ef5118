//! The error type reported by the configuration serializer and deserializer.
//! The serializers themselves live with the code that owns the configuration
//! formats; this is the error surface they share.

use vstd::prelude::*;
use vstd::string::StringExecFns;

verus! {

/// The kind of error raised by the serializer or deserializer.
#[derive(Clone, Copy, PartialEq, Eq, Structural, Debug)]
pub enum SerializerErrorKind {
    /// Operation failed.
    Generic,
    /// I/O failure.
    Io,
    /// The value could not be encoded.
    Serialization,
    /// The input could not be parsed.
    Syntax,
}

/// An error of the serializer or deserializer: a kind, with an optional
/// description message.
pub struct SerializerError {
    pub kind: SerializerErrorKind,
    pub msg: Option<String>,
}

/// The fixed description of each error kind.
pub open spec fn kind_text(kind: SerializerErrorKind) -> Seq<char> {
    match kind {
        SerializerErrorKind::Generic => "Operation failed"@,
        SerializerErrorKind::Io => "IO error"@,
        SerializerErrorKind::Serialization => "Serialization error"@,
        SerializerErrorKind::Syntax => "Syntax error"@,
    }
}

impl SerializerError {
    /// Instantiate a new `SerializerError` without a message.
    pub fn new(kind: SerializerErrorKind) -> (r: SerializerError)
        ensures
            r.kind == kind,
            r.msg is None,
    {
        SerializerError { kind, msg: None }
    }

    /// Instantiate a new `SerializerError` with a description message.
    pub fn new_ex(kind: SerializerErrorKind, msg: String) -> (r: SerializerError)
        ensures
            r.kind == kind,
            r.msg matches Some(m) && m@ == msg@,
    {
        let mut err: SerializerError = SerializerError::new(kind);
        err.msg = Some(msg);
        err
    }

    /// The human-readable rendering: the kind's description, with the
    /// message, when there is one, appended in parentheses.
    pub fn to_message(&self) -> (r: String)
        ensures
            r@ == (match self.msg {
                Some(m) => kind_text(self.kind) + " ("@ + m@ + ")"@,
                None => kind_text(self.kind),
            }),
    {
        let base: String = match self.kind {
            SerializerErrorKind::Generic => String::from_str("Operation failed"),
            SerializerErrorKind::Io => String::from_str("IO error"),
            SerializerErrorKind::Serialization => String::from_str("Serialization error"),
            SerializerErrorKind::Syntax => String::from_str("Syntax error"),
        };
        match &self.msg {
            Some(m) => {
                let mut out = base;
                out.append(" (");
                out.append(m.as_str());
                out.append(")");
                out
            },
            None => base,
        }
    }
}

} // verus!
