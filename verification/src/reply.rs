//! Value families, stored KV values, and the structured replies that the
//! command handlers return. Turning a `Reply` into protocol text is the
//! caller's business; the handlers speak in values.

use vstd::prelude::*;

verus! {

/// A flat KV value: either text or a signed integer.
#[derive(Clone, Debug, PartialEq, Eq)]
pub enum ESValue {
    String(String),
    Int(i64),
}

/// The family a key belongs to. A key lives in at most one store, and the
/// keyspace directory records which one.
#[derive(Clone, Copy, Debug, PartialEq, Eq, Structural)]
pub enum KeyType {
    KV,
    JSON,
    GEO,
}

/// Every error a handler can surface, one variant per reply string.
#[derive(Clone, Copy, Debug, PartialEq, Eq, Structural)]
pub enum ErrorKind {
    /// The key exists under a different family.
    WrongType,
    /// A read of a missing key where the command requires presence.
    KeyNotFound,
    /// JSON parse failure.
    InvalidJson,
    /// Increment of a string that does not parse as an integer.
    NotInteger,
    /// Numeric path operation on a non-numeric value.
    NotNumber,
    /// Float-only operation on a value that is not a float.
    NotFloat,
    /// First member of a distance query is absent.
    Member1NotFound,
    /// Second member of a distance query is absent.
    Member2NotFound,
    /// Malformed glob pattern.
    InvalidPattern,
    /// Authentication failed.
    AuthFailed,
    /// Authentication was demanded but no server key is configured.
    InternalError,
    /// A dotted-path write failed.
    SaveFailed,
    /// A dotted-path write-back failed after an increment.
    ValueNotSet,
    /// Numeric increment on a missing JSON document.
    JsonKeyNotFound,
}

/// A structured command reply, mirroring the protocol's reply shapes.
#[derive(Clone, Debug, PartialEq, Eq)]
pub enum Reply {
    Okay,
    Bulk(String),
    Int(i64),
    Error(ErrorKind),
    Arr(Vec<String>),
    NestedArr(Vec<Vec<String>>),
}

impl ErrorKind {
    /// The exact reply string for this error.
    pub fn message(&self) -> (r: String)
        ensures
            self is WrongType ==> r@ == "WRONGTYPE"@,
            self is KeyNotFound ==> r@ == "KEY_NOT_FOUND"@,
            self is InvalidJson ==> r@ == "ERR invalid json"@,
            self is NotInteger ==> r@ == "ERR string cannot be represented as integer"@,
            self is NotNumber ==> r@ == "ERR value is not a number"@,
            self is NotFloat ==> r@ == "ERR value is not a float"@,
            self is Member1NotFound ==> r@ == "ERR member 1 not found"@,
            self is Member2NotFound ==> r@ == "ERR member 2 not found"@,
            self is InvalidPattern ==> r@ == "ERR invalid pattern"@,
            self is AuthFailed ==> r@ == "ERR auth failed"@,
            self is InternalError ==> r@ == "ERR internal error"@,
            self is SaveFailed ==> r@ == "Error Saving values"@,
            self is ValueNotSet ==> r@ == "ERR value not set"@,
            self is JsonKeyNotFound ==> r@ == "ERR key not found"@,
    {
        match self {
            ErrorKind::WrongType => "WRONGTYPE".to_owned(),
            ErrorKind::KeyNotFound => "KEY_NOT_FOUND".to_owned(),
            ErrorKind::InvalidJson => "ERR invalid json".to_owned(),
            ErrorKind::NotInteger => "ERR string cannot be represented as integer".to_owned(),
            ErrorKind::NotNumber => "ERR value is not a number".to_owned(),
            ErrorKind::NotFloat => "ERR value is not a float".to_owned(),
            ErrorKind::Member1NotFound => "ERR member 1 not found".to_owned(),
            ErrorKind::Member2NotFound => "ERR member 2 not found".to_owned(),
            ErrorKind::InvalidPattern => "ERR invalid pattern".to_owned(),
            ErrorKind::AuthFailed => "ERR auth failed".to_owned(),
            ErrorKind::InternalError => "ERR internal error".to_owned(),
            ErrorKind::SaveFailed => "Error Saving values".to_owned(),
            ErrorKind::ValueNotSet => "ERR value not set".to_owned(),
            ErrorKind::JsonKeyNotFound => "ERR key not found".to_owned(),
        }
    }
}

/// The mathematical shape of a KV value.
#[verifier::ext_equal]
pub enum ESValueV {
    Str(Seq<char>),
    Int(i64),
}

impl View for ESValue {
    type V = ESValueV;

    open spec fn view(&self) -> ESValueV {
        match self {
            ESValue::String(s) => ESValueV::Str(s@),
            ESValue::Int(i) => ESValueV::Int(*i),
        }
    }
}

impl ESValue {
    /// A verified deep copy; `ESValue` cannot usefully derive `Clone`
    /// because nothing would be known of the copy.
    pub fn duplicate(&self) -> (r: ESValue)
        ensures
            r == *self,
    {
        match self {
            ESValue::String(s) => ESValue::String(s.clone()),
            ESValue::Int(i) => ESValue::Int(*i),
        }
    }
}

} // verus!
