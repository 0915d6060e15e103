use vstd::prelude::*;

verus! {

/// The kinds of errors an action can end with.
#[derive(PartialEq, Eq, Structural, Clone, Copy, Debug)]
pub enum ErrorKind {
    ValueRequired,
    UnexpectedInputValue,
    UnexpectedInputKey,
    KeysUnallowed,
    UnexpectedEnumValue,
    UniqueViolation,
    ObjectNotFound,
    ObjectIsDeleted,
    InvalidOperation,
    ValidationError,
    Unauthorized,
    InternalError,
}

/// An error with a message and, where it can be tied to fields, one message
/// per field path.
pub struct ActionError {
    pub kind: ErrorKind,
    pub message: String,
    pub errors: Vec<(String, String)>,
}

/// The name under which a kind is reported.
pub open spec fn kind_name(k: ErrorKind) -> Seq<char> {
    match k {
        ErrorKind::ValueRequired => "ValueRequired"@,
        ErrorKind::UnexpectedInputValue => "UnexpectedInputValue"@,
        ErrorKind::UnexpectedInputKey => "UnexpectedInputKey"@,
        ErrorKind::KeysUnallowed => "KeysUnallowed"@,
        ErrorKind::UnexpectedEnumValue => "UnexpectedEnumValue"@,
        ErrorKind::UniqueViolation => "UniqueViolation"@,
        ErrorKind::ObjectNotFound => "ObjectNotFound"@,
        ErrorKind::ObjectIsDeleted => "ObjectIsDeleted"@,
        ErrorKind::InvalidOperation => "InvalidOperation"@,
        ErrorKind::ValidationError => "ValidationError"@,
        ErrorKind::Unauthorized => "Unauthorized"@,
        ErrorKind::InternalError => "InternalError"@,
    }
}

/// The HTTP status of a kind: input faults are 400, a missing identity 401,
/// a missing object 404, everything else 500.
pub open spec fn kind_status(k: ErrorKind) -> u16 {
    match k {
        ErrorKind::ValueRequired | ErrorKind::UnexpectedInputValue | ErrorKind::UnexpectedInputKey
        | ErrorKind::KeysUnallowed | ErrorKind::UnexpectedEnumValue | ErrorKind::UniqueViolation
        | ErrorKind::ValidationError | ErrorKind::InvalidOperation => 400,
        ErrorKind::Unauthorized => 401,
        ErrorKind::ObjectNotFound => 404,
        _ => 500,
    }
}

impl ActionError {
    pub fn kind_label(&self) -> (r: String)
        ensures
            r@ == kind_name(self.kind),
    {
        let s = match self.kind {
            ErrorKind::ValueRequired => "ValueRequired",
            ErrorKind::UnexpectedInputValue => "UnexpectedInputValue",
            ErrorKind::UnexpectedInputKey => "UnexpectedInputKey",
            ErrorKind::KeysUnallowed => "KeysUnallowed",
            ErrorKind::UnexpectedEnumValue => "UnexpectedEnumValue",
            ErrorKind::UniqueViolation => "UniqueViolation",
            ErrorKind::ObjectNotFound => "ObjectNotFound",
            ErrorKind::ObjectIsDeleted => "ObjectIsDeleted",
            ErrorKind::InvalidOperation => "InvalidOperation",
            ErrorKind::ValidationError => "ValidationError",
            ErrorKind::Unauthorized => "Unauthorized",
            ErrorKind::InternalError => "InternalError",
        };
        String::from_str(s)
    }

    pub fn status(&self) -> (r: u16)
        ensures
            r == kind_status(self.kind),
    {
        match self.kind {
            ErrorKind::ValueRequired | ErrorKind::UnexpectedInputValue
            | ErrorKind::UnexpectedInputKey | ErrorKind::KeysUnallowed
            | ErrorKind::UnexpectedEnumValue | ErrorKind::UniqueViolation
            | ErrorKind::ValidationError | ErrorKind::InvalidOperation => 400,
            ErrorKind::Unauthorized => 401,
            ErrorKind::ObjectNotFound => 404,
            _ => 500,
        }
    }

    /// An error that no field can be blamed for.
    pub fn simple(kind: ErrorKind, message: &str) -> (r: ActionError)
        ensures
            r.kind == kind,
            r.message@ == message@,
            r.errors@.len() == 0,
    {
        ActionError { kind, message: String::from_str(message), errors: Vec::new() }
    }
}

pub open spec fn msg_required() -> Seq<char> {
    "Value is required."@
}

pub open spec fn msg_unexpected_type() -> Seq<char> {
    "Unexpected value type."@
}

pub open spec fn msg_enum() -> Seq<char> {
    "Enum value is unexpected."@
}

pub open spec fn msg_invalid() -> Seq<char> {
    "Value is invalid."@
}

pub open spec fn msg_unique() -> Seq<char> {
    "Unique value duplicated."@
}

pub open spec fn msg_input_invalid() -> Seq<char> {
    "Input is not valid."@
}

pub open spec fn msg_keys_unallowed() -> Seq<char> {
    "Unallowed keys detected."@
}

pub open spec fn msg_not_found() -> Seq<char> {
    "Object is not found."@
}

pub open spec fn msg_not_unique_filter() -> Seq<char> {
    "Unique filter is expected."@
}

pub open spec fn msg_deleted() -> Seq<char> {
    "Object is deleted."@
}

} // verus!
