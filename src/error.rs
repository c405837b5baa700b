use vstd::prelude::*;

verus! {

/// Why the log store could not write.
#[derive(Clone, Copy, Debug, PartialEq, Eq)]
pub enum StoreError {
    /// No record has this identifier.
    NoSuchLog(i32),
    /// Every identifier that the store can hand out is taken.
    IdsExhausted,
}

#[derive(Debug, PartialEq, Eq)]
pub enum ErrorKind {
    /// An attribute of the type has no default and no value was supplied.
    MissingField { typ: String, field: String },
    /// No log type of this name is registered.
    InvalidLogType(String),
    /// The store could not write.
    Storage(StoreError),
}

/// An error of an operation of the logging API, with the operation's name.
#[derive(Debug, PartialEq, Eq)]
pub struct Error {
    pub method: String,
    pub kind: ErrorKind,
}

/// The fixed text of an error kind's message; a missing log's message goes on
/// with its identifier in decimal.
pub open spec fn message_text(k: ErrorKind) -> Seq<char> {
    match k {
        ErrorKind::MissingField { typ, field } => "Missing field '"@ + field@ + "' in type '"@ + typ@
            + "'"@,
        ErrorKind::InvalidLogType(t) => "Invalid log type: '"@ + t@ + "'"@,
        ErrorKind::Storage(StoreError::NoSuchLog(_)) => "No log with id "@,
        ErrorKind::Storage(StoreError::IdsExhausted) => "The log store is full"@,
    }
}

/// `m` is a message for `k`: its fixed text, followed by the identifier where a
/// log is missing.
pub open spec fn message_matches(k: ErrorKind, m: Seq<char>) -> bool {
    if k is Storage && k->Storage_0 is NoSuchLog {
        m.len() >= message_text(k).len() && m.subrange(0, message_text(k).len() as int)
            == message_text(k)
    } else {
        m == message_text(k)
    }
}

impl ErrorKind {
    /// A description of the error for people.
    pub fn message(&self) -> (r: String)
        ensures
            message_matches(*self, r@),
    {
        match self {
            ErrorKind::MissingField { typ, field } => {
                let mut r = "Missing field '".to_owned();
                r.append(field.as_str());
                r.append("' in type '");
                r.append(typ.as_str());
                r.append("'");
                r
            },
            ErrorKind::InvalidLogType(t) => {
                let mut r = "Invalid log type: '".to_owned();
                r.append(t.as_str());
                r.append("'");
                r
            },
            ErrorKind::Storage(StoreError::NoSuchLog(id)) => {
                let mut r = "No log with id ".to_owned();
                let ghost head = r@;
                let digits = id.to_string();
                r.append(digits.as_str());
                assert(r@.subrange(0, head.len() as int) =~= head);
                r
            },
            ErrorKind::Storage(StoreError::IdsExhausted) => "The log store is full".to_owned(),
        }
    }
}

impl Error {
    /// A description of the error for people, naming the operation.
    pub fn message(&self) -> (r: String)
        ensures
            ({
                let head = "Error in API call `"@ + self.method@ + "`: "@;
                &&& r@.len() >= head.len()
                &&& r@.subrange(0, head.len() as int) == head
                &&& message_matches(self.kind, r@.subrange(head.len() as int, r@.len() as int))
            }),
    {
        let mut r = "Error in API call `".to_owned();
        r.append(self.method.as_str());
        r.append("`: ");
        let ghost head = r@;
        let k = self.kind.message();
        r.append(k.as_str());
        assert(r@.subrange(0, head.len() as int) =~= head);
        assert(r@.subrange(head.len() as int, r@.len() as int) =~= k@);
        r
    }
}

} // verus!
