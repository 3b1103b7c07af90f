use vstd::prelude::*;

verus! {

/// What a request to the relay can fail with. Each variant carries the
/// message that is reported to the caller.
#[derive(Debug)]
pub enum Error {
    /// The caller's input was malformed or not allowed. Not retried.
    BadRequest(String),
    /// The relay itself failed: proving, merging, persistence, submission.
    InternalError(String),
    /// The relay cannot serve the request now: no funds, or still syncing.
    NotAvailable(String),
}

/// The classes into which failures fall.
#[derive(Clone, Copy, Debug, PartialEq, Eq, Structural)]
pub enum ErrorClass {
    /// Reported verbatim; the request must change before it can succeed.
    User,
    /// Reported distinctly, so that the caller can retry later.
    ResourceUnavailable,
    /// Reported; coins that were reserved are released.
    Internal,
}

impl Error {
    /// The message carried by the error.
    pub open spec fn text(&self) -> Seq<char> {
        match self {
            Error::BadRequest(m) => m@,
            Error::InternalError(m) => m@,
            Error::NotAvailable(m) => m@,
        }
    }

    /// The class of the error.
    pub open spec fn spec_class(&self) -> ErrorClass {
        match self {
            Error::BadRequest(_) => ErrorClass::User,
            Error::InternalError(_) => ErrorClass::Internal,
            Error::NotAvailable(_) => ErrorClass::ResourceUnavailable,
        }
    }

    /// The HTTP status under which the error is reported.
    pub open spec fn spec_status(&self) -> u16 {
        match self {
            Error::BadRequest(_) => 400,
            Error::InternalError(_) => 500,
            Error::NotAvailable(_) => 503,
        }
    }

    /// Whether `self` is a user error with exactly the message `m`.
    pub open spec fn is_bad_request(&self, m: Seq<char>) -> bool {
        self matches Error::BadRequest(t) && t@ == m
    }

    /// Whether `self` is an internal error with exactly the message `m`.
    pub open spec fn is_internal(&self, m: Seq<char>) -> bool {
        self matches Error::InternalError(t) && t@ == m
    }

    /// Whether `self` is an unavailability with exactly the message `m`.
    pub open spec fn is_not_available(&self, m: Seq<char>) -> bool {
        self matches Error::NotAvailable(t) && t@ == m
    }

    /// A user error with the message `message`.
    pub fn bad_request(message: &str) -> (e: Error)
        ensures
            e.is_bad_request(message@),
    {
        Error::BadRequest(String::from_str(message))
    }

    /// An internal error with the message `message`.
    pub fn internal(message: &str) -> (e: Error)
        ensures
            e.is_internal(message@),
    {
        Error::InternalError(String::from_str(message))
    }

    /// An unavailability with the message `message`.
    pub fn not_available(message: &str) -> (e: Error)
        ensures
            e.is_not_available(message@),
    {
        Error::NotAvailable(String::from_str(message))
    }

    /// The message carried by the error.
    pub fn message(&self) -> (m: &String)
        ensures
            m@ == self.text(),
    {
        match self {
            Error::BadRequest(m) => m,
            Error::InternalError(m) => m,
            Error::NotAvailable(m) => m,
        }
    }

    /// The class of the error.
    #[verifier::when_used_as_spec(spec_class)]
    pub fn class(&self) -> (c: ErrorClass)
        ensures
            c == self.spec_class(),
    {
        match self {
            Error::BadRequest(_) => ErrorClass::User,
            Error::InternalError(_) => ErrorClass::Internal,
            Error::NotAvailable(_) => ErrorClass::ResourceUnavailable,
        }
    }

    /// The HTTP status under which the error is reported: 400 for a user
    /// error, 500 for an internal one, 503 for an unavailability.
    #[verifier::when_used_as_spec(spec_status)]
    pub fn status(&self) -> (code: u16)
        ensures
            code == self.spec_status(),
    {
        match self {
            Error::BadRequest(_) => 400,
            Error::InternalError(_) => 500,
            Error::NotAvailable(_) => 503,
        }
    }

    /// Whether coins reserved for the failed request have to be released:
    /// so for every error raised after the reservation, which is every
    /// internal one.
    pub fn triggers_rollback(&self) -> (r: bool)
        ensures
            r == (self.spec_class() == ErrorClass::Internal),
    {
        match self {
            Error::InternalError(_) => true,
            _ => false,
        }
    }
}

} // verus!
