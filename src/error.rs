use vstd::prelude::*;

verus! {

/// The errors of the variable store and its helpers.
#[derive(Debug, Clone)]
pub enum Error {
    /// No row at the requested path.
    NotFound(String),
    /// The path is already taken.
    Conflict(String),
    /// An invalid combination of arguments.
    BadRequest(String),
    /// A stored ciphertext could not be read under the derived key.
    DecryptionError(String),
    /// No key material is on record for the workspace.
    KeyNotFound(String),
    /// The token refresher failed.
    RefreshError(String),
    /// The acting user does not own the path.
    NotAuthorized(String),
    /// The operation is reserved to administrators.
    RequireAdmin(String),
}

/// The kind of an [`Error`], without its message.
#[derive(Debug, Clone, Copy, PartialEq, Eq, Structural)]
pub enum ErrorKind {
    NotFound,
    Conflict,
    BadRequest,
    DecryptionError,
    KeyNotFound,
    RefreshError,
    NotAuthorized,
    RequireAdmin,
}

impl Error {
    pub open spec fn kind_spec(&self) -> ErrorKind {
        match self {
            Error::NotFound(_) => ErrorKind::NotFound,
            Error::Conflict(_) => ErrorKind::Conflict,
            Error::BadRequest(_) => ErrorKind::BadRequest,
            Error::DecryptionError(_) => ErrorKind::DecryptionError,
            Error::KeyNotFound(_) => ErrorKind::KeyNotFound,
            Error::RefreshError(_) => ErrorKind::RefreshError,
            Error::NotAuthorized(_) => ErrorKind::NotAuthorized,
            Error::RequireAdmin(_) => ErrorKind::RequireAdmin,
        }
    }

    /// The kind of this error.
    #[verifier::when_used_as_spec(kind_spec)]
    pub fn kind(&self) -> (r: ErrorKind)
        ensures
            r == self.kind_spec(),
    {
        match self {
            Error::NotFound(_) => ErrorKind::NotFound,
            Error::Conflict(_) => ErrorKind::Conflict,
            Error::BadRequest(_) => ErrorKind::BadRequest,
            Error::DecryptionError(_) => ErrorKind::DecryptionError,
            Error::KeyNotFound(_) => ErrorKind::KeyNotFound,
            Error::RefreshError(_) => ErrorKind::RefreshError,
            Error::NotAuthorized(_) => ErrorKind::NotAuthorized,
            Error::RequireAdmin(_) => ErrorKind::RequireAdmin,
        }
    }

    pub open spec fn message_spec(&self) -> Seq<char> {
        match self {
            Error::NotFound(m) => m@,
            Error::Conflict(m) => m@,
            Error::BadRequest(m) => m@,
            Error::DecryptionError(m) => m@,
            Error::KeyNotFound(m) => m@,
            Error::RefreshError(m) => m@,
            Error::NotAuthorized(m) => m@,
            Error::RequireAdmin(m) => m@,
        }
    }

    /// The message carried by this error.
    pub fn message(&self) -> (r: String)
        ensures
            r@ == self.message_spec(),
    {
        match self {
            Error::NotFound(m) => m.clone(),
            Error::Conflict(m) => m.clone(),
            Error::BadRequest(m) => m.clone(),
            Error::DecryptionError(m) => m.clone(),
            Error::KeyNotFound(m) => m.clone(),
            Error::RefreshError(m) => m.clone(),
            Error::NotAuthorized(m) => m.clone(),
            Error::RequireAdmin(m) => m.clone(),
        }
    }
}

/// Whether `r` failed with an error of kind `k`.
pub open spec fn fails_with<T>(r: Result<T, Error>, k: ErrorKind) -> bool {
    r is Err && r->Err_0.kind_spec() == k
}

} // verus!
