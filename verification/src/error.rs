use vstd::prelude::*;
use vstd::std_specs::convert::FromSpecImpl;

// This module has an `Error` of its own: the parser's is named apart.
use httparse::Error as HeaderError;

verus! {

/// The parse failure of `httparse`, carried through unread.
#[verifier::external_type_specification]
#[verifier::external_body]
pub struct ExHeaderError(HeaderError);

/// The parse failure of `url`, carried through unread.
#[verifier::external_type_specification]
#[verifier::external_body]
pub struct ExUrlParseError(url::ParseError);

/// The kind of a failure, as a caller that reads and writes sees it.
#[derive(Debug, Clone, Copy, PartialEq, Eq, Structural)]
pub enum IoKind {
    /// The user of the crate provided invalid info for a request.
    InvalidInput,
    /// The server returned wrong or broken info, or bytes are not what
    /// they were to be read as.
    InvalidData,
    /// The buffered bytes end inside an element and the source is still
    /// open: feed more bytes and call again.
    Interrupted,
    /// The buffered bytes end inside an element and the source is closed.
    UnexpectedEof,
    /// A lower layer failed; the failure holds its cause.
    Other,
}

/// What went wrong, by layer.
#[derive(Debug, PartialEq, Eq)]
pub enum ErrorKind {
    /// The byte source could not go on.
    Io(IoKind),
    /// The engine found a fault in the request or the response.
    Http(crate::client::Error),
    /// The response header was rejected by the header parser.
    Httparse(HeaderError),
    /// A URL or a redirect target was rejected by the URL parser.
    Url(url::ParseError),
}

/// Any failure of the engine, with its cause attached.
///
/// Faults that the engine raises itself are always of kind
/// [`ErrorKind::Http`]; what a lower layer rejected keeps the value that
/// this layer returned.
#[derive(Debug, PartialEq, Eq)]
pub struct Error {
    pub inner: ErrorKind,
}

impl Error {
    /// The layer and cause of the failure.
    pub fn kind(&self) -> (kind: &ErrorKind)
        ensures
            *kind == self.inner,
    {
        &self.inner
    }

    /// The kind of the failure: what the source reported of itself, the
    /// kind of a fault of the engine, and `Other` for what a lower layer
    /// rejected.
    pub open spec fn io_kind_spec(self) -> IoKind {
        match self.inner {
            ErrorKind::Io(kind) => kind,
            ErrorKind::Http(fault) => fault.io_kind_spec(),
            ErrorKind::Httparse(_) => IoKind::Other,
            ErrorKind::Url(_) => IoKind::Other,
        }
    }

    /// The kind of the failure.
    pub fn io_kind(&self) -> (kind: IoKind)
        ensures
            kind == self.io_kind_spec(),
    {
        match &self.inner {
            ErrorKind::Io(kind) => *kind,
            ErrorKind::Http(fault) => fault.io_kind(),
            ErrorKind::Httparse(_) => IoKind::Other,
            ErrorKind::Url(_) => IoKind::Other,
        }
    }

    /// True if more input may mend the failure.
    pub open spec fn is_interrupted(self) -> bool {
        self.inner == ErrorKind::Io(IoKind::Interrupted)
    }

    /// True if more input may mend the failure: feed the source and call
    /// again.
    pub fn interrupted(&self) -> (interrupted: bool)
        ensures
            interrupted == self.is_interrupted(),
    {
        match self.inner {
            ErrorKind::Io(IoKind::Interrupted) => true,
            _ => false,
        }
    }

    /// The failure that the engine raises for `fault`.
    pub open spec fn http(fault: crate::client::Error) -> Error {
        Error { inner: ErrorKind::Http(fault) }
    }

    /// The failure that a starved or mismatched byte source raises.
    pub open spec fn io(kind: IoKind) -> Error {
        Error { inner: ErrorKind::Io(kind) }
    }
}

impl From<IoKind> for Error {
    fn from(err: IoKind) -> (error: Error) {
        Error { inner: ErrorKind::Io(err) }
    }
}

impl FromSpecImpl<IoKind> for Error {
    open spec fn obeys_from_spec() -> bool {
        true
    }

    open spec fn from_spec(err: IoKind) -> Error {
        Error { inner: ErrorKind::Io(err) }
    }
}

impl From<crate::client::Error> for Error {
    fn from(err: crate::client::Error) -> (error: Error) {
        Error { inner: ErrorKind::Http(err) }
    }
}

impl FromSpecImpl<crate::client::Error> for Error {
    open spec fn obeys_from_spec() -> bool {
        true
    }

    open spec fn from_spec(err: crate::client::Error) -> Error {
        Error { inner: ErrorKind::Http(err) }
    }
}

impl From<HeaderError> for Error {
    fn from(err: HeaderError) -> (error: Error) {
        Error { inner: ErrorKind::Httparse(err) }
    }
}

impl FromSpecImpl<HeaderError> for Error {
    open spec fn obeys_from_spec() -> bool {
        true
    }

    open spec fn from_spec(err: HeaderError) -> Error {
        Error { inner: ErrorKind::Httparse(err) }
    }
}

impl From<url::ParseError> for Error {
    fn from(err: url::ParseError) -> (error: Error) {
        Error { inner: ErrorKind::Url(err) }
    }
}

impl FromSpecImpl<url::ParseError> for Error {
    open spec fn obeys_from_spec() -> bool {
        true
    }

    open spec fn from_spec(err: url::ParseError) -> Error {
        Error { inner: ErrorKind::Url(err) }
    }
}

/// Wraps the failure of a lower layer, keeping its cause. Success stays
/// success, and failure stays failure.
pub fn wrap_error<T, E>(result: Result<T, E>) -> (wrapped: Result<T, Error>) where Error: From<E>
    ensures
        result is Ok <==> wrapped is Ok,
        match result {
            Ok(v) => wrapped == Ok::<T, Error>(v),
            Err(e) => <Error as vstd::std_specs::convert::FromSpec<E>>::obeys_from_spec()
                ==> wrapped == Err::<T, Error>(
                <Error as vstd::std_specs::convert::FromSpec<E>>::from_spec(e),
            ),
        },
{
    match result {
        Ok(v) => Ok(v),
        Err(e) => Err(Error::from(e)),
    }
}

} // verus!
