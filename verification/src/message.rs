use vstd::prelude::*;

use crate::header::HeaderMap;
use crate::target::Url;
use crate::text::same_bytes;

verus! {

/// The status code of a response: a number from 100 to 599.
#[derive(Debug, Clone, Copy, PartialEq, Eq, Structural)]
pub struct StatusCode {
    code: u16,
}

impl View for StatusCode {
    type V = u16;

    closed spec fn view(&self) -> u16 {
        self.code
    }
}

impl StatusCode {
    #[verifier::type_invariant]
    spec fn in_range(self) -> bool {
        100 <= self.code < 600
    }

    /// The status code with the number `code`, if there is one.
    pub fn from_u16(code: u16) -> (status: Option<StatusCode>)
        ensures
            status is Some <==> 100 <= code < 600,
            status matches Some(s) ==> s@ == code,
    {
        if 100 <= code && code < 600 {
            Some(StatusCode { code })
        } else {
            None
        }
    }

    /// The number of the status code.
    pub fn as_u16(&self) -> (code: u16)
        ensures
            code == self@,
            100 <= code < 600,
    {
        proof {
            use_type_invariant(self);
        }
        self.code
    }

    /// True for an interim response, 100 to 199.
    pub fn is_informational(&self) -> (informational: bool)
        ensures
            informational == (100 <= self@ < 200),
    {
        proof {
            use_type_invariant(self);
        }
        self.code < 200
    }
}

/// The version of the protocol that a message is written in.
#[derive(Debug, Clone, Copy, PartialEq, Eq, Structural)]
pub enum Version {
    /// `HTTP/0.9`
    Http09,
    /// `HTTP/1.0`
    Http10,
    /// `HTTP/1.1`
    Http11,
    /// `HTTP/2.0`
    H2,
}

/// The bytes of `OPTIONS`.
pub const OPTIONS: [u8; 7] = [79, 80, 84, 73, 79, 78, 83];

/// The bytes of `GET`.
pub const GET: [u8; 3] = [71, 69, 84];

/// The bytes of `POST`.
pub const POST: [u8; 4] = [80, 79, 83, 84];

/// The bytes of `PUT`.
pub const PUT: [u8; 3] = [80, 85, 84];

/// The bytes of `DELETE`.
pub const DELETE: [u8; 6] = [68, 69, 76, 69, 84, 69];

/// The bytes of `HEAD`.
pub const HEAD: [u8; 4] = [72, 69, 65, 68];

/// The bytes of `TRACE`.
pub const TRACE: [u8; 5] = [84, 82, 65, 67, 69];

/// The bytes of `CONNECT`.
pub const CONNECT: [u8; 7] = [67, 79, 78, 78, 69, 67, 84];

/// The bytes of `PATCH`.
pub const PATCH: [u8; 5] = [80, 65, 84, 67, 72];

/// True for a byte that may stand in a token: a letter, a digit, or one
/// of ``!#$%&'*+-.^_`|~``.
pub open spec fn is_token_byte(b: u8) -> bool {
    ||| (48 <= b && b <= 57)
    ||| (65 <= b && b <= 90)
    ||| (97 <= b && b <= 122)
    ||| b == 33
    ||| (35 <= b && b <= 39)
    ||| b == 42
    ||| b == 43
    ||| b == 45
    ||| b == 46
    ||| b == 94
    ||| b == 95
    ||| b == 96
    ||| b == 124
    ||| b == 126
}

/// True for a token: one byte or more, token bytes only.
pub open spec fn is_token(s: Seq<u8>) -> bool {
    &&& s.len() > 0
    &&& forall|i: int| 0 <= i < s.len() ==> is_token_byte(#[trigger] s[i])
}

/// True for a byte that may stand in a token.
pub fn token_byte(b: u8) -> (token: bool)
    ensures
        token == is_token_byte(b),
{
    (48 <= b && b <= 57) || (65 <= b && b <= 90) || (97 <= b && b <= 122) || b == 33 || (35 <= b
        && b <= 39) || b == 42 || b == 43 || b == 45 || b == 46 || b == 94 || b == 95 || b == 96
        || b == 124 || b == 126
}

/// True for a token.
pub fn token(s: &[u8]) -> (token: bool)
    ensures
        token == is_token(s@),
{
    if s.len() == 0 {
        return false;
    }
    let mut i: usize = 0;
    while i < s.len()
        invariant
            i <= s@.len(),
            forall|j: int| 0 <= j < i ==> is_token_byte(#[trigger] s@[j]),
        decreases s@.len() - i,
    {
        if !token_byte(s[i]) {
            return false;
        }
        i += 1;
    }
    true
}

/// The name of a method that is none of the standard ones: a token.
#[derive(Debug)]
pub struct Token {
    bytes: Vec<u8>,
}

impl View for Token {
    type V = Seq<u8>;

    closed spec fn view(&self) -> Seq<u8> {
        self.bytes@
    }
}

impl Token {
    #[verifier::type_invariant]
    spec fn legal(self) -> bool {
        is_token(self.bytes@)
    }

    /// The bytes of the token.
    pub fn as_bytes(&self) -> (bytes: &[u8])
        ensures
            bytes@ == self@,
            is_token(bytes@),
    {
        proof {
            use_type_invariant(self);
        }
        self.bytes.as_slice()
    }
}

/// True if `name` names one of the standard methods.
pub open spec fn is_standard(name: Seq<u8>) -> bool {
    name == OPTIONS@ || name == GET@ || name == POST@ || name == PUT@ || name == DELETE@ || name
        == HEAD@ || name == TRACE@ || name == CONNECT@ || name == PATCH@
}

/// The method of a request.
#[derive(Debug)]
pub enum Method {
    Options,
    Get,
    Post,
    Put,
    Delete,
    Head,
    Trace,
    Connect,
    Patch,
    /// Any other method, by its name.
    Extension(Token),
}

impl Method {
    /// The name of the method, as it is written on the wire.
    pub open spec fn name(self) -> Seq<u8> {
        match self {
            Method::Options => OPTIONS@,
            Method::Get => GET@,
            Method::Post => POST@,
            Method::Put => PUT@,
            Method::Delete => DELETE@,
            Method::Head => HEAD@,
            Method::Trace => TRACE@,
            Method::Connect => CONNECT@,
            Method::Patch => PATCH@,
            Method::Extension(name) => name@,
        }
    }

    /// The method that `name` names, if `name` is a token. The names of
    /// the standard methods are matched exactly, in upper case.
    pub fn from_bytes(name: &[u8]) -> (method: Option<Method>)
        ensures
            method is Some <==> is_token(name@),
            method matches Some(m) ==> m.name() == name@,
            method matches Some(m) ==> (m is Extension <==> !is_standard(name@)),
    {
        if !token(name) {
            None
        } else if same_bytes(name, OPTIONS.as_slice()) {
            Some(Method::Options)
        } else if same_bytes(name, GET.as_slice()) {
            Some(Method::Get)
        } else if same_bytes(name, POST.as_slice()) {
            Some(Method::Post)
        } else if same_bytes(name, PUT.as_slice()) {
            Some(Method::Put)
        } else if same_bytes(name, DELETE.as_slice()) {
            Some(Method::Delete)
        } else if same_bytes(name, HEAD.as_slice()) {
            Some(Method::Head)
        } else if same_bytes(name, TRACE.as_slice()) {
            Some(Method::Trace)
        } else if same_bytes(name, CONNECT.as_slice()) {
            Some(Method::Connect)
        } else if same_bytes(name, PATCH.as_slice()) {
            Some(Method::Patch)
        } else {
            let mut bytes: Vec<u8> = Vec::new();
            bytes.extend_from_slice(name);
            Some(Method::Extension(Token { bytes }))
        }
    }

    /// The name of the method, as it is written on the wire.
    pub fn as_bytes(&self) -> (name: &[u8])
        ensures
            name@ == self.name(),
    {
        match self {
            Method::Options => OPTIONS.as_slice(),
            Method::Get => GET.as_slice(),
            Method::Post => POST.as_slice(),
            Method::Put => PUT.as_slice(),
            Method::Delete => DELETE.as_slice(),
            Method::Head => HEAD.as_slice(),
            Method::Trace => TRACE.as_slice(),
            Method::Connect => CONNECT.as_slice(),
            Method::Patch => PATCH.as_slice(),
            Method::Extension(name) => name.as_bytes(),
        }
    }

    /// True for `POST`.
    pub fn is_post(&self) -> (post: bool)
        ensures
            post == (self.name() == POST@),
    {
        same_bytes(self.as_bytes(), POST.as_slice())
    }

    /// True for `HEAD`.
    pub fn is_head(&self) -> (head: bool)
        ensures
            head == (self.name() == HEAD@),
    {
        same_bytes(self.as_bytes(), HEAD.as_slice())
    }
}

/// The head of a response: everything but the body.
#[derive(Debug)]
pub struct Parts {
    /// The status code.
    pub status: StatusCode,
    /// The version of the protocol.
    pub version: Version,
    /// The header fields, in the order in which they arrived.
    pub headers: HeaderMap,
}

/// A request.
#[derive(Debug)]
pub struct Request<T> {
    /// The method.
    pub method: Method,
    /// The target.
    pub url: Url,
    /// The version of the protocol.
    pub version: Version,
    /// The header fields, but for `Host`, which the target supplies.
    pub headers: HeaderMap,
    /// The body.
    pub body: T,
}

impl<T> Request<T> {
    /// A `GET` request for `url` in HTTP/1.1, without header fields.
    pub fn new(url: Url, body: T) -> (request: Request<T>)
        ensures
            request.method == Method::Get,
            request.url == url,
            request.version == Version::Http11,
            request.headers@ == Seq::<(Seq<u8>, Seq<u8>)>::empty(),
            request.body == body,
    {
        let headers = HeaderMap::new();
        Request { method: Method::Get, url, version: Version::Http11, headers, body }
    }
}

/// A response.
#[derive(Debug)]
pub struct Response<T> {
    /// The head of the response.
    pub head: Parts,
    /// The body, in the form that the caller chose.
    pub body: T,
}

impl<T> Response<T> {
    /// The response with the head `head` and the body `body`.
    pub fn from_parts(head: Parts, body: T) -> (response: Response<T>)
        ensures
            response.head == head,
            response.body == body,
    {
        Response { head, body }
    }
}

} // verus!
