use vstd::prelude::*;
use vstd::string::StringSliceAdditionalSpecFns;
use vstd::utf8::{encode_utf8_valid_utf8, valid_utf8};

use url::{ParseError, Position};

use crate::error::{Error, ErrorKind, IoKind};
use crate::text::{all_text, is_text, lemma_text_is_utf8, same_bytes};

verus! {

/// What a URL is made of, as far as the engine reads it.
pub struct UrlView {
    /// The whole URL, as the parser writes it.
    pub text: Seq<u8>,
    /// The scheme, in lower case, without the colon.
    pub scheme: Seq<u8>,
    /// The host, if the URL has one.
    pub host: Option<Seq<u8>>,
    /// The host again, if it is a domain name and no address.
    pub domain: Option<Seq<u8>>,
    /// The port that the URL names, or the one that its scheme implies.
    pub port: Option<u16>,
    /// Host and port as the URL writes them: what a Host header holds.
    pub authority: Seq<u8>,
    /// Path and query as the URL writes them: what a request line holds.
    pub path: Seq<u8>,
}

/// A parsed URL.
#[derive(Debug)]
pub struct Url {
    text: Vec<u8>,
    scheme: Vec<u8>,
    host: Option<Vec<u8>>,
    domain: Option<Vec<u8>>,
    port: Option<u16>,
    authority: Vec<u8>,
    path: Vec<u8>,
}

/// The bytes of `o`, if there are any.
pub open spec fn slice_view(o: Option<&[u8]>) -> Option<Seq<u8>> {
    match o {
        Some(bytes) => Some(bytes@),
        None => None,
    }
}

/// The bytes of `o`, if there are any.
pub open spec fn bytes_view(o: Option<Vec<u8>>) -> Option<Seq<u8>> {
    match o {
        Some(bytes) => Some(bytes@),
        None => None,
    }
}

impl View for Url {
    type V = UrlView;

    closed spec fn view(&self) -> UrlView {
        UrlView {
            text: self.text@,
            scheme: self.scheme@,
            host: bytes_view(self.host),
            domain: bytes_view(self.domain),
            port: self.port,
            authority: self.authority@,
            path: self.path@,
        }
    }
}

/// What the parser of the `url` crate makes of `input`, read against the
/// URL that `base` writes if there is one: the URL, or the parser's
/// failure.
pub uninterp spec fn resolved_url(base: Option<Seq<u8>>, input: Seq<u8>) -> Result<
    UrlView,
    ParseError,
>;

/// Calls `url::ParseOptions::parse` on `input`, with the base that
/// `url::Url::parse` makes of `base`. Both are valid UTF-8 and are handed
/// over as the text that they encode, unchanged.
///
/// Not proved: that the parser's answer depends on the two texts alone,
/// which is what gives it a name. The fields of the URL are what the
/// getters of `url::Url` return for it, and what it writes between
/// `Position::BeforeHost` and `AfterPort`, and between `BeforePath` and
/// `AfterQuery`; the whole URL is the bytes of a string.
#[verifier::external_body]
fn resolve_url(base: Option<&[u8]>, input: &[u8]) -> (resolved: Result<Url, ParseError>)
    requires
        valid_utf8(input@),
        base matches Some(text) ==> valid_utf8(text@),
    ensures
        resolved_url(slice_view(base), input@) == match resolved {
            Ok(url) => Ok::<UrlView, ParseError>(url@),
            Err(e) => Err::<UrlView, ParseError>(e),
        },
        resolved matches Ok(url) ==> valid_utf8(url@.text),
{
    let base = base.map(|text| url::Url::parse(&String::from_utf8_lossy(text))).transpose()?;
    let url = url::Url::options().base_url(base.as_ref()).parse(&String::from_utf8_lossy(input))?;
    Ok(Url {
        text: url.as_str().as_bytes().to_vec(),
        scheme: url.scheme().as_bytes().to_vec(),
        host: url.host_str().map(|host| host.as_bytes().to_vec()),
        domain: url.domain().map(|domain| domain.as_bytes().to_vec()),
        port: url.port_or_known_default(),
        authority: url[Position::BeforeHost..Position::AfterPort].as_bytes().to_vec(),
        path: url[Position::BeforePath..Position::AfterQuery].as_bytes().to_vec(),
    })
}

/// What identifies a connection endpoint: scheme, host and port.
#[derive(Debug, Clone)]
pub struct Origin {
    pub scheme: Vec<u8>,
    pub host: Vec<u8>,
    pub port: u16,
}

impl View for Origin {
    type V = (Seq<u8>, Seq<u8>, u16);

    open spec fn view(&self) -> (Seq<u8>, Seq<u8>, u16) {
        (self.scheme@, self.host@, self.port)
    }
}

impl Origin {
    /// True if both are the same endpoint.
    pub fn same(&self, other: &Origin) -> (same: bool)
        ensures
            same == (self@ == other@),
    {
        self.port == other.port && same_bytes(self.scheme.as_slice(), other.scheme.as_slice())
            && same_bytes(self.host.as_slice(), other.host.as_slice())
    }
}

/// The origin of a URL: its scheme, host and port, if it has all three.
pub open spec fn origin_of(url: UrlView) -> Option<(Seq<u8>, Seq<u8>, u16)> {
    match (url.host, url.port) {
        (Some(host), Some(port)) => Some((url.scheme, host, port)),
        _ => None,
    }
}

impl Url {
    #[verifier::type_invariant]
    spec fn legal(self) -> bool {
        valid_utf8(self.text@)
    }

    /// Parses an absolute URL.
    pub fn parse(input: &str) -> (url: Result<Url, Error>)
        ensures
            match resolved_url(None, input.spec_bytes()) {
                Ok(view) => url is Ok && url->Ok_0@ == view,
                Err(e) => url == Err::<Url, Error>(Error { inner: ErrorKind::Url(e) }),
            },
    {
        proof {
            encode_utf8_valid_utf8(input@);
        }
        match resolve_url(None, input.as_bytes()) {
            Ok(url) => Ok(url),
            Err(e) => Err(Error::from(e)),
        }
    }

    /// Reads `input` as a reference against this URL: an absolute URL
    /// stands for itself, a relative one is resolved. A reference is
    /// text; bytes that are none are invalid data.
    pub fn join(&self, input: &[u8]) -> (url: Result<Url, Error>)
        ensures
            if is_text(input@) {
                match resolved_url(Some(self@.text), input@) {
                    Ok(view) => url is Ok && url->Ok_0@ == view,
                    Err(e) => url == Err::<Url, Error>(Error { inner: ErrorKind::Url(e) }),
                }
            } else {
                url == Err::<Url, Error>(Error::io(IoKind::InvalidData))
            },
    {
        if !all_text(input) {
            return Err(Error { inner: ErrorKind::Io(IoKind::InvalidData) });
        }
        proof {
            use_type_invariant(self);
            lemma_text_is_utf8(input@);
        }
        match resolve_url(Some(self.text.as_slice()), input) {
            Ok(url) => Ok(url),
            Err(e) => Err(Error::from(e)),
        }
    }

    /// The whole URL.
    pub fn as_bytes(&self) -> (text: &[u8])
        ensures
            text@ == self@.text,
    {
        self.text.as_slice()
    }

    /// The scheme, in lower case.
    pub fn scheme(&self) -> (scheme: &[u8])
        ensures
            scheme@ == self@.scheme,
    {
        self.scheme.as_slice()
    }

    /// The host, if the URL has one.
    pub fn host(&self) -> (host: Option<&[u8]>)
        ensures
            match host {
                Some(bytes) => self@.host == Some(bytes@),
                None => self@.host is None,
            },
    {
        match &self.host {
            Some(bytes) => Some(bytes.as_slice()),
            None => None,
        }
    }

    /// The host, if it is a domain name.
    pub fn domain(&self) -> (domain: Option<&[u8]>)
        ensures
            match domain {
                Some(bytes) => self@.domain == Some(bytes@),
                None => self@.domain is None,
            },
    {
        match &self.domain {
            Some(bytes) => Some(bytes.as_slice()),
            None => None,
        }
    }

    /// The port that the URL names, or the one that its scheme implies.
    pub fn port(&self) -> (port: Option<u16>)
        ensures
            port == self@.port,
    {
        self.port
    }

    /// Host and port as the URL writes them.
    pub fn authority(&self) -> (authority: &[u8])
        ensures
            authority@ == self@.authority,
    {
        self.authority.as_slice()
    }

    /// Path and query as the URL writes them.
    pub fn path(&self) -> (path: &[u8])
        ensures
            path@ == self@.path,
    {
        self.path.as_slice()
    }

    /// The endpoint that the URL names, if it names a host and a port.
    pub fn origin(&self) -> (origin: Option<Origin>)
        ensures
            match origin {
                Some(o) => origin_of(self@) == Some(o@),
                None => origin_of(self@) is None,
            },
    {
        match (&self.host, self.port) {
            (Some(host), Some(port)) => {
                let mut scheme: Vec<u8> = Vec::new();
                scheme.extend_from_slice(self.scheme.as_slice());
                let mut owned: Vec<u8> = Vec::new();
                owned.extend_from_slice(host.as_slice());
                Some(Origin { scheme, host: owned, port })
            },
            _ => None,
        }
    }
}

} // verus!
