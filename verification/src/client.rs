use vstd::prelude::*;

use crate::body::{select_kind, Body, BodyKind, FromBody};
use crate::error::{ErrorKind, IoKind};
use crate::header::{lowered, values_of, CONNECTION, LOCATION};
use crate::http1::{
    head_accepted,
    head_fields,
    read_response_header,
    response_head,
    starved,
    HeadParse,
    MAX_HEADERS,
};
use crate::message::{Method, Parts, Request, Response, Version, HEAD};
use crate::pool::Pool;
use crate::source::Source;
use crate::target::{origin_of, resolved_url, Origin, Url, UrlView};
use crate::text::{is_text, same_bytes};
use crate::util::{
    is_persistent_connection,
    is_redirect_method_get,
    is_redirect_status,
    persistent_connection,
    redirect_method_get,
    redirect_status,
};

verus! {

/// The number of exchanges that one fetch may make: the first request and
/// the redirects that it follows.
pub const MAX_REDIRECTS: u8 = 20;

/// The bytes of `http`.
pub const HTTP: [u8; 4] = [104, 116, 116, 112];

/// The bytes of `https`.
pub const HTTPS: [u8; 5] = [104, 116, 116, 112, 115];

/// HTTP specific errors.
///
/// These are the failures that the engine itself detects. Failures of a
/// lower layer keep their own cause and are carried by
/// [`crate::error::Error`].
#[derive(Debug, Clone, Copy, PartialEq, Eq, Structural)]
pub enum Error {
    /// An invalid scheme was encountered in a request URL.
    ///
    /// Currently allowed are only HTTP and HTTPS.
    WrongScheme,
    /// URL contains no domain.
    ///
    /// TLS requires a domain name to verify the certificate.
    /// If the URL contains an IP address it has no domain.
    NoDomain,
    /// The client tried to follow too many redirects and gave up.
    ///
    /// Current limit is 20 redirects maximum.
    TooManyRedirects,
    /// There was some logic error in the response received.
    BadResponse,
}

impl Error {
    /// The text that describes the error, as a specification.
    pub open spec fn description_spec(self) -> Seq<char> {
        match self {
            Error::WrongScheme => "request URL has an unsupported scheme"@,
            Error::NoDomain => "URL contains no domain for TLS connection"@,
            Error::TooManyRedirects => "encountered too many redirects"@,
            Error::BadResponse => "bad response received"@,
        }
    }

    /// The kind of the fault: a wrong scheme and a missing domain are
    /// invalid input of the user of the crate, too many redirects and a
    /// bad response are invalid data of the server.
    pub open spec fn io_kind_spec(self) -> IoKind {
        match self {
            Error::WrongScheme => IoKind::InvalidInput,
            Error::NoDomain => IoKind::InvalidInput,
            Error::TooManyRedirects => IoKind::InvalidData,
            Error::BadResponse => IoKind::InvalidData,
        }
    }

    /// The kind of the fault.
    pub fn io_kind(&self) -> (kind: IoKind)
        ensures
            kind == self.io_kind_spec(),
    {
        match *self {
            Error::WrongScheme => IoKind::InvalidInput,
            Error::NoDomain => IoKind::InvalidInput,
            Error::TooManyRedirects => IoKind::InvalidData,
            Error::BadResponse => IoKind::InvalidData,
        }
    }

    /// A short text that describes the error.
    pub fn description(&self) -> (text: &'static str)
        ensures
            text@ == self.description_spec(),
    {
        match *self {
            Error::WrongScheme => "request URL has an unsupported scheme",
            Error::NoDomain => "URL contains no domain for TLS connection",
            Error::TooManyRedirects => "encountered too many redirects",
            Error::BadResponse => "bad response received",
        }
    }
}

/// The failure of the engine for `fault`.
fn fault(cause: Error) -> (error: crate::error::Error)
    ensures
        error == crate::error::Error::http(cause),
{
    crate::error::Error { inner: ErrorKind::Http(cause) }
}

/// What a request is sent over.
#[derive(Debug)]
pub enum Lease<S, T> {
    /// A plain connection to `origin`: the idle one that was kept for it,
    /// or none, and then one is to be opened.
    Http { origin: Origin, tcp_stream: Option<S> },
    /// A secure connection to `origin`: the idle one that was kept for
    /// it, or none, and then one is to be opened and secured for the
    /// domain name `domain`.
    Https { origin: Origin, domain: Vec<u8>, tls_stream: Option<T> },
}

/// What follows a response.
#[derive(Debug)]
pub enum Redirect<A> {
    /// The response is the answer: the request comes back as it was.
    Return(Request<A>),
    /// The request is to be sent again, to another target.
    Follow(Request<A>, u8),
    /// The request is to be sent again, to another target, as a `GET`
    /// without its body.
    FollowGet(Request<()>, u8),
}

/// A response that was read, and what is left of its connection.
#[derive(Debug)]
pub struct Exchange<B> {
    /// The response.
    pub response: Response<B>,
    /// Whether the connection may be kept for another request.
    pub reusable: bool,
    /// The source, with what the response did not consume.
    pub rest: Source,
}

/// True if the connection of a response may be kept: the response allows
/// it, and the end of its body was not the end of the connection.
pub open spec fn reusable(
    version: Version,
    headers: Seq<(Seq<u8>, Seq<u8>)>,
    kind: BodyKind,
) -> bool {
    persistent_connection(version, values_of(headers, CONNECTION@)) && kind
        != BodyKind::CloseDelimited
}

/// The target that a redirect names: the first Location value, if it is
/// text.
pub open spec fn redirect_location(headers: Seq<(Seq<u8>, Seq<u8>)>) -> Option<Seq<u8>> {
    let values = values_of(headers, LOCATION@);
    if values.len() > 0 && is_text(values[0]) {
        Some(values[0])
    } else {
        None
    }
}

/// What follows a response, as the engine decides it.
pub enum Decision {
    /// The response is the answer.
    Return,
    /// The request goes on to `target`; as a `GET` without a body if
    /// `get` holds.
    Follow { target: UrlView, get: bool },
    /// The fetch fails with a fault of the engine.
    Fail(Error),
    /// The fetch fails because the URL parser rejects the target.
    BadTarget(url::ParseError),
}

/// What follows a response with status `code` and the header fields
/// `headers` to a request with the method named `method` for the URL
/// that `base` writes, which was exchange number `counter`, counted from
/// zero, of one fetch.
pub open spec fn redirect_decision(
    code: u16,
    headers: Seq<(Seq<u8>, Seq<u8>)>,
    method: Seq<u8>,
    base: Seq<u8>,
    counter: u8,
) -> Decision {
    if counter >= MAX_REDIRECTS {
        Decision::Fail(Error::TooManyRedirects)
    } else if !redirect_status(code) {
        Decision::Return
    } else {
        match redirect_location(headers) {
            None => Decision::Fail(Error::BadResponse),
            Some(location) => match resolved_url(Some(base), location) {
                Err(e) => Decision::BadTarget(e),
                Ok(target) => if counter + 1 >= MAX_REDIRECTS {
                    Decision::Fail(Error::TooManyRedirects)
                } else {
                    Decision::Follow { target, get: redirect_method_get(code, method) }
                },
            },
        }
    }
}

/// Decides what follows the response `response` to `request`, which was
/// exchange number `counter`, counted from zero, of one fetch.
///
/// A response that does not redirect is the answer. A redirect needs a
/// Location field, which is read against the URL of the request and
/// takes its place. After 301 and 302 a `POST`, and after 303 every
/// request, goes on as a `GET` without a body; else method and body stay.
/// No fetch makes more than [`MAX_REDIRECTS`] exchanges.
pub fn fetch_redirect<A>(request: Request<A>, response: &Parts, counter: u8) -> (next: Result<
    Redirect<A>,
    crate::error::Error,
>)
    ensures
        match redirect_decision(
            response.status@,
            response.headers@,
            request.method.name(),
            request.url@.text,
            counter,
        ) {
            Decision::Return => next == Ok::<Redirect<A>, crate::error::Error>(
                Redirect::Return(request),
            ),
            Decision::Follow { target, get } => {
                if get {
                    &&& next matches Ok(Redirect::FollowGet(followed, number))
                    &&& number == counter + 1
                    &&& followed.method == Method::Get
                    &&& followed.url@ == target
                    &&& followed.version == request.version
                    &&& followed.headers == request.headers
                } else {
                    &&& next matches Ok(Redirect::Follow(followed, number))
                    &&& number == counter + 1
                    &&& followed.method == request.method
                    &&& followed.url@ == target
                    &&& followed.version == request.version
                    &&& followed.headers == request.headers
                    &&& followed.body == request.body
                }
            },
            Decision::Fail(cause) => next == Err::<Redirect<A>, crate::error::Error>(
                crate::error::Error::http(cause),
            ),
            Decision::BadTarget(e) => next == Err::<Redirect<A>, crate::error::Error>(
                crate::error::Error { inner: ErrorKind::Url(e) },
            ),
        },
{
    if counter >= MAX_REDIRECTS {
        return Err(fault(Error::TooManyRedirects));
    }
    if !is_redirect_status(response.status) {
        return Ok(Redirect::Return(request));
    }
    assert(lowered(LOCATION@) =~= LOCATION@);
    let location: &[u8] = match response.headers.get(LOCATION.as_slice()) {
        Some(value) => match value.to_str() {
            Some(text) => text,
            None => {
                return Err(fault(Error::BadResponse));
            },
        },
        None => {
            return Err(fault(Error::BadResponse));
        },
    };
    let url = match request.url.join(location) {
        Ok(url) => url,
        Err(e) => {
            return Err(e);
        },
    };
    if counter + 1 >= MAX_REDIRECTS {
        return Err(fault(Error::TooManyRedirects));
    }
    if is_redirect_method_get(response.status, &request.method) {
        Ok(
            Redirect::FollowGet(
                Request {
                    method: Method::Get,
                    url,
                    version: request.version,
                    headers: request.headers,
                    body: (),
                },
                counter + 1,
            ),
        )
    } else {
        Ok(
            Redirect::Follow(
                Request {
                    method: request.method,
                    url,
                    version: request.version,
                    headers: request.headers,
                    body: request.body,
                },
                counter + 1,
            ),
        )
    }
}

/// What a server answers to a request: status code and header fields,
/// by the method and the URL of the request.
pub type Server = spec_fn(Seq<u8>, Seq<u8>) -> (u16, Seq<(Seq<u8>, Seq<u8>)>);

/// Where a fetch ends, and after how many exchanges.
pub struct FetchEnd {
    /// The exchanges that were made.
    pub exchanges: nat,
    /// The fault that ended the fetch, or `None` where it ended with a
    /// response or with a target that the URL parser rejects.
    pub fault: Option<Error>,
}

/// A whole fetch against `server`: exchanges follow one another, from
/// exchange number `counter` on, as [`redirect_decision`] says.
pub open spec fn fetch_end(server: Server, method: Seq<u8>, url: Seq<u8>, counter: u8) -> FetchEnd
    decreases MAX_REDIRECTS - counter,
{
    if counter >= MAX_REDIRECTS {
        FetchEnd { exchanges: 0, fault: Some(Error::TooManyRedirects) }
    } else {
        let (code, headers) = server(method, url);
        match redirect_decision(code, headers, method, url, counter) {
            Decision::Follow { target, get } => {
                let next = fetch_end(
                    server,
                    if get {
                        crate::message::GET@
                    } else {
                        method
                    },
                    target.text,
                    (counter + 1) as u8,
                );
                FetchEnd { exchanges: next.exchanges + 1, fault: next.fault }
            },
            Decision::Fail(cause) => FetchEnd { exchanges: 1, fault: Some(cause) },
            _ => FetchEnd { exchanges: 1, fault: None },
        }
    }
}

/// True if `server` answers every request with a redirect whose target
/// can be read.
pub open spec fn always_redirects(server: Server) -> bool {
    forall|method: Seq<u8>, url: Seq<u8>|
        {
            let (code, headers) = #[trigger] server(method, url);
            &&& redirect_status(code)
            &&& redirect_location(headers) matches Some(location)
            &&& resolved_url(Some(url), location) is Ok
        }
}

/// The redirect loop ends. Against a server that always redirects, a
/// fetch fails with too many redirects after exactly [`MAX_REDIRECTS`]
/// exchanges, the first one counted.
pub proof fn law_redirect_limit(server: Server, method: Seq<u8>, url: Seq<u8>)
    requires
        always_redirects(server),
    ensures
        fetch_end(server, method, url, 0) == (FetchEnd {
            exchanges: MAX_REDIRECTS as nat,
            fault: Some(Error::TooManyRedirects),
        }),
{
    lemma_redirect_limit_from(server, method, url, 0);
}

/// From exchange number `counter` on, a fetch against a server that
/// always redirects makes the exchanges that are left to it.
pub proof fn lemma_redirect_limit_from(server: Server, method: Seq<u8>, url: Seq<u8>, counter: u8)
    requires
        always_redirects(server),
        counter < MAX_REDIRECTS,
    ensures
        fetch_end(server, method, url, counter) == (FetchEnd {
            exchanges: (MAX_REDIRECTS - counter) as nat,
            fault: Some(Error::TooManyRedirects),
        }),
    decreases MAX_REDIRECTS - counter,
{
    let (code, headers) = server(method, url);
    if counter + 1 < MAX_REDIRECTS {
        match redirect_decision(code, headers, method, url, counter) {
            Decision::Follow { target, get } => {
                lemma_redirect_limit_from(
                    server,
                    if get {
                        crate::message::GET@
                    } else {
                        method
                    },
                    target.text,
                    (counter + 1) as u8,
                );
            },
            _ => {},
        }
    }
}

/// No fetch makes more than [`MAX_REDIRECTS`] exchanges, whatever the
/// server answers.
pub proof fn law_redirects_bounded(server: Server, method: Seq<u8>, url: Seq<u8>, counter: u8)
    ensures
        fetch_end(server, method, url, counter).exchanges <= MAX_REDIRECTS - counter || counter
            >= MAX_REDIRECTS,
    decreases MAX_REDIRECTS - counter,
{
    if counter < MAX_REDIRECTS {
        let (code, headers) = server(method, url);
        match redirect_decision(code, headers, method, url, counter) {
            Decision::Follow { target, get } => {
                law_redirects_bounded(
                    server,
                    if get {
                        crate::message::GET@
                    } else {
                        method
                    },
                    target.text,
                    (counter + 1) as u8,
                );
            },
            _ => {},
        }
    }
}

/// A connection is never kept after a response in HTTP/1.0, after one
/// that asks to close it, nor after one whose body ran to the end of the
/// connection.
pub proof fn law_connection_kept(version: Version, headers: Seq<(Seq<u8>, Seq<u8>)>, kind: BodyKind)
    ensures
        version != Version::Http11 ==> !reusable(version, headers, kind),
        kind == BodyKind::CloseDelimited ==> !reusable(version, headers, kind),
        (exists|i: int|
            0 <= i < values_of(headers, CONNECTION@).len() && !crate::util::keeps_alive(
                #[trigger] values_of(headers, CONNECTION@)[i],
            )) ==> !reusable(version, headers, kind),
        version == Version::Http11 && kind != BodyKind::CloseDelimited && values_of(
            headers,
            CONNECTION@,
        ).len() == 0 ==> reusable(version, headers, kind),
{
}

/// Reads the response to `request` from `reader`: its head, then its
/// body in the form `B`, framed by the head and by whether the request
/// was a `HEAD`.
///
/// The whole response is read from what is buffered. Where that ends too
/// early and the source is open, the failure is of kind `Interrupted`:
/// feed a source that holds the same bytes and more, and call again.
pub fn fetch_data<A, B: FromBody>(request: &Request<A>, reader: Source) -> (exchange: Result<
    Exchange<B>,
    crate::error::Error,
>)
    ensures
        match response_head(reader.buffered(), MAX_HEADERS) {
            HeadParse::Complete(raw) => {
                if head_accepted(raw) {
                    match select_kind(
                        raw.code->Some_0,
                        head_fields(raw),
                        request.method.name() == HEAD@,
                    ) {
                        Some(kind) => match exchange {
                            Ok(done) => {
                                &&& B::converts(
                                    kind,
                                    reader.buffered().skip(raw.len as int),
                                    reader.closed(),
                                    Ok(done.response.body),
                                    done.rest.buffered(),
                                )
                                &&& Some(done.response.head.status@) == raw.code
                                &&& done.response.head.version == (if raw.version == Some(0u8) {
                                    Version::Http10
                                } else {
                                    Version::Http11
                                })
                                &&& done.response.head.headers@ == head_fields(raw)
                                &&& done.reusable == reusable(
                                    done.response.head.version,
                                    head_fields(raw),
                                    kind,
                                )
                                &&& done.rest.closed() == reader.closed()
                            },
                            Err(e) => exists|rest: Seq<u8>|
                                B::converts(
                                    kind,
                                    reader.buffered().skip(raw.len as int),
                                    reader.closed(),
                                    Err(e),
                                    rest,
                                ),
                        },
                        None => exchange == Err::<Exchange<B>, crate::error::Error>(
                            crate::error::Error::http(Error::BadResponse),
                        ),
                    }
                } else {
                    exchange == Err::<Exchange<B>, crate::error::Error>(
                        crate::error::Error::http(Error::BadResponse),
                    )
                }
            },
            HeadParse::Partial => exchange == Err::<Exchange<B>, crate::error::Error>(
                starved(reader.closed()),
            ),
            HeadParse::Invalid(why) => exchange == Err::<Exchange<B>, crate::error::Error>(
                crate::error::Error { inner: ErrorKind::Httparse(why) },
            ),
        },
{
    let mut reader = reader;
    let parts = match read_response_header(&mut reader) {
        Ok(parts) => parts,
        Err(e) => {
            return Err(e);
        },
    };
    let mut body = match Body::from_response(reader, &parts, request.method.is_head()) {
        Ok(body) => body,
        Err(e) => {
            return Err(e);
        },
    };
    assert(lowered(CONNECTION@) =~= CONNECTION@);
    let connection = parts.headers.get_all(CONNECTION.as_slice());
    let reusable = is_persistent_connection(parts.version, &connection)
        && !body.is_close_delimited();
    let typed_body = match B::from_body(&parts, &mut body) {
        Ok(typed_body) => typed_body,
        Err(e) => {
            return Err(e);
        },
    };
    let response = Response::from_parts(parts, typed_body);
    Ok(Exchange { response, reusable, rest: body.into_reader() })
}

/// A HTTP(S) client.
///
/// The client keeps idle connections, plain ones of type `S` and secure
/// ones of type `T`, and the factory of type `K` that secures them. It
/// decides what an exchange is sent over and what follows a response;
/// the caller moves the bytes.
#[derive(Debug)]
pub struct Client<S, T, K> {
    tcp_streams: Pool<S>,
    tls_streams: Pool<T>,
    tls_connector: Option<K>,
}

impl<S, T, K> Client<S, T, K> {
    /// The idle plain connections, by origin.
    pub closed spec fn tcp_streams(self) -> Map<(Seq<u8>, Seq<u8>, u16), S> {
        self.tcp_streams@
    }

    /// The idle secure connections, by origin.
    pub closed spec fn tls_streams(self) -> Map<(Seq<u8>, Seq<u8>, u16), T> {
        self.tls_streams@
    }

    /// The factory of secure connections, once it was made.
    pub closed spec fn tls_connector(self) -> Option<K> {
        self.tls_connector
    }

    /// True if no origin has two idle connections of one sort.
    pub closed spec fn wf(self) -> bool {
        self.tcp_streams.wf() && self.tls_streams.wf()
    }

    /// Creates a new client.
    ///
    /// Try to use a client for multiple connections as the client may
    /// be able to reuse existing connections.
    pub fn new() -> (client: Client<S, T, K>)
        ensures
            client.wf(),
            client.tcp_streams() == Map::<(Seq<u8>, Seq<u8>, u16), S>::empty(),
            client.tls_streams() == Map::<(Seq<u8>, Seq<u8>, u16), T>::empty(),
            client.tls_connector() is None,
    {
        Client { tcp_streams: Pool::new(), tls_streams: Pool::new(), tls_connector: None }
    }

    /// The factory of secure connections, if it was made already.
    pub fn get_tls_connector(&self) -> (connector: Option<&K>)
        ensures
            match connector {
                Some(k) => self.tls_connector() == Some(*k),
                None => self.tls_connector() is None,
            },
    {
        self.tls_connector.as_ref()
    }

    /// Keeps the factory of secure connections for the life of the
    /// client. One that is kept already stays, and `connector` is dropped.
    pub fn set_tls_connector(&mut self, connector: K)
        ensures
            final(self).tls_connector() == (match old(self).tls_connector() {
                Some(kept) => Some(kept),
                None => Some(connector),
            }),
            final(self).tcp_streams() == old(self).tcp_streams(),
            final(self).tls_streams() == old(self).tls_streams(),
            final(self).wf() == old(self).wf(),
    {
        if self.tls_connector.is_none() {
            self.tls_connector = Some(connector);
        }
    }

    /// Chooses what a request for `url` is sent over, by the scheme of
    /// the URL. Only `http` and `https` are served.
    pub fn fetch_network(&mut self, url: &Url) -> (lease: Result<Lease<S, T>, crate::error::Error>)
        requires
            old(self).wf(),
        ensures
            final(self).wf(),
            final(self).tls_connector() == old(self).tls_connector(),
            url@.scheme == HTTP@ ==> Self::leased_http(*old(self), *final(self), url@, lease),
            url@.scheme == HTTPS@ ==> Self::leased_https(*old(self), *final(self), url@, lease),
            url@.scheme != HTTP@ && url@.scheme != HTTPS@ ==> {
                &&& lease == Err::<Lease<S, T>, crate::error::Error>(
                    crate::error::Error::http(Error::WrongScheme),
                )
                &&& *final(self) == *old(self)
            },
    {
        assert(HTTP@.len() == 4 && HTTPS@.len() == 5);
        if same_bytes(url.scheme(), HTTP.as_slice()) {
            self.fetch_network_http(url)
        } else if same_bytes(url.scheme(), HTTPS.as_slice()) {
            self.fetch_network_https(url)
        } else {
            Err(fault(Error::WrongScheme))
        }
    }

    /// What [`Client::fetch_network_http`] does: the idle connection of
    /// the origin is leased if there is one; a URL without host or port
    /// has no domain.
    pub open spec fn leased_http(
        before: Self,
        after: Self,
        url: UrlView,
        lease: Result<Lease<S, T>, crate::error::Error>,
    ) -> bool {
        &&& after.tls_streams() == before.tls_streams()
        &&& match origin_of(url) {
            Some(origin) => {
                &&& after.tcp_streams() == before.tcp_streams().remove(origin)
                &&& lease matches Ok(Lease::Http { origin: leased, tcp_stream })
                &&& leased@ == origin
                &&& tcp_stream == (if before.tcp_streams().contains_key(origin) {
                    Some(before.tcp_streams()[origin])
                } else {
                    None
                })
            },
            None => {
                &&& after.tcp_streams() == before.tcp_streams()
                &&& lease == Err::<Lease<S, T>, crate::error::Error>(
                    crate::error::Error::http(Error::NoDomain),
                )
            },
        }
    }

    /// Chooses the plain connection for a request for `url`.
    pub fn fetch_network_http(&mut self, url: &Url) -> (lease: Result<
        Lease<S, T>,
        crate::error::Error,
    >)
        requires
            old(self).wf(),
        ensures
            final(self).wf(),
            final(self).tls_connector() == old(self).tls_connector(),
            Self::leased_http(*old(self), *final(self), url@, lease),
    {
        let origin = match url.origin() {
            Some(origin) => origin,
            None => {
                return Err(fault(Error::NoDomain));
            },
        };
        let tcp_stream = self.tcp_streams.remove(&origin);
        Ok(Lease::Http { origin, tcp_stream })
    }

    /// What [`Client::fetch_network_https`] does: the idle connection of
    /// the origin is leased if there is one; else the URL must name a
    /// domain, for which a new connection is to be secured.
    pub open spec fn leased_https(
        before: Self,
        after: Self,
        url: UrlView,
        lease: Result<Lease<S, T>, crate::error::Error>,
    ) -> bool {
        &&& after.tcp_streams() == before.tcp_streams()
        &&& match origin_of(url) {
            Some(origin) => {
                &&& after.tls_streams() == before.tls_streams().remove(origin)
                &&& if before.tls_streams().contains_key(origin) {
                    &&& lease matches Ok(Lease::Https { origin: leased, domain, tls_stream })
                    &&& leased@ == origin
                    &&& tls_stream == Some(before.tls_streams()[origin])
                    &&& domain@ == (match url.domain {
                        Some(name) => name,
                        None => Seq::empty(),
                    })
                } else {
                    match url.domain {
                        Some(name) => {
                            &&& lease matches Ok(
                                Lease::Https { origin: leased, domain, tls_stream },
                            )
                            &&& leased@ == origin
                            &&& tls_stream is None
                            &&& domain@ == name
                        },
                        None => lease == Err::<Lease<S, T>, crate::error::Error>(
                            crate::error::Error::http(Error::NoDomain),
                        ),
                    }
                }
            },
            None => {
                &&& after.tls_streams() == before.tls_streams()
                &&& lease == Err::<Lease<S, T>, crate::error::Error>(
                    crate::error::Error::http(Error::NoDomain),
                )
            },
        }
    }

    /// Chooses the secure connection for a request for `url`.
    pub fn fetch_network_https(&mut self, url: &Url) -> (lease: Result<
        Lease<S, T>,
        crate::error::Error,
    >)
        requires
            old(self).wf(),
        ensures
            final(self).wf(),
            final(self).tls_connector() == old(self).tls_connector(),
            Self::leased_https(*old(self), *final(self), url@, lease),
    {
        let origin = match url.origin() {
            Some(origin) => origin,
            None => {
                return Err(fault(Error::NoDomain));
            },
        };
        let tls_stream = self.tls_streams.remove(&origin);
        let mut domain: Vec<u8> = Vec::new();
        match url.domain() {
            Some(name) => {
                domain.extend_from_slice(name);
                assert(domain@ =~= name@);
            },
            None => {
                if tls_stream.is_none() {
                    return Err(fault(Error::NoDomain));
                }
            },
        }
        Ok(Lease::Https { origin, domain, tls_stream })
    }

    /// Ends the lease of a plain connection: it is kept for `origin` if
    /// it is `reusable`, in place of one that was kept before, and is
    /// dropped if it is not.
    pub fn release_http(&mut self, origin: Origin, stream: S, reusable: bool)
        requires
            old(self).wf(),
        ensures
            final(self).wf(),
            final(self).tls_connector() == old(self).tls_connector(),
            final(self).tls_streams() == old(self).tls_streams(),
            final(self).tcp_streams() == (if reusable {
                old(self).tcp_streams().insert(origin@, stream)
            } else {
                old(self).tcp_streams()
            }),
    {
        if reusable {
            self.tcp_streams.insert(origin, stream);
        }
    }

    /// Ends the lease of a secure connection: it is kept for `origin` if
    /// it is `reusable`, in place of one that was kept before, and is
    /// dropped if it is not.
    pub fn release_https(&mut self, origin: Origin, stream: T, reusable: bool)
        requires
            old(self).wf(),
        ensures
            final(self).wf(),
            final(self).tls_connector() == old(self).tls_connector(),
            final(self).tcp_streams() == old(self).tcp_streams(),
            final(self).tls_streams() == (if reusable {
                old(self).tls_streams().insert(origin@, stream)
            } else {
                old(self).tls_streams()
            }),
    {
        if reusable {
            self.tls_streams.insert(origin, stream);
        }
    }
}

} // verus!
