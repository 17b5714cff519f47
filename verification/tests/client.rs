use boguin::client::{fetch_data, fetch_redirect, Exchange, Lease, Redirect, MAX_REDIRECTS};
use boguin::error::{wrap_error, Error, ErrorKind, IoKind};
use boguin::header::{HeaderMap, HeaderName, HeaderValue};
use boguin::http1::write_request_header;
use boguin::message::{Method, Parts, Request, Response, StatusCode, Version};
use boguin::pool::Pool;
use boguin::target::{Origin, Url};
use boguin::{Client, Source};

type TestClient = Client<u32, u64, &'static str>;

fn url(text: &str) -> Url {
    Url::parse(text).unwrap()
}

fn text(url: &Url) -> &str {
    std::str::from_utf8(url.as_bytes()).unwrap()
}

fn parts(code: u16, version: Version, fields: &[(&str, &str)]) -> Parts {
    let mut headers = HeaderMap::new();
    for (name, value) in fields {
        headers.append(
            HeaderName::from_bytes(name.as_bytes()).unwrap(),
            HeaderValue::from_bytes(value.as_bytes()).unwrap(),
        );
    }
    Parts { status: StatusCode::from_u16(code).unwrap(), version, headers }
}

fn fault(cause: boguin::Error) -> Error {
    Error { inner: ErrorKind::Http(cause) }
}

fn origin(url: &Url) -> Origin {
    url.origin().unwrap()
}

#[test]
fn urls_are_parsed() {
    let url = url("HTTPS://User@Example.com:8443/a/../b?q=1#f");
    assert_eq!(text(&url), "https://User@example.com:8443/b?q=1#f");
    assert_eq!(url.scheme(), b"https");
    assert_eq!(url.host(), Some(&b"example.com"[..]));
    assert_eq!(url.domain(), Some(&b"example.com"[..]));
    assert_eq!(url.port(), Some(8443));
    assert_eq!(url.authority(), b"example.com:8443");
    assert_eq!(url.path(), b"/b?q=1");
    let origin = origin(&url);
    assert_eq!(
        (origin.scheme, origin.host, origin.port),
        (b"https".to_vec(), b"example.com".to_vec(), 8443)
    );
}

#[test]
fn urls_have_default_ports() {
    assert_eq!(url("http://example/").port(), Some(80));
    assert_eq!(url("https://example/").port(), Some(443));
    assert_eq!(url("http://example:80/").authority(), b"example");
    assert_eq!(url("http://example").path(), b"/");
}

#[test]
fn an_address_is_a_host_and_no_domain() {
    let url = url("https://127.0.0.1/");
    assert_eq!(url.host(), Some(&b"127.0.0.1"[..]));
    assert_eq!(url.domain(), None);
    let url = self::url("http://[::1]:8080/");
    assert_eq!(url.host(), Some(&b"[::1]"[..]));
    assert_eq!(url.domain(), None);
    assert_eq!(url.authority(), b"[::1]:8080");
}

#[test]
fn a_url_without_host_has_no_origin() {
    let url = url("mailto:someone@example.org");
    assert_eq!(url.scheme(), b"mailto");
    assert_eq!(url.host(), None);
    assert!(url.origin().is_none());
}

#[test]
fn text_that_is_no_url_is_rejected() {
    for input in ["", "/relative", "http://", "http://exa mple/", "http://example:99999/"] {
        let error = Url::parse(input).unwrap_err();
        assert!(matches!(error.kind(), ErrorKind::Url(_)), "{:?}", input);
    }
    assert_eq!(
        Url::parse("//example/").unwrap_err(),
        Error { inner: ErrorKind::Url(url::ParseError::RelativeUrlWithoutBase) }
    );
}

#[test]
fn references_are_resolved() {
    let base = url("http://example/a/b?x=1");
    assert_eq!(text(&base.join(b"/c").unwrap()), "http://example/c");
    assert_eq!(text(&base.join(b"c").unwrap()), "http://example/a/c");
    assert_eq!(text(&base.join(b"../c?y").unwrap()), "http://example/c?y");
    assert_eq!(text(&base.join(b"//other/d").unwrap()), "http://other/d");
    assert_eq!(text(&base.join(b"https://secure/e").unwrap()), "https://secure/e");
    assert_eq!(text(&base.join(b"").unwrap()), "http://example/a/b?x=1");
    assert!(matches!(base.join(b"http://[bad").unwrap_err().kind(), ErrorKind::Url(_)));
}

#[test]
fn a_reference_that_is_no_text_is_invalid_data() {
    let base = url("http://example/a");
    for input in [&[0xff, b'c'][..], "/\u{e4}".as_bytes(), b"/a\nb", &[0x00]] {
        assert_eq!(
            base.join(input).unwrap_err(),
            Error { inner: ErrorKind::Io(IoKind::InvalidData) }
        );
    }
    assert_eq!(text(&base.join(b"/a b\tc").unwrap()), "http://example/a%20bc");
}

#[test]
fn urls_may_hold_any_characters() {
    let url = url("http://ex\u{e4}mple.org/\u{fc}ber?q=\u{df}#\u{e9}");
    assert_eq!(text(&url), "http://xn--exmple-cua.org/%C3%BCber?q=%C3%9F#%C3%A9");
    assert_eq!(url.domain(), Some(&b"xn--exmple-cua.org"[..]));
    assert_eq!(text(&url.join(b"/next").unwrap()), "http://xn--exmple-cua.org/next");
}

#[test]
fn failures_have_kinds() {
    assert_eq!(boguin::Error::WrongScheme.io_kind(), IoKind::InvalidInput);
    assert_eq!(boguin::Error::NoDomain.io_kind(), IoKind::InvalidInput);
    assert_eq!(boguin::Error::TooManyRedirects.io_kind(), IoKind::InvalidData);
    assert_eq!(boguin::Error::BadResponse.io_kind(), IoKind::InvalidData);
    assert_eq!(fault(boguin::Error::NoDomain).io_kind(), IoKind::InvalidInput);
    assert_eq!(fault(boguin::Error::BadResponse).io_kind(), IoKind::InvalidData);
    assert_eq!(Error::from(IoKind::Interrupted).io_kind(), IoKind::Interrupted);
    assert_eq!(Error::from(IoKind::UnexpectedEof).io_kind(), IoKind::UnexpectedEof);
    assert_eq!(Error::from(IoKind::InvalidData).io_kind(), IoKind::InvalidData);
    assert_eq!(Error::from(url::ParseError::EmptyHost).io_kind(), IoKind::Other);
    assert_eq!(Error::from(httparse::Error::Token).io_kind(), IoKind::Other);
    assert_eq!(
        Error::from(httparse::Error::Token).kind(),
        &ErrorKind::Httparse(httparse::Error::Token)
    );
}

#[test]
fn origins_are_compared_by_their_parts() {
    let a = origin(&url("http://example/a"));
    assert!(a.same(&origin(&url("http://EXAMPLE:80/b?c"))));
    assert!(!a.same(&origin(&url("https://example/a"))));
    assert!(!a.same(&origin(&url("http://example:8080/a"))));
    assert!(!a.same(&origin(&url("http://example.org/a"))));
}

#[test]
fn pool_keeps_one_connection_for_each_origin() {
    let mut pool: Pool<&str> = Pool::new();
    let a = origin(&url("http://a/"));
    let b = origin(&url("http://b/"));
    assert_eq!(pool.len(), 0);
    assert_eq!(pool.remove(&a), None);
    pool.insert(a.clone(), "first");
    pool.insert(b.clone(), "other");
    pool.insert(a.clone(), "second");
    assert_eq!(pool.len(), 2);
    assert_eq!(pool.remove(&a), Some("second"));
    assert_eq!(pool.remove(&a), None);
    assert_eq!(pool.len(), 1);
    assert_eq!(pool.remove(&b), Some("other"));
    assert_eq!(pool.len(), 0);
}

#[test]
fn wrong_scheme_is_rejected() {
    let mut client = TestClient::new();
    for target in ["ftp://example/", "ws://example/", "mailto:a@b", "file:///etc/hosts"] {
        let lease = client.fetch_network(&url(target));
        assert_eq!(lease.unwrap_err(), fault(boguin::Error::WrongScheme), "{}", target);
    }
}

#[test]
fn https_needs_a_domain() {
    let mut client = TestClient::new();
    assert_eq!(
        client.fetch_network(&url("https://192.0.2.1/")).unwrap_err(),
        fault(boguin::Error::NoDomain)
    );
    assert_eq!(
        client.fetch_network(&url("https://[2001:db8::1]/")).unwrap_err(),
        fault(boguin::Error::NoDomain)
    );
    match client.fetch_network(&url("https://example.org/")).unwrap() {
        Lease::Https { origin, domain, tls_stream } => {
            assert_eq!(domain, b"example.org");
            assert_eq!(origin.port, 443);
            assert_eq!(tls_stream, None);
        }
        other => panic!("{:?}", other),
    }
}

#[test]
fn http_serves_addresses_too() {
    let mut client = TestClient::new();
    match client.fetch_network(&url("http://192.0.2.1:8080/")).unwrap() {
        Lease::Http { origin, tcp_stream } => {
            assert_eq!(origin.host, b"192.0.2.1");
            assert_eq!(origin.port, 8080);
            assert_eq!(tcp_stream, None);
        }
        other => panic!("{:?}", other),
    }
}

#[test]
fn connections_are_leased_and_kept_by_origin() {
    let mut client = TestClient::new();
    let target = url("http://example/a");
    client.release_http(origin(&target), 1, true);
    client.release_http(origin(&url("http://other/")), 2, true);
    client.release_http(origin(&url("http://dropped/")), 3, false);
    client.release_https(origin(&url("https://example/")), 10, true);
    match client.fetch_network(&url("http://example/b?c")).unwrap() {
        Lease::Http { tcp_stream, .. } => assert_eq!(tcp_stream, Some(1)),
        other => panic!("{:?}", other),
    }
    match client.fetch_network(&url("http://example/b?c")).unwrap() {
        Lease::Http { tcp_stream, .. } => assert_eq!(tcp_stream, None),
        other => panic!("{:?}", other),
    }
    match client.fetch_network(&url("http://dropped/")).unwrap() {
        Lease::Http { tcp_stream, .. } => assert_eq!(tcp_stream, None),
        other => panic!("{:?}", other),
    }
    match client.fetch_network(&url("https://example/")).unwrap() {
        Lease::Https { tls_stream, .. } => assert_eq!(tls_stream, Some(10)),
        other => panic!("{:?}", other),
    }
    client.release_http(origin(&target), 4, true);
    client.release_http(origin(&target), 5, true);
    match client.fetch_network(&target).unwrap() {
        Lease::Http { tcp_stream, .. } => assert_eq!(tcp_stream, Some(5)),
        other => panic!("{:?}", other),
    }
}

#[test]
fn a_kept_secure_connection_needs_no_domain() {
    let mut client = TestClient::new();
    let target = url("https://192.0.2.1/");
    client.release_https(origin(&target), 7, true);
    match client.fetch_network(&target).unwrap() {
        Lease::Https { tls_stream, domain, .. } => {
            assert_eq!(tls_stream, Some(7));
            assert_eq!(domain, b"");
        }
        other => panic!("{:?}", other),
    }
}

#[test]
fn the_secure_factory_is_made_once() {
    let mut client = TestClient::new();
    assert_eq!(client.get_tls_connector(), None);
    client.set_tls_connector("first");
    assert_eq!(client.get_tls_connector(), Some(&"first"));
    client.set_tls_connector("second");
    assert_eq!(client.get_tls_connector(), Some(&"first"));
}

#[test]
fn a_response_that_does_not_redirect_is_returned() {
    let request = Request::new(url("http://example/"), "body");
    let response = parts(200, Version::Http11, &[("Location", "/elsewhere")]);
    match fetch_redirect(request, &response, 0).unwrap() {
        Redirect::Return(request) => {
            assert_eq!(text(&request.url), "http://example/");
            assert_eq!(request.body, "body");
        }
        other => panic!("{:?}", other),
    }
}

#[test]
fn a_redirect_without_location_is_a_bad_response() {
    let request = Request::new(url("http://example/"), ());
    let response = parts(302, Version::Http11, &[]);
    assert_eq!(
        fetch_redirect(request, &response, 0).unwrap_err(),
        fault(boguin::Error::BadResponse)
    );
}

#[test]
fn a_redirect_to_a_location_that_is_no_text_is_a_bad_response() {
    let request = Request::new(url("http://example/"), ());
    let mut response = parts(302, Version::Http11, &[]);
    response.headers.append(
        HeaderName::from_bytes(b"location").unwrap(),
        HeaderValue::from_bytes(&[b'/', 0xe4]).unwrap(),
    );
    assert_eq!(
        fetch_redirect(request, &response, 0).unwrap_err(),
        fault(boguin::Error::BadResponse)
    );
}

#[test]
fn a_redirect_to_a_broken_location_fails_with_its_cause() {
    let request = Request::new(url("http://example/"), ());
    let response = parts(302, Version::Http11, &[("Location", "http://[broken/")]);
    assert_eq!(
        fetch_redirect(request, &response, 0).unwrap_err(),
        Error { inner: ErrorKind::Url(url::ParseError::InvalidIpv6Address) }
    );
}

#[test]
fn redirect_301_leads_to_the_new_location() {
    let request = Request::new(url("http://example/a"), ());
    let response = parts(301, Version::Http11, &[("Location", "/b")]);
    let next = match fetch_redirect(request, &response, 0).unwrap() {
        Redirect::Follow(next, counter) => {
            assert_eq!(counter, 1);
            next
        }
        other => panic!("{:?}", other),
    };
    assert!(matches!(next.method, Method::Get));
    assert_eq!(text(&next.url), "http://example/b");
    let mut wire = Vec::new();
    write_request_header(&mut wire, &next);
    assert_eq!(wire, b"GET /b HTTP/1.1\r\nHost: example\r\n\r\n");
    let exchange: Exchange<String> = fetch_data(
        &next,
        Source::from_bytes(b"HTTP/1.1 200 OK\r\nContent-Length: 5\r\n\r\nfinal"),
    )
    .unwrap();
    assert_eq!(exchange.response.body, "final");
    match fetch_redirect(next, &exchange.response.head, 1).unwrap() {
        Redirect::Return(_) => {}
        other => panic!("{:?}", other),
    }
}

#[test]
fn the_first_location_is_followed() {
    let request = Request::new(url("http://example/a"), ());
    let response =
        parts(307, Version::Http11, &[("Location", "http://one/"), ("Location", "http://two/")]);
    match fetch_redirect(request, &response, 3).unwrap() {
        Redirect::Follow(next, counter) => {
            assert_eq!(text(&next.url), "http://one/");
            assert_eq!(counter, 4);
        }
        other => panic!("{:?}", other),
    }
}

#[test]
fn a_post_goes_on_as_get_without_body() {
    let mut request = Request::new(url("http://example/form"), b"a=1".to_vec());
    request.method = Method::Post;
    request.version = Version::Http10;
    request.headers.append(
        HeaderName::from_bytes(b"Accept").unwrap(),
        HeaderValue::from_bytes(b"*/*").unwrap(),
    );
    let response = parts(302, Version::Http11, &[("Location", "done")]);
    match fetch_redirect(request, &response, 0).unwrap() {
        Redirect::FollowGet(next, counter) => {
            assert!(matches!(next.method, Method::Get));
            assert_eq!(text(&next.url), "http://example/done");
            assert_eq!(next.version, Version::Http10);
            assert_eq!(next.headers.len(), 1);
            assert_eq!(next.headers.value_at(0).as_bytes(), b"*/*");
            assert_eq!(next.body, ());
            assert_eq!(counter, 1);
        }
        other => panic!("{:?}", other),
    }
}

#[test]
fn a_post_stays_a_post_after_307() {
    let mut request = Request::new(url("http://example/form"), b"a=1".to_vec());
    request.method = Method::Post;
    let response = parts(307, Version::Http11, &[("Location", "https://example/form")]);
    match fetch_redirect(request, &response, 0).unwrap() {
        Redirect::Follow(next, _) => {
            assert!(matches!(next.method, Method::Post));
            assert_eq!(text(&next.url), "https://example/form");
            assert_eq!(next.body, b"a=1");
        }
        other => panic!("{:?}", other),
    }
}

#[test]
fn a_put_goes_on_as_get_after_303_only() {
    for (code, get) in [(301, false), (302, false), (303, true), (307, false), (308, false)] {
        let mut request = Request::new(url("http://example/"), 1u8);
        request.method = Method::Put;
        let response = parts(code, Version::Http11, &[("Location", "/x")]);
        match fetch_redirect(request, &response, 0).unwrap() {
            Redirect::FollowGet(..) => assert!(get, "{}", code),
            Redirect::Follow(next, _) => {
                assert!(!get, "{}", code);
                assert!(matches!(next.method, Method::Put));
            }
            other => panic!("{:?}", other),
        }
    }
}

#[test]
fn too_many_redirects_after_twenty_exchanges() {
    assert_eq!(MAX_REDIRECTS, 20);
    let response = parts(302, Version::Http11, &[("Location", "http://example/")]);
    let mut request = Request::new(url("http://example/"), ());
    let mut counter = 0;
    let mut exchanges = 0;
    let error = loop {
        exchanges += 1;
        match fetch_redirect(request, &response, counter) {
            Ok(Redirect::Follow(next, number)) => {
                assert_eq!(number, counter + 1);
                assert_eq!(text(&next.url), "http://example/");
                request = next;
                counter = number;
            }
            Ok(other) => panic!("{:?}", other),
            Err(error) => break error,
        }
    };
    assert_eq!(error, fault(boguin::Error::TooManyRedirects));
    assert_eq!(exchanges, 20);
}

#[test]
fn no_exchange_is_decided_beyond_the_limit() {
    let response = parts(200, Version::Http11, &[]);
    for counter in [20, 21, 255] {
        let request = Request::new(url("http://example/"), ());
        assert_eq!(
            fetch_redirect(request, &response, counter).unwrap_err(),
            fault(boguin::Error::TooManyRedirects)
        );
    }
    let request = Request::new(url("http://example/"), ());
    assert!(matches!(fetch_redirect(request, &response, 19), Ok(Redirect::Return(_))));
    let redirect = parts(302, Version::Http11, &[("Location", "/")]);
    let request = Request::new(url("http://example/"), ());
    assert!(matches!(fetch_redirect(request, &redirect, 18), Ok(Redirect::Follow(_, 19))));
}

#[test]
fn get_with_ok_body_is_kept_in_the_pool() {
    let mut client = TestClient::new();
    let request = Request::new(url("http://example/"), ());
    let (origin, stream) = match client.fetch_network(&request.url).unwrap() {
        Lease::Http { origin, tcp_stream } => (origin, tcp_stream.unwrap_or(42)),
        other => panic!("{:?}", other),
    };
    let mut wire = Vec::new();
    write_request_header(&mut wire, &request);
    assert_eq!(wire, b"GET / HTTP/1.1\r\nHost: example\r\n\r\n");
    let mut source = Source::new();
    source.feed(b"HTTP/1.1 200 OK\r\nContent-Length: 2\r\n\r\nok");
    let exchange: Exchange<String> = fetch_data(&request, source).unwrap();
    assert_eq!(exchange.response.head.status.as_u16(), 200);
    assert_eq!(exchange.response.body, "ok");
    assert!(exchange.reusable);
    assert_eq!(exchange.rest.available(), 0);
    client.release_http(origin, stream, exchange.reusable);
    assert!(matches!(fetch_redirect(request, &exchange.response.head, 0), Ok(Redirect::Return(_))));
    match client.fetch_network(&url("http://example/next")).unwrap() {
        Lease::Http { tcp_stream, .. } => assert_eq!(tcp_stream, Some(42)),
        other => panic!("{:?}", other),
    }
}

#[test]
fn a_connection_is_kept_only_where_the_response_allows_it() {
    let request = Request::new(url("http://example/"), ());
    let reusable = |wire: &[u8]| {
        let exchange: Exchange<Vec<u8>> = fetch_data(&request, Source::from_bytes(wire)).unwrap();
        exchange.reusable
    };
    assert!(reusable(b"HTTP/1.1 200 OK\r\nContent-Length: 2\r\n\r\nok"));
    assert!(reusable(b"HTTP/1.1 200 OK\r\nTransfer-Encoding: chunked\r\n\r\n2\r\nok\r\n0\r\n\r\n"));
    assert!(reusable(b"HTTP/1.1 204 No Content\r\n\r\n"));
    assert!(reusable(b"HTTP/1.1 200 OK\r\nConnection: keep-alive\r\nContent-Length: 0\r\n\r\n"));
    assert!(!reusable(b"HTTP/1.1 200 OK\r\nConnection: close\r\nContent-Length: 2\r\n\r\nok"));
    assert!(!reusable(b"HTTP/1.0 200 OK\r\nContent-Length: 2\r\n\r\nok"));
    assert!(!reusable(b"HTTP/1.1 200 OK\r\n\r\nok"));
    assert!(!reusable(b"HTTP/1.1 200 OK\r\nTransfer-Encoding: gzip\r\n\r\nok"));
}

#[test]
fn a_head_request_reads_no_body() {
    let mut request = Request::new(url("http://example/"), ());
    request.method = Method::Head;
    let exchange: Exchange<()> = fetch_data(
        &request,
        Source::from_bytes(b"HTTP/1.1 200 OK\r\nContent-Length: 2\r\n\r\n"),
    )
    .unwrap();
    assert_eq!(exchange.response.body, ());
    assert!(exchange.reusable);
    request.method = Method::Get;
    let failed: Result<Exchange<()>, Error> = fetch_data(
        &request,
        Source::from_bytes(b"HTTP/1.1 200 OK\r\nContent-Length: 2\r\n\r\nok"),
    );
    assert_eq!(failed.unwrap_err(), fault(boguin::Error::BadResponse));
}

#[test]
fn an_exchange_waits_for_the_whole_response() {
    let request = Request::new(url("http://example/"), ());
    let wire = b"HTTP/1.1 200 OK\r\nTransfer-Encoding: chunked\r\n\r\n4\r\nWiki\r\n0\r\n\r\n";
    let mut source = Source::new();
    for &byte in wire.iter() {
        let early: Result<Exchange<String>, Error> = fetch_data(&request, source.clone());
        assert!(early.unwrap_err().interrupted());
        source.feed(&[byte]);
    }
    let exchange: Exchange<String> = fetch_data(&request, source).unwrap();
    assert_eq!(exchange.response.body, "Wiki");
}

#[test]
fn an_exchange_fails_on_two_lengths() {
    let request = Request::new(url("http://example/"), ());
    let failed: Result<Exchange<Vec<u8>>, Error> = fetch_data(
        &request,
        Source::from_bytes(b"HTTP/1.1 200 OK\r\nContent-Length: 2\r\nContent-Length: 3\r\n\r\nok"),
    );
    assert_eq!(failed.unwrap_err(), fault(boguin::Error::BadResponse));
    let closed: Result<Exchange<Vec<u8>>, Error> =
        fetch_data(&request, Source::from_bytes(b"HTTP/1.1 200 OK\r\nContent-"));
    assert_eq!(closed.unwrap_err(), Error { inner: ErrorKind::Io(IoKind::UnexpectedEof) });
}

#[test]
fn errors_describe_themselves() {
    assert_eq!(boguin::Error::WrongScheme.description(), "request URL has an unsupported scheme");
    assert_eq!(boguin::Error::NoDomain.description(), "URL contains no domain for TLS connection");
    assert_eq!(boguin::Error::TooManyRedirects.description(), "encountered too many redirects");
    assert_eq!(boguin::Error::BadResponse.description(), "bad response received");
}

#[test]
fn faults_of_the_engine_are_told_from_other_failures() {
    let engine = Error::from(boguin::Error::BadResponse);
    assert_eq!(engine.kind(), &ErrorKind::Http(boguin::Error::BadResponse));
    let io = Error::from(IoKind::Interrupted);
    assert_eq!(io.kind(), &ErrorKind::Io(IoKind::Interrupted));
    assert!(io.interrupted());
    assert!(!engine.interrupted());
    assert!(!Error::from(IoKind::UnexpectedEof).interrupted());
    let url = Error::from(url::ParseError::EmptyHost);
    assert_eq!(url.kind(), &ErrorKind::Url(url::ParseError::EmptyHost));
    assert_ne!(engine, io);
}

#[test]
fn lower_failures_are_wrapped_with_their_cause() {
    let ok: Result<u8, url::ParseError> = Ok(7);
    assert_eq!(wrap_error(ok), Ok(7));
    let failed: Result<u8, url::ParseError> = Err(url::ParseError::InvalidPort);
    assert_eq!(
        wrap_error(failed),
        Err(Error { inner: ErrorKind::Url(url::ParseError::InvalidPort) })
    );
    let rejected: Result<u8, httparse::Error> = Err(httparse::Error::NewLine);
    assert_eq!(
        wrap_error(rejected),
        Err(Error { inner: ErrorKind::Httparse(httparse::Error::NewLine) })
    );
    let fault: Result<(), boguin::Error> = Err(boguin::Error::NoDomain);
    assert_eq!(wrap_error(fault), Err(Error { inner: ErrorKind::Http(boguin::Error::NoDomain) }));
}

#[test]
fn responses_are_built_from_parts() {
    let response = Response::from_parts(parts(200, Version::Http11, &[("a", "b")]), 5u8);
    assert_eq!(response.head.status.as_u16(), 200);
    assert_eq!(response.body, 5);
    let request = Request::new(url("http://example/"), 1u8);
    assert!(matches!(request.method, Method::Get));
    assert_eq!(request.version, Version::Http11);
    assert_eq!(request.headers.len(), 0);
}
