use vstd::prelude::*;

use crate::header::{bytes_of, HeaderValue};
use crate::message::{Method, StatusCode, Version, POST};
use crate::text::{
    contains,
    ends_with,
    has_infix,
    has_suffix,
    is_text,
    parse_unsigned,
    unsigned,
    CHUNKED,
    CLOSE,
};

verus! {

/// True for the status codes that redirect: 301, 302, 303, 307 and 308.
pub open spec fn redirect_status(code: u16) -> bool {
    code == 301 || code == 302 || code == 303 || code == 307 || code == 308
}

/// True if a redirect with status `code` turns a request with the method
/// named `method` into a `GET` without a body: 301 and 302 do so for
/// `POST`, 303 for every method.
pub open spec fn redirect_method_get(code: u16, method: Seq<u8>) -> bool {
    ((code == 301 || code == 302) && method == POST@) || code == 303
}

/// True if the last of the Transfer-Encoding values is text that ends
/// with `chunked`.
pub open spec fn chunked(values: Seq<Seq<u8>>) -> bool {
    &&& values.len() > 0
    &&& is_text(values.last())
    &&& has_suffix(values.last(), CHUNKED@)
}

/// True if a Connection value lets the connection live: it is text and
/// does not hold `close`.
pub open spec fn keeps_alive(value: Seq<u8>) -> bool {
    is_text(value) && !has_infix(value, CLOSE@)
}

/// True if the connection may be used again: the message is HTTP/1.1 and
/// every Connection value lets the connection live.
pub open spec fn persistent_connection(version: Version, values: Seq<Seq<u8>>) -> bool {
    &&& version == Version::Http11
    &&& forall|i: int| 0 <= i < values.len() ==> keeps_alive(#[trigger] values[i])
}

/// The length that one Content-Length value declares, if it is text that
/// writes a length.
pub open spec fn declared_length(value: Seq<u8>) -> Option<usize> {
    if is_text(value) {
        unsigned(value)
    } else {
        None
    }
}

/// True if some value declares the length `len` and no value declares
/// another.
pub open spec fn lengths_agree_on(values: Seq<Seq<u8>>, len: usize) -> bool {
    &&& exists|i: int| 0 <= i < values.len() && declared_length(#[trigger] values[i]) == Some(len)
    &&& forall|j: int|
        0 <= j < values.len() ==> (#[trigger] declared_length(values[j])) is Some
            ==> declared_length(values[j]) == Some(len)
}

/// The length that the Content-Length values declare together: the one
/// length that the readable values agree on. Values that declare nothing
/// are passed over.
pub open spec fn content_length(values: Seq<Seq<u8>>) -> Option<usize> {
    if exists|len: usize| lengths_agree_on(values, len) {
        Some(choose|len: usize| lengths_agree_on(values, len))
    } else {
        None
    }
}

/// At most one length is agreed on.
pub proof fn lemma_agreed_length_unique(values: Seq<Seq<u8>>, a: usize, b: usize)
    requires
        lengths_agree_on(values, a),
        lengths_agree_on(values, b),
    ensures
        a == b,
{
    let i = choose|i: int|
        0 <= i < values.len() && declared_length(#[trigger] values[i]) == Some(a);
    assert(declared_length(values[i]) is Some);
}

/// Only the last transfer coding decides whether a body comes in chunks:
/// the values before it change nothing.
pub proof fn law_last_coding_decides(values: Seq<Seq<u8>>)
    requires
        values.len() > 0,
    ensures
        chunked(values) == chunked(seq![values.last()]),
{
    assert(seq![values.last()].last() == values.last());
}

/// A Content-Length value that declares no length is passed over: with
/// it or without it, the values declare the same length.
pub proof fn law_unreadable_length_is_passed_over(values: Seq<Seq<u8>>, at: int)
    requires
        0 <= at < values.len(),
        declared_length(values[at]) is None,
    ensures
        content_length(values.remove(at)) == content_length(values),
{
    let fewer = values.remove(at);
    assert forall|len: usize| lengths_agree_on(fewer, len) == lengths_agree_on(values, len) by {
        if lengths_agree_on(fewer, len) {
            let i = choose|i: int|
                0 <= i < fewer.len() && declared_length(#[trigger] fewer[i]) == Some(len);
            let k = if i < at {
                i
            } else {
                i + 1
            };
            assert(values[k] == fewer[i]);
            assert forall|j: int|
                0 <= j < values.len() && (#[trigger] declared_length(
                    values[j],
                )) is Some implies declared_length(values[j]) == Some(len) by {
                let m = if j < at {
                    j
                } else {
                    j - 1
                };
                assert(fewer[m] == values[j]);
            }
        }
        if lengths_agree_on(values, len) {
            let i = choose|i: int|
                0 <= i < values.len() && declared_length(#[trigger] values[i]) == Some(len);
            let k = if i < at {
                i
            } else {
                i - 1
            };
            assert(fewer[k] == values[i]);
            assert forall|j: int|
                0 <= j < fewer.len() && (#[trigger] declared_length(
                    fewer[j],
                )) is Some implies declared_length(fewer[j]) == Some(len) by {
                let m = if j < at {
                    j
                } else {
                    j + 1
                };
                assert(values[m] == fewer[j]);
            }
        }
    }
}

/// True for the status codes that redirect.
pub fn is_redirect_status(status: StatusCode) -> (redirect: bool)
    ensures
        redirect == redirect_status(status@),
{
    let code: u16 = status.as_u16();
    code == 301 || code == 302 || code == 303 || code == 307 || code == 308
}

/// True if following the redirect turns the request into a `GET` without
/// a body.
pub fn is_redirect_method_get(status: StatusCode, method: &Method) -> (get: bool)
    ensures
        get == redirect_method_get(status@, method.name()),
{
    let code: u16 = status.as_u16();
    ((code == 301 || code == 302) && method.is_post()) || code == 303
}

/// True if the Transfer-Encoding values end in the chunked coding. Only
/// the last value decides.
pub fn is_chunked(values: &Vec<&HeaderValue>) -> (chunked: bool)
    ensures
        chunked == self::chunked(bytes_of(values@)),
{
    if values.len() == 0 {
        return false;
    }
    let last: &HeaderValue = values[values.len() - 1];
    assert(bytes_of(values@).last() == last@);
    match last.to_str() {
        Some(text) => ends_with(text, CHUNKED.as_slice()),
        None => false,
    }
}

/// True if the connection may be used again after the response.
pub fn is_persistent_connection(
    version: Version,
    connection_header: &Vec<&HeaderValue>,
) -> (persistent: bool)
    ensures
        persistent == persistent_connection(version, bytes_of(connection_header@)),
{
    match version {
        Version::Http11 => {},
        _ => {
            return false;
        },
    }
    let mut i: usize = 0;
    while i < connection_header.len()
        invariant
            i <= connection_header@.len(),
            forall|j: int| 0 <= j < i ==> keeps_alive(#[trigger] bytes_of(connection_header@)[j]),
        decreases connection_header@.len() - i,
    {
        let header: &HeaderValue = connection_header[i];
        assert(bytes_of(connection_header@)[i as int] == header@);
        match header.to_str() {
            Some(text) => {
                if contains(text, CLOSE.as_slice()) {
                    return false;
                }
            },
            None => {
                return false;
            },
        }
        i += 1;
    }
    true
}

/// The length that one Content-Length value declares.
pub fn get_declared_length(value: &HeaderValue) -> (len: Option<usize>)
    ensures
        len == declared_length(value@),
{
    match value.to_str() {
        Some(text) => parse_unsigned(text),
        None => None,
    }
}

/// The body length that the Content-Length values declare.
///
/// A value that does not write a length is passed over. `None` is
/// returned if no value writes one, and if two values write different
/// lengths.
pub fn get_content_length(values: &Vec<&HeaderValue>) -> (len: Option<usize>)
    ensures
        len == content_length(bytes_of(values@)),
        len matches Some(n) ==> lengths_agree_on(bytes_of(values@), n),
        len is None ==> forall|n: usize| !lengths_agree_on(bytes_of(values@), n),
{
    let ghost all = bytes_of(values@);
    let mut result: Option<usize> = None;
    let mut i: usize = 0;
    while i < values.len()
        invariant
            i <= values@.len(),
            all == bytes_of(values@),
            result is None ==> forall|j: int|
                0 <= j < i ==> declared_length(#[trigger] all[j]) is None,
            result matches Some(n) ==> {
                &&& exists|j: int| 0 <= j < i && declared_length(#[trigger] all[j]) == Some(n)
                &&& forall|j: int|
                    0 <= j < i ==> (#[trigger] declared_length(all[j])) is Some ==> declared_length(
                        all[j],
                    ) == Some(n)
            },
        decreases values@.len() - i,
    {
        let value: &HeaderValue = values[i];
        assert(all[i as int] == value@);
        match get_declared_length(value) {
            Some(len) => {
                match result {
                    Some(before) => {
                        if before != len {
                            proof {
                                let first = choose|j: int|
                                    0 <= j < i && declared_length(#[trigger] all[j]) == Some(before);
                                assert forall|n: usize| !lengths_agree_on(all, n) by {
                                    if lengths_agree_on(all, n) {
                                        assert(declared_length(all[first]) is Some);
                                        assert(declared_length(all[i as int]) is Some);
                                    }
                                }
                            }
                            return None;
                        }
                    },
                    None => {},
                }
                result = Some(len);
            },
            None => {},
        }
        i += 1;
    }
    proof {
        match result {
            Some(n) => {
                assert(lengths_agree_on(all, n));
                let chosen = choose|len: usize| lengths_agree_on(all, len);
                lemma_agreed_length_unique(all, n, chosen);
            },
            None => {
                assert forall|n: usize| !lengths_agree_on(all, n) by {
                    if lengths_agree_on(all, n) {
                        let j = choose|j: int|
                            0 <= j < all.len() && declared_length(#[trigger] all[j]) == Some(n);
                        assert(declared_length(all[j]) is None);
                    }
                }
            },
        }
    }
    result
}

} // verus!
