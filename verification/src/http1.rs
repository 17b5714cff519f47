use vstd::prelude::*;

use crate::client::Error as Fault;
use crate::error::{Error, ErrorKind, IoKind};
use crate::header::{is_value, lowered, HeaderMap, HeaderName, HeaderValue};
use crate::message::{is_token, Parts, Request, StatusCode, Version};
use crate::source::{delivered, min_len, read_of, Source};
use crate::text::{COLON_SP, CR, CRLF, LF, SP};

verus! {

/// The bytes of `Host`.
pub const HOST: [u8; 4] = [72, 111, 115, 116];

/// The bytes of `HTTP/1.0`.
pub const HTTP_10: [u8; 8] = [72, 84, 84, 80, 47, 49, 46, 48];

/// The bytes of `HTTP/1.1`.
pub const HTTP_11: [u8; 8] = [72, 84, 84, 80, 47, 49, 46, 49];

/// How a version is written in a request line. Only HTTP/1.0 and
/// HTTP/1.1 can be written.
pub open spec fn version_text(version: Version) -> Seq<u8> {
    match version {
        Version::Http10 => HTTP_10@,
        _ => HTTP_11@,
    }
}

/// The lines that the header fields `entries` are written as, one
/// `name: value` line each, in order.
pub open spec fn header_lines(entries: Seq<(Seq<u8>, Seq<u8>)>) -> Seq<u8>
    decreases entries.len(),
{
    if entries.len() == 0 {
        Seq::empty()
    } else {
        header_lines(entries.drop_last()) + entries.last().0 + COLON_SP@ + entries.last().1 + CRLF@
    }
}

/// The head of a request as it is sent: the request line, the `Host`
/// field that the target supplies, the header fields of the request in
/// their order, and an empty line.
pub open spec fn request_head(
    method: Seq<u8>,
    path: Seq<u8>,
    version: Version,
    authority: Seq<u8>,
    headers: Seq<(Seq<u8>, Seq<u8>)>,
) -> Seq<u8> {
    method + seq![SP] + path + seq![SP] + version_text(version) + CRLF@ + HOST@ + COLON_SP@
        + authority + CRLF@ + header_lines(headers) + CRLF@
}

/// Writes the head of `req` to `writer`. The body is not written.
///
/// A request can be written in HTTP/1.0 and in HTTP/1.1 only.
pub fn write_request_header<T>(writer: &mut Vec<u8>, req: &Request<T>)
    requires
        req.version == Version::Http10 || req.version == Version::Http11,
    ensures
        final(writer)@ == old(writer)@ + request_head(
            req.method.name(),
            req.url@.path,
            req.version,
            req.url@.authority,
            req.headers@,
        ),
{
    let ghost before = writer@;
    writer.extend_from_slice(req.method.as_bytes());
    writer.push(SP);
    writer.extend_from_slice(req.url.path());
    writer.push(SP);
    match req.version {
        Version::Http10 => writer.extend_from_slice(HTTP_10.as_slice()),
        _ => writer.extend_from_slice(HTTP_11.as_slice()),
    }
    writer.extend_from_slice(CRLF.as_slice());
    writer.extend_from_slice(HOST.as_slice());
    writer.extend_from_slice(COLON_SP.as_slice());
    writer.extend_from_slice(req.url.authority());
    writer.extend_from_slice(CRLF.as_slice());
    let ghost start = writer@;
    assert(start =~= before + req.method.name() + seq![SP] + req.url@.path + seq![SP]
        + version_text(req.version) + CRLF@ + HOST@ + COLON_SP@ + req.url@.authority + CRLF@);
    let mut i: usize = 0;
    assert(req.headers@.take(0) =~= Seq::<(Seq<u8>, Seq<u8>)>::empty());
    while i < req.headers.len()
        invariant
            i <= req.headers@.len(),
            writer@ == start + header_lines(req.headers@.take(i as int)),
        decreases req.headers@.len() - i,
    {
        let ghost lines = writer@;
        writer.extend_from_slice(req.headers.name_at(i).as_bytes());
        writer.extend_from_slice(COLON_SP.as_slice());
        writer.extend_from_slice(req.headers.value_at(i).as_bytes());
        writer.extend_from_slice(CRLF.as_slice());
        proof {
            let entries = req.headers@.take(i + 1);
            assert(entries.drop_last() =~= req.headers@.take(i as int));
            assert(entries.last() == req.headers@[i as int]);
            assert(writer@ =~= start + header_lines(entries));
        }
        i += 1;
    }
    assert(req.headers@.take(i as int) =~= req.headers@);
    writer.extend_from_slice(CRLF.as_slice());
    assert(writer@ =~= before + request_head(
        req.method.name(),
        req.url@.path,
        req.version,
        req.url@.authority,
        req.headers@,
    ));
}

/// The head of a response as the parser hands it out.
#[derive(Debug)]
pub struct RawHead {
    /// The number of bytes that the head takes, empty line included.
    pub len: usize,
    /// The minor version: `0` for HTTP/1.0, `1` for HTTP/1.1.
    pub version: Option<u8>,
    /// The status code.
    pub code: Option<u16>,
    /// Names and values of the header fields, in order.
    pub headers: Vec<(Vec<u8>, Vec<u8>)>,
}

/// What the start of a response parses to.
#[derive(Debug)]
pub enum HeadParse {
    /// A whole head.
    Complete(RawHead),
    /// The bytes end before the head does.
    Partial,
    /// The bytes are no response head; the parser's failure says why.
    Invalid(httparse::Error),
}

/// The number of header fields that a response may have.
pub const MAX_HEADERS: usize = 64;

/// What `httparse::Response::parse` makes of `buf`, with room for `room`
/// header fields.
pub uninterp spec fn response_head(buf: Seq<u8>, room: usize) -> HeadParse;

/// Calls `httparse::Response::parse` on a fresh response with room for
/// `room` header fields.
///
/// Not proved: that the parser's answer depends on the bytes and the
/// room alone, which is what gives it a name, and that a complete head
/// ends inside `buf`.
#[verifier::external_body]
fn parse_response_head(buf: &[u8], room: usize) -> (parsed: HeadParse)
    requires
        room <= MAX_HEADERS,
    ensures
        parsed == response_head(buf@, room),
        parsed matches HeadParse::Complete(raw) ==> raw.len <= buf@.len(),
{
    let mut headers = vec![httparse::EMPTY_HEADER; room];
    let mut response = httparse::Response::new(&mut headers);
    match response.parse(buf) {
        Ok(httparse::Status::Complete(len)) => HeadParse::Complete(RawHead {
            len,
            version: response.version,
            code: response.code,
            headers: response.headers.iter().map(
                |h| (h.name.as_bytes().to_vec(), h.value.to_vec()),
            ).collect(),
        }),
        Ok(httparse::Status::Partial) => HeadParse::Partial,
        Err(e) => HeadParse::Invalid(e),
    }
}

/// True if a parsed head is one that the engine accepts: a status code
/// from 100 to 599, HTTP/1.0 or HTTP/1.1, and header fields whose names
/// are tokens and whose values hold no control characters.
pub open spec fn head_accepted(raw: RawHead) -> bool {
    &&& raw.code matches Some(code) && 100 <= code < 600
    &&& raw.version matches Some(minor) && minor <= 1
    &&& forall|i: int|
        0 <= i < raw.headers@.len() ==> is_token((#[trigger] raw.headers@[i]).0@) && is_value(
            raw.headers@[i].1@,
        )
}

/// The header fields of a parsed head: each name in lower case, each
/// value as it came.
pub open spec fn head_fields(raw: RawHead) -> Seq<(Seq<u8>, Seq<u8>)> {
    Seq::new(raw.headers@.len(), |i: int| (lowered(raw.headers@[i].0@), raw.headers@[i].1@))
}

/// Decodes a parsed head: status code, version and header fields. Fields
/// that repeat are kept, in order.
///
/// A head that the engine does not accept is a bad response.
pub fn decode_head(raw: &RawHead) -> (parts: Result<Parts, Error>)
    ensures
        match parts {
            Ok(p) => {
                &&& head_accepted(*raw)
                &&& Some(p.status@) == raw.code
                &&& p.version == (if raw.version == Some(0u8) {
                    Version::Http10
                } else {
                    Version::Http11
                })
                &&& p.headers@ == head_fields(*raw)
            },
            Err(e) => !head_accepted(*raw) && e == Error::http(Fault::BadResponse),
        },
{
    let status = match raw.code {
        Some(code) => match StatusCode::from_u16(code) {
            Some(status) => status,
            None => {
                return Err(Error { inner: ErrorKind::Http(Fault::BadResponse) });
            },
        },
        None => {
            return Err(Error { inner: ErrorKind::Http(Fault::BadResponse) });
        },
    };
    let version = match raw.version {
        Some(0) => Version::Http10,
        Some(1) => Version::Http11,
        _ => {
            return Err(Error { inner: ErrorKind::Http(Fault::BadResponse) });
        },
    };
    let mut headers = HeaderMap::new();
    let mut i: usize = 0;
    while i < raw.headers.len()
        invariant
            i <= raw.headers@.len(),
            headers@ == head_fields(*raw).take(i as int),
            forall|j: int|
                0 <= j < i ==> is_token((#[trigger] raw.headers@[j]).0@) && is_value(
                    raw.headers@[j].1@,
                ),
        decreases raw.headers@.len() - i,
    {
        let name = match HeaderName::from_bytes(raw.headers[i].0.as_slice()) {
            Some(name) => name,
            None => {
                return Err(Error { inner: ErrorKind::Http(Fault::BadResponse) });
            },
        };
        let value = match HeaderValue::from_bytes(raw.headers[i].1.as_slice()) {
            Some(value) => value,
            None => {
                return Err(Error { inner: ErrorKind::Http(Fault::BadResponse) });
            },
        };
        headers.append(name, value);
        assert(headers@ =~= head_fields(*raw).take(i + 1));
        i += 1;
    }
    assert(head_fields(*raw).take(i as int) =~= head_fields(*raw));
    Ok(Parts { status, version, headers })
}

/// Reads the head of a response from `reader`.
///
/// On success exactly the bytes of the head are consumed, so that the
/// body is what stays buffered. A failure consumes nothing. A head that
/// is not yet whole is a failure of kind `Interrupted` while the source
/// is open: feed the source and call again. A head with more than
/// [`MAX_HEADERS`] fields is rejected by the parser.
pub fn read_response_header(reader: &mut Source) -> (parts: Result<Parts, Error>)
    ensures
        final(reader).closed() == old(reader).closed(),
        match response_head(old(reader).buffered(), MAX_HEADERS) {
            HeadParse::Complete(raw) => {
                if head_accepted(raw) {
                    &&& parts is Ok
                    &&& Some(parts->Ok_0.status@) == raw.code
                    &&& parts->Ok_0.version == (if raw.version == Some(0u8) {
                        Version::Http10
                    } else {
                        Version::Http11
                    })
                    &&& parts->Ok_0.headers@ == head_fields(raw)
                    &&& raw.len <= old(reader).buffered().len()
                    &&& final(reader).buffered() == old(reader).buffered().skip(raw.len as int)
                } else {
                    &&& parts == Err::<Parts, Error>(Error::http(Fault::BadResponse))
                    &&& final(reader).buffered() == old(reader).buffered()
                }
            },
            HeadParse::Partial => {
                &&& parts == Err::<Parts, Error>(starved(old(reader).closed()))
                &&& final(reader).buffered() == old(reader).buffered()
            },
            HeadParse::Invalid(why) => {
                &&& parts == Err::<Parts, Error>(Error { inner: ErrorKind::Httparse(why) })
                &&& final(reader).buffered() == old(reader).buffered()
            },
        },
{
    match parse_response_head(reader.fill_buf(), MAX_HEADERS) {
        HeadParse::Complete(raw) => {
            let parts = decode_head(&raw)?;
            reader.consume(raw.len);
            Ok(parts)
        },
        HeadParse::Partial => Err(starve(reader.is_closed())),
        HeadParse::Invalid(why) => Err(Error { inner: ErrorKind::Httparse(why) }),
    }
}

/// What the start of a chunk parses to.
#[derive(Debug, Clone, Copy, PartialEq, Eq, Structural)]
pub enum ChunkSize {
    /// A whole chunk-size line: the number of bytes that the line takes,
    /// line end included, and the size that it announces.
    Complete(usize, u64),
    /// The bytes end before the line does.
    Partial,
    /// The bytes are no chunk-size line.
    Invalid,
}

/// What `httparse::parse_chunk_size` makes of `buf`.
pub uninterp spec fn chunk_size_line(buf: Seq<u8>) -> ChunkSize;

/// Calls `httparse::parse_chunk_size`.
///
/// Not proved: that the parser's answer depends on the bytes alone, which
/// is what gives it a name, and that a complete line ends inside `buf`.
#[verifier::external_body]
fn parse_chunk_size(buf: &[u8]) -> (line: ChunkSize)
    ensures
        line == chunk_size_line(buf@),
        line matches ChunkSize::Complete(consumed, _) ==> consumed <= buf@.len(),
{
    match httparse::parse_chunk_size(buf) {
        Ok(httparse::Status::Complete((consumed, size))) => ChunkSize::Complete(consumed, size),
        Ok(httparse::Status::Partial) => ChunkSize::Partial,
        Err(httparse::InvalidChunkSize) => ChunkSize::Invalid,
    }
}

/// The failure of a reader whose input ends inside an element.
pub open spec fn starved(closed: bool) -> Error {
    if closed {
        Error::io(IoKind::UnexpectedEof)
    } else {
        Error::io(IoKind::Interrupted)
    }
}

/// The failure of a reader whose input ends inside an element: more input
/// is asked for while the source is open, and the end is reported once it
/// is closed.
pub fn starve(closed: bool) -> (error: Error)
    ensures
        error == starved(closed),
{
    if closed {
        Error { inner: ErrorKind::Io(IoKind::UnexpectedEof) }
    } else {
        Error { inner: ErrorKind::Io(IoKind::Interrupted) }
    }
}

/// The state that a parsed chunk-size line leads to: the bytes that the
/// line took, the bytes that are left of the chunk (its data and the line
/// end after it), and whether it is the last chunk.
pub open spec fn chunk_header_spec(line: ChunkSize, closed: bool) -> Result<
    (usize, usize, bool),
    Error,
> {
    match line {
        ChunkSize::Complete(consumed, size) => if size + 2 <= usize::MAX {
            Ok((consumed, (size + 2) as usize, size == 0))
        } else {
            Err(Error::http(Fault::BadResponse))
        },
        ChunkSize::Partial => Err(starved(closed)),
        ChunkSize::Invalid => Err(Error::http(Fault::BadResponse)),
    }
}

/// Enters a chunk from its parsed size line.
///
/// A size that does not fit the machine's length type, together with the
/// line end that follows the data, is a malformed response.
pub fn chunk_header(line: ChunkSize, closed: bool) -> (entered: Result<(usize, usize, bool), Error>)
    ensures
        entered == chunk_header_spec(line, closed),
{
    match line {
        ChunkSize::Complete(consumed, size) => {
            if size <= (usize::MAX - 2) as u64 {
                Ok((consumed, size as usize + 2, size == 0))
            } else {
                Err(Error { inner: ErrorKind::Http(Fault::BadResponse) })
            }
        },
        ChunkSize::Partial => Err(starve(closed)),
        ChunkSize::Invalid => Err(Error { inner: ErrorKind::Http(Fault::BadResponse) }),
    }
}

/// What one read of a chunked body comes to.
pub struct ChunkedRead {
    /// The number of body bytes delivered, or the failure.
    pub result: Result<usize, Error>,
    /// The body bytes delivered.
    pub data: Seq<u8>,
    /// The bytes that stay buffered.
    pub rest: Seq<u8>,
    /// The bytes left of the current chunk, line end included.
    pub chunk_len: usize,
    /// Whether the last chunk was entered.
    pub last: bool,
}

/// How many internal steps a chunked read may still take before it
/// returns.
pub open spec fn chunk_rank(chunk_len: usize, last: bool) -> nat {
    if chunk_len == 2 {
        if last {
            1
        } else {
            3
        }
    } else if chunk_len == 0 && !last {
        2
    } else {
        0
    }
}

/// One read of a chunked body, over the bytes `input` that are buffered,
/// into a destination of `capacity` bytes.
///
/// Between chunks (`chunk_len == 0`) a size line is parsed, or, after the
/// last chunk, the body is over. With only the line end of a chunk left
/// (`chunk_len == 2`) that line end is checked and dropped. Inside a chunk
/// data is delivered, and the read returns.
pub open spec fn chunked_read(
    input: Seq<u8>,
    closed: bool,
    capacity: int,
    chunk_len: usize,
    last: bool,
) -> ChunkedRead
    decreases chunk_rank(chunk_len, last),
{
    let stay = |result: Result<usize, Error>|
        ChunkedRead { result, data: Seq::<u8>::empty(), rest: input, chunk_len, last };
    if chunk_len == 0 && !last {
        match chunk_header_spec(chunk_size_line(input), closed) {
            Ok((consumed, len, is_last)) => chunked_read(
                input.skip(consumed as int),
                closed,
                capacity,
                len,
                is_last,
            ),
            Err(e) => stay(Err(e)),
        }
    } else if chunk_len == 0 {
        stay(Ok(0))
    } else if chunk_len == 2 {
        if input.len() < 2 {
            stay(Err(starved(closed)))
        } else if input[0] == CR && input[1] == LF {
            chunked_read(input.skip(2), closed, capacity, 0, last)
        } else {
            stay(Err(Error::http(Fault::BadResponse)))
        }
    } else {
        let result = read_of(input, closed, min_len(capacity, chunk_len - 2));
        let n = delivered(result);
        ChunkedRead {
            result,
            data: input.take(n),
            rest: input.skip(n),
            chunk_len: (chunk_len - n) as usize,
            last,
        }
    }
}

/// A chunk whose size line and data are buffered is delivered whole: a
/// read between chunks that finds the size line of a chunk of `size`
/// bytes, with room for them, yields exactly the bytes after the line
/// and stops before the line end of the chunk.
pub proof fn law_chunk_is_delivered(
    input: Seq<u8>,
    closed: bool,
    capacity: int,
    consumed: usize,
    size: u64,
)
    requires
        chunk_size_line(input) == ChunkSize::Complete(consumed, size),
        0 < size,
        size + 2 <= usize::MAX,
        consumed + size <= input.len(),
        size <= capacity,
    ensures
        ({
            let read = chunked_read(input, closed, capacity, 0, false);
            &&& read.result == Ok::<usize, Error>(size as usize)
            &&& read.data == input.subrange(consumed as int, consumed + size)
            &&& read.rest == input.skip(consumed + size)
            &&& read.chunk_len == 2
            &&& !read.last
        }),
{
    let after_line = input.skip(consumed as int);
    let inner = chunked_read(after_line, closed, capacity, (size + 2) as usize, false);
    assert(chunked_read(input, closed, capacity, 0, false) == inner);
    assert(after_line.take(size as int) =~= input.subrange(consumed as int, consumed + size));
    assert(after_line.skip(size as int) =~= input.skip(consumed + size));
}

/// After the last chunk the body is over: a read between chunks that
/// finds the size line of an empty chunk, and the line end after it,
/// yields nothing, consumes both, and every later read yields nothing.
pub proof fn law_last_chunk_ends_body(input: Seq<u8>, closed: bool, capacity: int, consumed: usize)
    requires
        chunk_size_line(input) == ChunkSize::Complete(consumed, 0),
        consumed + 2 <= input.len(),
        input[consumed as int] == CR,
        input[consumed + 1] == LF,
    ensures
        ({
            let read = chunked_read(input, closed, capacity, 0, false);
            &&& read.result == Ok::<usize, Error>(0usize)
            &&& read.rest == input.skip(consumed + 2)
            &&& read.chunk_len == 0
            &&& read.last
            &&& chunked_read(read.rest, closed, capacity, 0, true).result == Ok::<usize, Error>(
                0usize,
            )
            &&& chunked_read(read.rest, closed, capacity, 0, true).rest == read.rest
        }),
{
    let after_line = input.skip(consumed as int);
    let at_line_end = chunked_read(after_line, closed, capacity, 2, true);
    assert(chunked_read(input, closed, capacity, 0, false) == at_line_end);
    let after_end = after_line.skip(2);
    assert(at_line_end == chunked_read(after_end, closed, capacity, 0, true));
    assert(after_end =~= input.skip(consumed + 2));
}

/// Reads from a chunked body into `buf`.
///
/// `chunk_len` and `last` hold the position inside the body between calls;
/// a fresh body starts at `0` and `false`. The call walks over size lines
/// and line ends until it can deliver data, finds the end of the body, or
/// fails. A failure of kind `Interrupted` leaves everything consumed up to
/// that point consumed: feed the source and call again.
pub fn read_chunked_body(
    reader: &mut Source,
    buf: &mut [u8],
    chunk_len: &mut usize,
    last: &mut bool,
) -> (result: Result<usize, Error>)
    requires
        *old(chunk_len) != 1,
    ensures
        ({
            let read = chunked_read(
                old(reader).buffered(),
                old(reader).closed(),
                old(buf)@.len() as int,
                *old(chunk_len),
                *old(last),
            );
            &&& result == read.result
            &&& *final(chunk_len) == read.chunk_len
            &&& *final(last) == read.last
            &&& final(reader).buffered() == read.rest
            &&& final(buf)@ == read.data + old(buf)@.skip(read.data.len() as int)
            &&& read.data.len() == delivered(result)
        }),
        final(reader).closed() == old(reader).closed(),
        final(buf)@.len() == old(buf)@.len(),
        *final(chunk_len) != 1,
        final(reader).buffered().len() + delivered(result) <= old(reader).buffered().len(),
{
    loop
        invariant
            *chunk_len != 1,
            reader.closed() == old(reader).closed(),
            reader.buffered().len() <= old(reader).buffered().len(),
            buf@ == old(buf)@,
            chunked_read(
                reader.buffered(),
                reader.closed(),
                buf@.len() as int,
                *chunk_len,
                *last,
            ) == chunked_read(
                old(reader).buffered(),
                old(reader).closed(),
                old(buf)@.len() as int,
                *old(chunk_len),
                *old(last),
            ),
        decreases chunk_rank(*chunk_len, *last),
    {
        if *chunk_len == 0 {
            if *last {
                assert(buf@ =~= Seq::<u8>::empty() + buf@.skip(0));
                return Ok(0);
            }
            let line = parse_chunk_size(reader.fill_buf());
            match chunk_header(line, reader.is_closed()) {
                Ok((consumed, len, is_last)) => {
                    reader.consume(consumed);
                    *chunk_len = len;
                    *last = is_last;
                },
                Err(e) => {
                    assert(buf@ =~= Seq::<u8>::empty() + buf@.skip(0));
                    return Err(e);
                },
            }
        } else if *chunk_len == 2 {
            let head = reader.fill_buf();
            if head.len() < 2 {
                assert(buf@ =~= Seq::<u8>::empty() + buf@.skip(0));
                return Err(starve(reader.is_closed()));
            }
            let line_end: bool = head[0] == CR && head[1] == LF;
            if !line_end {
                assert(buf@ =~= Seq::<u8>::empty() + buf@.skip(0));
                return Err(Error { inner: ErrorKind::Http(Fault::BadResponse) });
            }
            reader.consume(2);
            *chunk_len = 0;
        } else {
            let limit: usize = *chunk_len - 2;
            match reader.read_limited(buf, limit) {
                Ok(n) => {
                    *chunk_len = *chunk_len - n;
                    return Ok(n);
                },
                Err(e) => {
                    assert(buf@ =~= reader.buffered().take(0) + buf@.skip(0));
                    assert(reader.buffered().skip(0) =~= reader.buffered());
                    return Err(e);
                },
            }
        }
    }
}

} // verus!
