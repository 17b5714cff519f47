use vstd::prelude::*;
use vstd::utf8::{decode_utf8, valid_utf8};

use crate::client::Error as Fault;
use crate::error::{Error, ErrorKind, IoKind};
use crate::header::{lowered, values_of, CONTENT_LENGTH, TRANSFER_ENCODING};
use crate::http1::{chunked_read, read_chunked_body};
use crate::message::Parts;
use crate::source::{delivered, min_len, read_of, Source};
use crate::util::{
    chunked,
    content_length,
    get_content_length,
    is_chunked,
    lemma_agreed_length_unique,
    lengths_agree_on,
};

verus! {

/// How the end of a response body is found.
#[derive(Debug, Clone, Copy, PartialEq, Eq, Structural)]
pub enum BodyKind {
    /// The response has no body.
    NoBody,
    /// The body has this many bytes left.
    Fixed(usize),
    /// The body comes in chunks: the bytes left of the current chunk,
    /// with the line end after it, and whether the last chunk was entered.
    Chunked(usize, bool),
    /// The body ends where the connection does.
    CloseDelimited,
}

/// True for a status code whose response never has a body: 1xx, 204 and
/// 304.
pub open spec fn bodiless_status(code: u16) -> bool {
    (100 <= code < 200) || code == 204 || code == 304
}

/// The framing of the body of a response with status `code` and the
/// header fields `headers`, to a request that was a `HEAD` if `head`
/// holds. `None` if the response declares two lengths, or a length that
/// cannot be read.
///
/// A response that cannot have a body has none, whatever its header
/// fields say. Transfer-Encoding is read before Content-Length; with
/// neither, the body runs to the end of the connection.
pub open spec fn select_kind(code: u16, headers: Seq<(Seq<u8>, Seq<u8>)>, head: bool) -> Option<
    BodyKind,
> {
    let codings = values_of(headers, TRANSFER_ENCODING@);
    let lengths = values_of(headers, CONTENT_LENGTH@);
    if head || bodiless_status(code) {
        Some(BodyKind::NoBody)
    } else if codings.len() > 0 {
        if chunked(codings) {
            Some(BodyKind::Chunked(0, false))
        } else {
            Some(BodyKind::CloseDelimited)
        }
    } else if lengths.len() > 0 {
        match content_length(lengths) {
            Some(len) => Some(BodyKind::Fixed(len)),
            None => None,
        }
    } else {
        Some(BodyKind::CloseDelimited)
    }
}

/// The order in which the framing of a body is chosen.
///
/// A response to a `HEAD` request has no body, whatever its status and
/// header fields are, and neither has a response with status 1xx, 204 or
/// 304. Of the others, one whose last transfer coding is chunked comes
/// in chunks, even where it declares a length; one without a transfer
/// coding that declares one length has that length; and one that
/// declares neither runs to the end of the connection.
pub proof fn law_framing_precedence(
    code: u16,
    headers: Seq<(Seq<u8>, Seq<u8>)>,
    head: bool,
    len: usize,
)
    ensures
        select_kind(code, headers, true) == Some(BodyKind::NoBody),
        bodiless_status(code) ==> select_kind(code, headers, head) == Some(BodyKind::NoBody),
        !head && !bodiless_status(code) && chunked(values_of(headers, TRANSFER_ENCODING@))
            ==> select_kind(code, headers, head) == Some(BodyKind::Chunked(0, false)),
        !head && !bodiless_status(code) && values_of(headers, TRANSFER_ENCODING@).len() == 0
            && lengths_agree_on(values_of(headers, CONTENT_LENGTH@), len) ==> select_kind(
            code,
            headers,
            head,
        ) == Some(BodyKind::Fixed(len)),
        !head && !bodiless_status(code) && values_of(headers, TRANSFER_ENCODING@).len() == 0
            && values_of(headers, CONTENT_LENGTH@).len() == 0 ==> select_kind(code, headers, head)
            == Some(BodyKind::CloseDelimited),
{
    let lengths = values_of(headers, CONTENT_LENGTH@);
    if lengths_agree_on(lengths, len) {
        let chosen = choose|n: usize| lengths_agree_on(lengths, n);
        lemma_agreed_length_unique(lengths, len, chosen);
    }
}

/// True if both framings are of the same sort: a read changes what is
/// left of a body, never the sort of its framing.
pub open spec fn same_framing(before: BodyKind, after: BodyKind) -> bool {
    match before {
        BodyKind::NoBody => after is NoBody,
        BodyKind::Fixed(_) => after is Fixed,
        BodyKind::Chunked(_, _) => after is Chunked,
        BodyKind::CloseDelimited => after is CloseDelimited,
    }
}

/// No read changes the sort of the framing of a body.
pub proof fn law_read_keeps_framing(kind: BodyKind, input: Seq<u8>, closed: bool, capacity: int)
    ensures
        same_framing(kind, body_read(kind, input, closed, capacity).kind),
{
}

/// A body without framing never yields a byte, whatever is buffered and
/// whatever the destination holds.
pub proof fn law_no_body_is_empty(input: Seq<u8>, closed: bool, capacity: int)
    ensures
        body_read(BodyKind::NoBody, input, closed, capacity).result == Ok::<usize, Error>(0usize),
        body_read(BodyKind::NoBody, input, closed, capacity).rest == input,
{
}

/// A body of fixed length never yields more bytes than are left of it,
/// nor more than the destination holds, whatever is buffered: a read
/// delivers the first bytes that are buffered, counts them off, and
/// leaves the others in the source.
pub proof fn law_fixed_never_exceeds(len: usize, input: Seq<u8>, closed: bool, capacity: int)
    requires
        0 <= capacity,
    ensures
        ({
            let read = body_read(BodyKind::Fixed(len), input, closed, capacity);
            let n = delivered(read.result);
            &&& 0 <= n <= len
            &&& n <= capacity
            &&& n <= input.len()
            &&& read.data == input.take(n)
            &&& read.rest == input.skip(n)
            &&& read.kind == BodyKind::Fixed((len - n) as usize)
            &&& n == 0 ==> read.rest == input
        }),
{
    assert(input.take(0) =~= Seq::<u8>::empty());
    assert(input.skip(0) =~= input);
}

/// What one read of a body comes to.
pub struct BodyRead {
    /// The number of bytes delivered, or the failure.
    pub result: Result<usize, Error>,
    /// The bytes delivered.
    pub data: Seq<u8>,
    /// The bytes that stay buffered.
    pub rest: Seq<u8>,
    /// The framing after the read.
    pub kind: BodyKind,
}

/// One read of a body with the framing `kind`, over the bytes `input`
/// that are buffered, into a destination of `capacity` bytes.
pub open spec fn body_read(
    kind: BodyKind,
    input: Seq<u8>,
    closed: bool,
    capacity: int,
) -> BodyRead {
    let nothing = BodyRead { result: Ok(0), data: Seq::<u8>::empty(), rest: input, kind };
    match kind {
        BodyKind::NoBody => nothing,
        BodyKind::Fixed(len) => {
            if len == 0 {
                nothing
            } else {
                let result = read_of(input, closed, min_len(capacity, len as int));
                let n = delivered(result);
                BodyRead {
                    result,
                    data: input.take(n),
                    rest: input.skip(n),
                    kind: BodyKind::Fixed((len - n) as usize),
                }
            }
        },
        BodyKind::Chunked(chunk_len, last) => {
            let read = chunked_read(input, closed, capacity, chunk_len, last);
            BodyRead {
                result: read.result,
                data: read.data,
                rest: read.rest,
                kind: BodyKind::Chunked(read.chunk_len, read.last),
            }
        },
        BodyKind::CloseDelimited => {
            let result = read_of(input, closed, capacity);
            let n = delivered(result);
            BodyRead { result, data: input.take(n), rest: input.skip(n), kind }
        },
    }
}

/// The number of bytes that a body is drained by at a time.
pub const DRAIN_STEP: usize = 4096;

/// What draining a body comes to.
pub struct Drain {
    /// The failure that stopped the draining, if one did.
    pub failure: Option<Error>,
    /// The bytes delivered, whether or not a failure followed.
    pub data: Seq<u8>,
    /// The bytes that stay buffered.
    pub rest: Seq<u8>,
    /// The framing after the last read.
    pub kind: BodyKind,
}

/// Reading a body with the framing `kind` to its end, over the bytes
/// `input` that are buffered, `capacity` bytes at a time: the reads
/// follow one another until one delivers nothing or fails.
pub open spec fn drain(kind: BodyKind, input: Seq<u8>, closed: bool, capacity: int) -> Drain
    decreases input.len(),
{
    let read = body_read(kind, input, closed, capacity);
    match read.result {
        Ok(n) => {
            if n > 0 && read.rest.len() < input.len() {
                let more = drain(read.kind, read.rest, closed, capacity);
                Drain {
                    failure: more.failure,
                    data: read.data + more.data,
                    rest: more.rest,
                    kind: more.kind,
                }
            } else {
                Drain { failure: None, data: read.data, rest: read.rest, kind: read.kind }
            }
        },
        Err(e) => Drain { failure: Some(e), data: Seq::empty(), rest: read.rest, kind: read.kind },
    }
}

/// Draining a body of fixed length yields the first bytes that are
/// buffered, as many as are left of the body and no more, and leaves the
/// bytes after them in the source. Where fewer are buffered, an open
/// source is asked for more and a closed one ends the body early.
pub proof fn law_fixed_drain(len: usize, input: Seq<u8>, closed: bool)
    ensures
        ({
            let drained = drain(BodyKind::Fixed(len), input, closed, DRAIN_STEP as int);
            let n = min_len(len as int, input.len() as int);
            &&& drained.data == input.take(n)
            &&& drained.rest == input.skip(n)
            &&& drained.kind == BodyKind::Fixed((len - n) as usize)
            &&& drained.failure == (if n < len && !closed {
                Some(Error::io(IoKind::Interrupted))
            } else {
                None
            })
        }),
    decreases input.len(),
{
    let read = body_read(BodyKind::Fixed(len), input, closed, DRAIN_STEP as int);
    let n = min_len(len as int, input.len() as int);
    assert(input.take(0) =~= Seq::<u8>::empty());
    assert(input.skip(0) =~= input);
    if len > 0 && input.len() > 0 {
        let step = delivered(read.result);
        assert(0 < step <= n);
        law_fixed_drain((len - step) as usize, input.skip(step), closed);
        let more = drain(read.kind, read.rest, closed, DRAIN_STEP as int);
        assert(input.take(step) + input.skip(step).take(n - step) =~= input.take(n));
        assert(input.skip(step).skip(n - step) =~= input.skip(n));
    }
}

/// Draining a body that runs to the end of the connection yields all
/// that is buffered; it is over once the source is closed, and asks for
/// more input until then.
pub proof fn law_close_delimited_drain(input: Seq<u8>, closed: bool)
    ensures
        ({
            let drained = drain(BodyKind::CloseDelimited, input, closed, DRAIN_STEP as int);
            &&& drained.data == input
            &&& drained.rest == Seq::<u8>::empty()
            &&& drained.kind == BodyKind::CloseDelimited
            &&& drained.failure == (if closed {
                None
            } else {
                Some(Error::io(IoKind::Interrupted))
            })
        }),
    decreases input.len(),
{
    let read = body_read(BodyKind::CloseDelimited, input, closed, DRAIN_STEP as int);
    assert(input.take(0) =~= Seq::<u8>::empty());
    assert(input.skip(0) =~= input);
    if input.len() > 0 {
        let step = delivered(read.result);
        assert(0 < step <= input.len());
        law_close_delimited_drain(input.skip(step), closed);
        assert(input.take(step) + input.skip(step) =~= input);
    } else {
        assert(input =~= Seq::<u8>::empty());
    }
}

/// Contains a raw HTTP response body.
///
/// The body is readable and can be transformed to another more specific
/// representation like a string or a custom type with the `FromBody`
/// trait.
#[derive(Debug, Clone)]
pub struct Body {
    kind: BodyKind,
    reader: Source,
}

impl Body {
    /// The framing of what is left of the body.
    pub closed spec fn kind(self) -> BodyKind {
        self.kind
    }

    /// The source that the body is read from.
    pub closed spec fn reader(self) -> Source {
        self.reader
    }

    /// True unless the body stands inside a chunk at a place where no
    /// read can leave it.
    pub open spec fn wf(self) -> bool {
        self.kind() matches BodyKind::Chunked(chunk_len, _) ==> chunk_len != 1
    }

    /// Returns true if the message has no body.
    ///
    /// Responses to HEAD requests and responses with a 1xx, 204 and 304
    /// do not have a body. All other responses have a body but
    /// it may be empty.
    pub fn is_none(&self) -> (none: bool)
        ensures
            none == (self.kind() == BodyKind::NoBody),
    {
        match self.kind {
            BodyKind::NoBody => true,
            _ => false,
        }
    }

    /// The framing of what is left of the body.
    pub fn framing(&self) -> (kind: BodyKind)
        ensures
            kind == self.kind(),
    {
        self.kind
    }

    /// Returns true if the body ends where the connection does.
    pub fn is_close_delimited(&self) -> (close_delimited: bool)
        ensures
            close_delimited == (self.kind() == BodyKind::CloseDelimited),
    {
        match self.kind {
            BodyKind::CloseDelimited => true,
            _ => false,
        }
    }

    /// The body of the response with the head `response`, read from
    /// `reader`, which holds what arrived after the head. `head` says
    /// that the request was a `HEAD`.
    ///
    /// Two Content-Length fields that differ, or none that can be read,
    /// are a bad response.
    pub fn from_response(reader: Source, response: &Parts, head: bool) -> (body: Result<
        Body,
        Error,
    >)
        ensures
            match select_kind(response.status@, response.headers@, head) {
                Some(kind) => body is Ok && body->Ok_0.kind() == kind && body->Ok_0.reader()
                    == reader && body->Ok_0.wf(),
                None => body == Err::<Body, Error>(Error::http(Fault::BadResponse)),
            },
    {
        let status = response.status;
        let code: u16 = status.as_u16();
        if head || status.is_informational() || code == 204 || code == 304 {
            return Ok(Body { kind: BodyKind::NoBody, reader });
        }
        assert(lowered(TRANSFER_ENCODING@) =~= TRANSFER_ENCODING@);
        assert(lowered(CONTENT_LENGTH@) =~= CONTENT_LENGTH@);
        let codings = response.headers.get_all(TRANSFER_ENCODING.as_slice());
        if codings.len() > 0 {
            if is_chunked(&codings) {
                return Ok(Body { kind: BodyKind::Chunked(0, false), reader });
            } else {
                return Ok(Body { kind: BodyKind::CloseDelimited, reader });
            }
        }
        let lengths = response.headers.get_all(CONTENT_LENGTH.as_slice());
        if lengths.len() > 0 {
            match get_content_length(&lengths) {
                Some(len) => {
                    return Ok(Body { kind: BodyKind::Fixed(len), reader });
                },
                None => {
                    return Err(Error { inner: ErrorKind::Http(Fault::BadResponse) });
                },
            }
        }
        Ok(Body { kind: BodyKind::CloseDelimited, reader })
    }

    /// Reads from the body into the front of `buf` and returns the number
    /// of bytes read. Zero bytes mean that the body is over, or that
    /// `buf` is empty.
    ///
    /// A body without a declared end passes the bytes of the source on. A
    /// body of fixed length never yields more than the bytes that are
    /// left of it, whatever the source holds. A failure of kind
    /// `Interrupted` asks for more input: feed the source and read again.
    pub fn read(&mut self, buf: &mut [u8]) -> (result: Result<usize, Error>)
        requires
            old(self).wf(),
        ensures
            ({
                let read = body_read(
                    old(self).kind(),
                    old(self).reader().buffered(),
                    old(self).reader().closed(),
                    old(buf)@.len() as int,
                );
                &&& result == read.result
                &&& final(self).kind() == read.kind
                &&& final(self).reader().buffered() == read.rest
                &&& final(buf)@ == read.data + old(buf)@.skip(read.data.len() as int)
                &&& read.data.len() == delivered(result)
            }),
            final(self).reader().closed() == old(self).reader().closed(),
            final(buf)@.len() == old(buf)@.len(),
            final(self).wf(),
            same_framing(old(self).kind(), final(self).kind()),
            final(self).reader().buffered().len() + delivered(result) <= old(
                self,
            ).reader().buffered().len(),
    {
        match self.kind {
            BodyKind::NoBody => {
                assert(buf@ =~= Seq::<u8>::empty() + buf@.skip(0));
                Ok(0)
            },
            BodyKind::Fixed(len) => {
                if len == 0 {
                    assert(buf@ =~= Seq::<u8>::empty() + buf@.skip(0));
                    return Ok(0);
                }
                match self.reader.read_limited(buf, len) {
                    Ok(n) => {
                        self.kind = BodyKind::Fixed(len - n);
                        Ok(n)
                    },
                    Err(e) => {
                        let ghost input = old(self).reader().buffered();
                        assert(buf@ =~= input.take(0) + buf@.skip(0));
                        assert(input.skip(0) =~= input);
                        Err(e)
                    },
                }
            },
            BodyKind::Chunked(chunk_len, last) => {
                let mut chunk_len: usize = chunk_len;
                let mut last: bool = last;
                let result = read_chunked_body(&mut self.reader, buf, &mut chunk_len, &mut last);
                self.kind = BodyKind::Chunked(chunk_len, last);
                result
            },
            BodyKind::CloseDelimited => {
                match self.reader.read(buf) {
                    Ok(n) => Ok(n),
                    Err(e) => {
                        let ghost input = old(self).reader().buffered();
                        assert(buf@ =~= input.take(0) + buf@.skip(0));
                        assert(input.skip(0) =~= input);
                        Err(e)
                    },
                }
            },
        }
    }

    /// Reads the body to its end and appends what it yields to `data`.
    /// Returns the number of bytes appended.
    ///
    /// After a failure `data` holds what was read before it, and the body
    /// stands where the failure met it: after one of kind `Interrupted`,
    /// feed the source and call again to go on.
    pub fn read_to_end(&mut self, data: &mut Vec<u8>) -> (result: Result<usize, Error>)
        requires
            old(self).wf(),
        ensures
            ({
                let drained = drain(
                    old(self).kind(),
                    old(self).reader().buffered(),
                    old(self).reader().closed(),
                    DRAIN_STEP as int,
                );
                &&& final(data)@ == old(data)@ + drained.data
                &&& final(self).kind() == drained.kind
                &&& final(self).reader().buffered() == drained.rest
                &&& match drained.failure {
                    Some(e) => result == Err::<usize, Error>(e),
                    None => result == Ok::<usize, Error>(drained.data.len() as usize),
                }
            }),
            final(self).reader().closed() == old(self).reader().closed(),
            final(self).wf(),
    {
        let mut chunk: Vec<u8> = Vec::new();
        chunk.resize(DRAIN_STEP, 0u8);
        let mut total: usize = 0;
        let available: usize = self.reader.available();
        let ghost goal = drain(
            old(self).kind(),
            old(self).reader().buffered(),
            old(self).reader().closed(),
            DRAIN_STEP as int,
        );
        assert(data@ =~= old(data)@ + Seq::<u8>::empty());
        loop
            invariant
                self.wf(),
                chunk@.len() == DRAIN_STEP,
                old(self).reader().buffered().len() == available,
                goal == drain(
                    old(self).kind(),
                    old(self).reader().buffered(),
                    old(self).reader().closed(),
                    DRAIN_STEP as int,
                ),
                self.reader().closed() == old(self).reader().closed(),
                total + self.reader().buffered().len() <= old(self).reader().buffered().len(),
                ({
                    let left = drain(
                        self.kind(),
                        self.reader().buffered(),
                        self.reader().closed(),
                        DRAIN_STEP as int,
                    );
                    &&& left.failure == goal.failure
                    &&& left.rest == goal.rest
                    &&& left.kind == goal.kind
                    &&& data@ + left.data == old(data)@ + goal.data
                    &&& data@.len() == old(data)@.len() + total
                }),
            decreases self.reader().buffered().len(),
        {
            let ghost before = *self;
            let ghost collected = data@;
            match self.read(chunk.as_mut_slice()) {
                Ok(n) => {
                    if n == 0 {
                        proof {
                            let read = body_read(
                                before.kind(),
                                before.reader().buffered(),
                                before.reader().closed(),
                                DRAIN_STEP as int,
                            );
                            let left = drain(
                                before.kind(),
                                before.reader().buffered(),
                                before.reader().closed(),
                                DRAIN_STEP as int,
                            );
                            assert(left.data == read.data);
                            assert(data@ + read.data =~= data@);
                            assert(goal.data.len() == total);
                        }
                        return Ok(total);
                    }
                    let mut i: usize = 0;
                    while i < n
                        invariant
                            i <= n,
                            n <= chunk@.len(),
                            data@ == collected + chunk@.take(i as int),
                        decreases n - i,
                    {
                        data.push(chunk[i]);
                        assert(data@ =~= collected + chunk@.take(i + 1));
                        i += 1;
                    }
                    total = total + n;
                    proof {
                        let read = body_read(
                            before.kind(),
                            before.reader().buffered(),
                            before.reader().closed(),
                            DRAIN_STEP as int,
                        );
                        assert(chunk@.take(n as int) =~= read.data);
                        let left = drain(
                            self.kind(),
                            self.reader().buffered(),
                            self.reader().closed(),
                            DRAIN_STEP as int,
                        );
                        assert(data@ + left.data =~= collected + (read.data + left.data));
                    }
                },
                Err(e) => {
                    proof {
                        assert(data@ + Seq::<u8>::empty() =~= data@);
                        assert(goal.data.len() == total);
                    }
                    return Err(e);
                },
            }
        }
    }

    /// Appends bytes that arrived from the transport to the source.
    pub fn feed(&mut self, bytes: &[u8])
        ensures
            final(self).kind() == old(self).kind(),
            final(self).reader().buffered() == old(self).reader().buffered() + bytes@,
            final(self).reader().closed() == old(self).reader().closed(),
    {
        self.reader.feed(bytes);
    }

    /// Records that the transport has reached its end.
    pub fn close(&mut self)
        ensures
            final(self).kind() == old(self).kind(),
            final(self).reader().buffered() == old(self).reader().buffered(),
            final(self).reader().closed(),
    {
        self.reader.close();
    }

    /// Gives the source back, with what the body did not consume.
    pub fn into_reader(self) -> (reader: Source)
        ensures
            reader == self.reader(),
    {
        self.reader
    }
}

/// Calls `String::from_utf8`.
///
/// Not proved: that the text is returned exactly if the bytes are valid
/// UTF-8, and that it then holds the characters that the bytes encode.
#[verifier::external_body]
fn string_from_utf8(bytes: Vec<u8>) -> (text: Option<String>)
    ensures
        text is Some <==> valid_utf8(bytes@),
        text matches Some(s) ==> s@ == decode_utf8(bytes@),
{
    String::from_utf8(bytes).ok()
}

/// The text that `bytes` encode. Bytes that are no valid UTF-8 are
/// invalid data.
pub open spec fn text_of(bytes: Seq<u8>) -> Result<Seq<char>, Error> {
    if valid_utf8(bytes) {
        Ok(decode_utf8(bytes))
    } else {
        Err(Error::io(IoKind::InvalidData))
    }
}

/// Decodes a body that was read to its end as UTF-8 text. No other
/// encoding is tried.
pub fn decode_text(bytes: Vec<u8>) -> (text: Result<String, Error>)
    ensures
        match text_of(bytes@) {
            Ok(chars) => text is Ok && text->Ok_0@ == chars,
            Err(e) => text == Err::<String, Error>(e),
        },
{
    match string_from_utf8(bytes) {
        Some(text) => Ok(text),
        None => Err(Error { inner: ErrorKind::Io(IoKind::InvalidData) }),
    }
}

/// Read response bodies as strong types.
///
/// Used to convert untyped message bodies to a more specific
/// representation. An implementation reads the body through
/// [`Body::read`] or [`Body::read_to_end`]; it may read the header fields
/// of the response to decide how.
pub trait FromBody: Sized {
    /// True if `converted` is what the conversion makes of a body with
    /// the framing `kind` over the buffered bytes `input`, and `rest` is
    /// what it leaves buffered.
    spec fn converts(
        kind: BodyKind,
        input: Seq<u8>,
        closed: bool,
        converted: Result<Self, Error>,
        rest: Seq<u8>,
    ) -> bool;

    fn from_body(response: &Parts, body: &mut Body) -> (converted: Result<Self, Error>)
        requires
            old(body).wf(),
        ensures
            final(body).wf(),
            final(body).reader().closed() == old(body).reader().closed(),
            Self::converts(
                old(body).kind(),
                old(body).reader().buffered(),
                old(body).reader().closed(),
                converted,
                final(body).reader().buffered(),
            ),
    ;
}

/// No payload: right for a response without a body, and for no other.
impl FromBody for () {
    open spec fn converts(
        kind: BodyKind,
        input: Seq<u8>,
        closed: bool,
        converted: Result<Self, Error>,
        rest: Seq<u8>,
    ) -> bool {
        &&& rest == input
        &&& converted == (if kind == BodyKind::NoBody {
            Ok::<(), Error>(())
        } else {
            Err::<(), Error>(Error::http(Fault::BadResponse))
        })
    }

    fn from_body(response: &Parts, body: &mut Body) -> (converted: Result<Self, Error>)
        ensures
            *final(body) == *old(body),
            converted == (if old(body).kind() == BodyKind::NoBody {
                Ok::<(), Error>(())
            } else {
                Err::<(), Error>(Error::http(Fault::BadResponse))
            }),
    {
        if body.is_none() {
            Ok(())
        } else {
            Err(Error { inner: ErrorKind::Http(Fault::BadResponse) })
        }
    }
}

/// The bytes of the body, read to its end. Nothing is decompressed.
impl FromBody for Vec<u8> {
    open spec fn converts(
        kind: BodyKind,
        input: Seq<u8>,
        closed: bool,
        converted: Result<Self, Error>,
        rest: Seq<u8>,
    ) -> bool {
        let drained = drain(kind, input, closed, DRAIN_STEP as int);
        &&& rest == drained.rest
        &&& match drained.failure {
            Some(e) => converted == Err::<Vec<u8>, Error>(e),
            None => converted is Ok && converted->Ok_0@ == drained.data,
        }
    }

    fn from_body(response: &Parts, body: &mut Body) -> (converted: Result<Self, Error>)
        ensures
            ({
                let drained = drain(
                    old(body).kind(),
                    old(body).reader().buffered(),
                    old(body).reader().closed(),
                    DRAIN_STEP as int,
                );
                &&& final(body).kind() == drained.kind
                &&& final(body).reader().buffered() == drained.rest
                &&& match drained.failure {
                    Some(e) => converted == Err::<Vec<u8>, Error>(e),
                    None => converted is Ok && converted->Ok_0@ == drained.data,
                }
            }),
    {
        let mut data: Vec<u8> = Vec::new();
        match body.read_to_end(&mut data) {
            Ok(_) => {
                assert(data@ =~= Seq::<u8>::empty() + data@);
                Ok(data)
            },
            Err(e) => Err(e),
        }
    }
}

/// The body as UTF-8 text, read to its end.
impl FromBody for String {
    open spec fn converts(
        kind: BodyKind,
        input: Seq<u8>,
        closed: bool,
        converted: Result<Self, Error>,
        rest: Seq<u8>,
    ) -> bool {
        let drained = drain(kind, input, closed, DRAIN_STEP as int);
        &&& rest == drained.rest
        &&& match drained.failure {
            Some(e) => converted == Err::<String, Error>(e),
            None => match text_of(drained.data) {
                Ok(chars) => converted is Ok && converted->Ok_0@ == chars,
                Err(e) => converted == Err::<String, Error>(e),
            },
        }
    }

    fn from_body(response: &Parts, body: &mut Body) -> (converted: Result<Self, Error>)
        ensures
            ({
                let drained = drain(
                    old(body).kind(),
                    old(body).reader().buffered(),
                    old(body).reader().closed(),
                    DRAIN_STEP as int,
                );
                &&& final(body).kind() == drained.kind
                &&& final(body).reader().buffered() == drained.rest
                &&& match drained.failure {
                    Some(e) => converted == Err::<String, Error>(e),
                    None => match text_of(drained.data) {
                        Ok(chars) => converted is Ok && converted->Ok_0@ == chars,
                        Err(e) => converted == Err::<String, Error>(e),
                    },
                }
            }),
    {
        let mut data: Vec<u8> = Vec::new();
        match body.read_to_end(&mut data) {
            Ok(_) => {
                assert(data@ =~= Seq::<u8>::empty() + data@);
                decode_text(data)
            },
            Err(e) => Err(e),
        }
    }
}

} // verus!
