use vstd::prelude::*;

use crate::error::{Error, ErrorKind, IoKind};

verus! {

/// The smaller of two lengths.
pub open spec fn min_len(a: int, b: int) -> int {
    if a <= b {
        a
    } else {
        b
    }
}

/// What a read of at most `capacity` bytes returns when `buffered` is
/// buffered: the number of bytes that are there and fit. With nothing
/// buffered, a closed source yields zero bytes and an open one asks for
/// more input, unless nothing is wanted.
pub open spec fn read_of(buffered: Seq<u8>, closed: bool, capacity: int) -> Result<usize, Error> {
    if capacity > 0 && buffered.len() == 0 && !closed {
        Err(Error::io(IoKind::Interrupted))
    } else {
        Ok(min_len(capacity, buffered.len() as int) as usize)
    }
}

/// The number of bytes that a read delivered.
pub open spec fn delivered(result: Result<usize, Error>) -> int {
    match result {
        Ok(n) => n as int,
        Err(_) => 0,
    }
}

/// A buffered byte source.
///
/// It holds the bytes that arrived from the transport and were not yet
/// consumed, and whether the transport has reached its end. The owner of
/// the transport feeds it; the readers of this crate take from it.
#[derive(Debug, Clone)]
pub struct Source {
    data: Vec<u8>,
    closed: bool,
}

impl Source {
    /// The bytes that arrived and were not yet consumed, oldest first.
    pub closed spec fn buffered(self) -> Seq<u8> {
        self.data@
    }

    /// True once the transport has reached its end.
    pub closed spec fn closed(self) -> bool {
        self.closed
    }

    /// An open source with nothing buffered.
    pub fn new() -> (source: Source)
        ensures
            source.buffered() == Seq::<u8>::empty(),
            !source.closed(),
    {
        Source { data: Vec::new(), closed: false }
    }

    /// A closed source that holds exactly `bytes`: a whole stream in memory.
    pub fn from_bytes(bytes: &[u8]) -> (source: Source)
        ensures
            source.buffered() == bytes@,
            source.closed(),
    {
        let mut data: Vec<u8> = Vec::new();
        data.extend_from_slice(bytes);
        Source { data, closed: true }
    }

    /// Appends bytes that arrived from the transport.
    pub fn feed(&mut self, bytes: &[u8])
        ensures
            final(self).buffered() == old(self).buffered() + bytes@,
            final(self).closed() == old(self).closed(),
    {
        self.data.extend_from_slice(bytes);
    }

    /// Records that the transport has reached its end.
    pub fn close(&mut self)
        ensures
            final(self).buffered() == old(self).buffered(),
            final(self).closed(),
    {
        self.closed = true;
    }

    /// True once the transport has reached its end.
    pub fn is_closed(&self) -> (closed: bool)
        ensures
            closed == self.closed(),
    {
        self.closed
    }

    /// The number of buffered bytes.
    pub fn available(&self) -> (len: usize)
        ensures
            len == self.buffered().len(),
    {
        self.data.len()
    }

    /// The buffered bytes, without consuming them.
    pub fn fill_buf(&self) -> (bytes: &[u8])
        ensures
            bytes@ == self.buffered(),
    {
        self.data.as_slice()
    }

    /// Drops the first `amt` buffered bytes, or all of them if there are
    /// fewer.
    pub fn consume(&mut self, amt: usize)
        ensures
            final(self).buffered() == old(self).buffered().skip(
                min_len(amt as int, old(self).buffered().len() as int),
            ),
            final(self).closed() == old(self).closed(),
    {
        if amt >= self.data.len() {
            self.data.clear();
        } else {
            let rest = self.data.split_off(amt);
            self.data = rest;
        }
        assert(self.data@ =~= old(self).data@.skip(
            min_len(amt as int, old(self).data@.len() as int),
        ));
    }

    /// What a read of at most `capacity` bytes returns.
    pub open spec fn read_result(self, capacity: int) -> Result<usize, Error> {
        read_of(self.buffered(), self.closed(), capacity)
    }

    /// Moves buffered bytes to the front of `buf`: as many as are buffered
    /// and fit.
    ///
    /// With nothing buffered, a closed source yields zero bytes, and an
    /// open one asks for more input, unless `buf` is empty.
    pub fn read(&mut self, buf: &mut [u8]) -> (result: Result<usize, Error>)
        ensures
            result == old(self).read_result(old(buf)@.len() as int),
            final(self).closed() == old(self).closed(),
            final(buf)@.len() == old(buf)@.len(),
            match result {
                Ok(n) => {
                    &&& final(buf)@ == old(self).buffered().take(n as int) + old(buf)@.skip(
                        n as int,
                    )
                    &&& final(self).buffered() == old(self).buffered().skip(n as int)
                },
                Err(_) => {
                    &&& final(buf)@ == old(buf)@
                    &&& final(self).buffered() == old(self).buffered()
                },
            },
    {
        let limit: usize = buf.len();
        self.read_limited(buf, limit)
    }

    /// As [`Source::read`], but moves at most `limit` bytes.
    pub fn read_limited(&mut self, buf: &mut [u8], limit: usize) -> (result: Result<usize, Error>)
        ensures
            result == old(self).read_result(min_len(old(buf)@.len() as int, limit as int)),
            final(self).closed() == old(self).closed(),
            final(buf)@.len() == old(buf)@.len(),
            match result {
                Ok(n) => {
                    &&& final(buf)@ == old(self).buffered().take(n as int) + old(buf)@.skip(
                        n as int,
                    )
                    &&& final(self).buffered() == old(self).buffered().skip(n as int)
                },
                Err(_) => {
                    &&& final(buf)@ == old(buf)@
                    &&& final(self).buffered() == old(self).buffered()
                },
            },
    {
        let capacity: usize = if buf.len() <= limit {
            buf.len()
        } else {
            limit
        };
        let available: usize = self.data.len();
        if capacity > 0 && available == 0 && !self.closed {
            return Err(Error { inner: ErrorKind::Io(IoKind::Interrupted) });
        }
        let n: usize = if capacity <= available {
            capacity
        } else {
            available
        };
        let mut i: usize = 0;
        while i < n
            invariant
                i <= n,
                n <= self.data@.len(),
                n <= buf@.len(),
                buf@.len() == old(buf)@.len(),
                self.data@ == old(self).data@,
                self.closed == old(self).closed,
                forall|j: int| 0 <= j < i ==> buf@[j] == self.data@[j],
                forall|j: int| i <= j < buf@.len() ==> buf@[j] == old(buf)@[j],
            decreases n - i,
        {
            buf[i] = self.data[i];
            i += 1;
        }
        assert(buf@ =~= old(self).buffered().take(n as int) + old(buf)@.skip(n as int));
        self.consume(n);
        Ok(n)
    }
}

} // verus!
