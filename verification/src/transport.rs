//! Byte-stream transport interface.
//!
//! The runtime moves framed data over a non-blocking byte-stream connection.
//! The two halves of such a connection are modelled as traits whose contracts
//! pin down exactly which bytes move: a write hands a prefix of the caller's
//! buffer to the peer, a read appends the next bytes of the incoming stream
//! to the caller's buffer, and either half may report that it would block.
//! In-memory implementations are provided so the framed layer can be driven
//! and observed without a network.

use vstd::prelude::*;

verus! {

/// Outcome of a non-blocking write.
pub enum WriteOutcome {
    /// This many leading bytes of the caller's buffer were delivered.
    /// Zero while data was pending means the peer is gone.
    Written(usize),
    /// The transport cannot accept bytes right now.
    WouldBlock,
}

/// Outcome of a non-blocking flush of the transport's own buffers.
pub enum FlushOutcome {
    /// Everything previously written has been pushed down.
    Flushed,
    /// The transport cannot complete the flush right now.
    WouldBlock,
}

/// Outcome of a non-blocking read.
pub enum ReadOutcome {
    /// This many bytes were appended to the caller's buffer.
    /// Zero means the stream has ended.
    Read(usize),
    /// No bytes are available right now.
    WouldBlock,
}

/// The write half of a byte-stream transport.
pub trait ByteWriter: Sized {
    /// The bytes delivered to the peer so far, in order.
    spec fn delivered(&self) -> Seq<u8>;

    /// Attempts to write a prefix of `buf`: `Written(n)` delivers exactly
    /// the first `n` bytes to the peer, `WouldBlock` delivers nothing.
    fn write(&mut self, buf: &Vec<u8>) -> (r: WriteOutcome)
        ensures
            (match r {
                WriteOutcome::Written(n) => n <= buf@.len() && final(self).delivered() == old(
                    self,
                ).delivered() + buf@.take(n as int),
                WriteOutcome::WouldBlock => final(self).delivered() == old(self).delivered(),
            }),
    ;

    /// Flushes any lower-level buffer; delivers no new bytes of its own.
    fn flush(&mut self) -> (r: FlushOutcome)
        ensures
            final(self).delivered() == old(self).delivered(),
    ;
}

/// The read half of a byte-stream transport.
pub trait ByteReader: Sized {
    /// The bytes the transport still has to hand out, in order.
    spec fn remaining(&self) -> Seq<u8>;

    /// Attempts to read more bytes, appending them to `buf`: `Read(n)`
    /// appends the next `n` bytes of the stream, and `n == 0` only at the
    /// end of the stream; `WouldBlock` appends nothing.
    fn read_into(&mut self, buf: &mut Vec<u8>) -> (r: ReadOutcome)
        ensures
            (match r {
                ReadOutcome::Read(n) => n <= old(self).remaining().len() && final(buf)@ == old(
                    buf,
                )@ + old(self).remaining().take(n as int) && final(self).remaining() == old(
                    self,
                ).remaining().skip(n as int) && (n == 0 ==> old(self).remaining().len() == 0),
                ReadOutcome::WouldBlock => final(buf)@ == old(buf)@ && final(self).remaining()
                    == old(self).remaining(),
            }),
    ;
}

/// In-memory write half: accepts bytes up to a fixed total, then reports
/// that it would block. What it accepted is what it delivered.
pub struct MemWriter {
    data: Vec<u8>,
    limit: usize,
}

impl MemWriter {
    /// The total number of bytes this writer will ever accept.
    pub closed spec fn limit_spec(&self) -> int {
        self.limit as int
    }

    /// A writer that accepts `limit` bytes in total.
    pub fn with_limit(limit: usize) -> (r: MemWriter)
        ensures
            r.delivered() == Seq::<u8>::empty(),
            r.limit_spec() == limit,
    {
        MemWriter { data: Vec::new(), limit }
    }

    /// The bytes delivered so far, for a driver to inspect.
    pub fn contents(&self) -> (r: &Vec<u8>)
        ensures
            r@ == self.delivered(),
    {
        &self.data
    }
}

impl ByteWriter for MemWriter {
    closed spec fn delivered(&self) -> Seq<u8> {
        self.data@
    }

    fn write(&mut self, buf: &Vec<u8>) -> (r: WriteOutcome) {
        if self.data.len() >= self.limit {
            return WriteOutcome::WouldBlock;
        }
        let room = self.limit - self.data.len();
        let n = if buf.len() < room {
            buf.len()
        } else {
            room
        };
        let mut k: usize = 0;
        while k < n
            invariant
                k <= n,
                n <= buf@.len(),
                self.limit == old(self).limit,
                self.data@ == old(self).data@ + buf@.take(k as int),
            decreases n - k,
        {
            self.data.push(buf[k]);
            proof {
                assert(old(self).data@ + buf@.take(k as int) + seq![buf@[k as int]] =~= old(
                    self,
                ).data@ + buf@.take(k as int + 1));
            }
            k = k + 1;
        }
        WriteOutcome::Written(n)
    }

    fn flush(&mut self) -> (r: FlushOutcome) {
        FlushOutcome::Flushed
    }
}

/// Write half of a connection whose peer has gone: every write reports zero
/// bytes written.
pub struct ClosedWriter {}

impl ClosedWriter {
    /// A broken connection's write half.
    pub fn new() -> (r: ClosedWriter)
        ensures
            r.delivered() == Seq::<u8>::empty(),
    {
        ClosedWriter {}
    }
}

impl ByteWriter for ClosedWriter {
    closed spec fn delivered(&self) -> Seq<u8> {
        Seq::empty()
    }

    fn write(&mut self, buf: &Vec<u8>) -> (r: WriteOutcome) {
        proof {
            assert(Seq::<u8>::empty() + buf@.take(0) =~= Seq::<u8>::empty());
        }
        WriteOutcome::Written(0)
    }

    fn flush(&mut self) -> (r: FlushOutcome) {
        FlushOutcome::Flushed
    }
}

/// In-memory read half: hands out a fixed byte sequence in chunks of a
/// configurable size, then reports end of stream.
pub struct MemReader {
    data: Vec<u8>,
    pos: usize,
    chunk: usize,
}

impl MemReader {
    /// A reader over `data`, handing out at most `chunk` bytes per read
    /// (a chunk of zero is treated as one).
    pub fn new(data: Vec<u8>, chunk: usize) -> (r: MemReader)
        ensures
            r.remaining() == data@,
    {
        let r = MemReader { data, pos: 0, chunk };
        proof {
            assert(r.remaining() =~= r.data@);
        }
        r
    }
}

impl ByteReader for MemReader {
    closed spec fn remaining(&self) -> Seq<u8> {
        if self.pos as int <= self.data@.len() {
            self.data@.skip(self.pos as int)
        } else {
            Seq::empty()
        }
    }

    fn read_into(&mut self, buf: &mut Vec<u8>) -> (r: ReadOutcome) {
        if self.pos >= self.data.len() {
            proof {
                assert(final(buf)@ =~= old(buf)@ + old(self).remaining().take(0));
                assert(final(self).remaining() =~= old(self).remaining().skip(0));
            }
            return ReadOutcome::Read(0);
        }
        let avail = self.data.len() - self.pos;
        let step = if self.chunk == 0 {
            1
        } else {
            self.chunk
        };
        let n = if step < avail {
            step
        } else {
            avail
        };
        let mut k: usize = 0;
        while k < n
            invariant
                k <= n,
                self.data@.len() <= usize::MAX,
                0 < n <= self.data@.len() - self.pos,
                self.pos as int + n <= self.data@.len(),
                self.data@ == old(self).data@,
                self.pos == old(self).pos,
                buf@ == old(buf)@ + self.data@.subrange(
                    self.pos as int,
                    self.pos as int + k as int,
                ),
            decreases n - k,
        {
            proof {
                assert(self.pos + k < self.data@.len());
            }
            buf.push(self.data[self.pos + k]);
            proof {
                assert(old(buf)@ + self.data@.subrange(self.pos as int, self.pos as int + k)
                    + seq![self.data@[self.pos + k]] =~= old(buf)@ + self.data@.subrange(
                    self.pos as int,
                    self.pos as int + k + 1,
                ));
            }
            k = k + 1;
        }
        proof {
            assert(self.data@.subrange(self.pos as int, self.pos as int + n) =~= old(
                self,
            ).remaining().take(n as int));
            assert(self.data@.skip(self.pos as int + n) =~= old(self).remaining().skip(n as int));
        }
        self.pos = self.pos + n;
        ReadOutcome::Read(n)
    }
}

} // verus!
