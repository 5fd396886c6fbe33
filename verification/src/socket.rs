//! Framed transport endpoints.
//!
//! `Socket` is the buffered, backpressure-aware write endpoint: frames are
//! encoded into an internal buffer which is flushed to the transport in
//! strict FIFO order, and every byte that reaches the transport is added to
//! a throughput counter for bandwidth estimation. `FramedRead` is the
//! pull-based read endpoint: a decode state machine that turns the incoming
//! byte stream into a sequence of frames and terminates it at end of
//! stream.

use crate::codec::{CodecError, FrameDecoder, FrameEncoder};
use crate::transport::{ByteReader, ByteWriter, FlushOutcome, ReadOutcome, WriteOutcome};
use vstd::prelude::*;

verus! {

/// Send buffer size reserved up front.
pub const INITIAL_CAPACITY: usize = 16384;

/// Buffered-byte threshold that triggers flow control: a sink whose buffer
/// holds at least this many bytes flushes eagerly and, failing that, hands
/// frames back to the caller.
pub const BACKPRESSURE_BOUNDARY: usize = 16384;

/// Readiness of an asynchronous operation.
#[derive(Clone, Copy, Debug, PartialEq, Eq, Structural)]
pub enum Async<T> {
    /// The operation completed with this value.
    Ready(T),
    /// The operation must be retried once the transport is ready again.
    NotReady,
}

/// Outcome of handing one frame to a sink.
#[derive(Clone, Debug)]
pub enum AsyncSink<T> {
    /// The frame was accepted into the buffer.
    Ready,
    /// Flow control: the frame is handed back, to be retried later.
    NotReady(T),
}

/// Error from the framed write path.
#[derive(Clone, Copy, Debug, PartialEq, Eq, Structural)]
pub enum SinkError {
    /// The transport reported a zero-byte write while data was pending:
    /// the peer is gone or the connection is broken.
    WriteZero,
    /// The encoder refused the frame.
    Encode(CodecError),
}

/// How far the decode state machine still is from yielding, used to show
/// that one poll ends: decoding makes a read necessary, a read either
/// consumes transport bytes or observes their end, and both final states
/// answer at once.
pub open spec fn read_rank(s: ReadState) -> int {
    match s {
        ReadState::Readable => 3,
        ReadState::NeedMoreBytes => 2,
        ReadState::AtEndOfStream => 1,
        ReadState::Terminated => 0,
    }
}

/// Addition clipped to the throughput counter's width.
pub open spec fn sat_add(a: int, b: int) -> int {
    if a + b <= usize::MAX {
        a + b
    } else {
        usize::MAX as int
    }
}

/// Removes the first `n` bytes of `v`, keeping the rest in order.
fn drop_prefix(v: &mut Vec<u8>, n: usize)
    requires
        n <= old(v)@.len(),
    ensures
        final(v)@ == old(v)@.skip(n as int),
{
    let mut rest: Vec<u8> = Vec::new();
    let mut k: usize = n;
    while k < v.len()
        invariant
            n <= k <= v@.len(),
            v@ == old(v)@,
            rest@ == v@.subrange(n as int, k as int),
        decreases v@.len() - k,
    {
        rest.push(v[k]);
        proof {
            assert(v@.subrange(n as int, k as int) + seq![v@[k as int]] =~= v@.subrange(
                n as int,
                k as int + 1,
            ));
        }
        k = k + 1;
    }
    proof {
        assert(rest@ =~= old(v)@.skip(n as int));
    }
    *v = rest;
}

/// Buffered, backpressure-aware write endpoint over the write half of a
/// transport.
pub struct Socket<W, E> {
    /// The write half of the transport.
    net: W,
    /// Encoder that teaches us how to encode.
    encoder: E,
    /// Counter keeping track of bytes sent.
    bytes: usize,
    /// Internal socket buffer.
    buffer: Vec<u8>,
}

impl<W: ByteWriter, E: FrameEncoder> Socket<W, E> {
    /// Bytes currently buffered, not yet delivered.
    pub closed spec fn buf(&self) -> Seq<u8> {
        self.buffer@
    }

    /// Bytes delivered to the transport so far, in order.
    pub closed spec fn out(&self) -> Seq<u8> {
        self.net.delivered()
    }

    /// The throughput counter: delivered bytes, clipped at the counter's
    /// width.
    pub closed spec fn sent(&self) -> int {
        self.bytes as int
    }

    /// The sink's encoder.
    pub closed spec fn enc(&self) -> E {
        self.encoder
    }

    /// Creates a new sink over the write half of a transport, with the
    /// given encoder and a zeroed throughput counter.
    pub fn new(net: W, encoder: E) -> (r: Socket<W, E>)
        ensures
            r.buf() == Seq::<u8>::empty(),
            r.sent() == 0,
            r.out() == net.delivered(),
            r.enc() == encoder,
    {
        Socket { net, encoder, bytes: 0, buffer: Vec::with_capacity(INITIAL_CAPACITY) }
    }

    /// Total bytes delivered so far, as counted for throughput sampling.
    pub fn bytes_sent(&self) -> (r: usize)
        ensures
            r as int == self.sent(),
    {
        self.bytes
    }

    /// Read access to the transport's write half, e.g. for a driver to
    /// inspect what was delivered.
    pub fn get_ref(&self) -> (r: &W)
        ensures
            r.delivered() == self.out(),
    {
        &self.net
    }

    /// Bytes currently buffered.
    pub fn buffered(&self) -> (r: usize)
        ensures
            r as int == self.buf().len(),
    {
        self.buffer.len()
    }

    /// Flushes buffered bytes to the transport until the buffer is empty,
    /// then flushes the transport itself; reports `NotReady` where the
    /// transport would block. Bytes leave the buffer in strict FIFO order,
    /// exactly the delivered prefix, and each delivered byte is added to
    /// the throughput counter. A zero-byte write while the buffer is
    /// non-empty is a fatal transport fault.
    pub fn poll_complete(&mut self) -> (r: Result<Async<()>, SinkError>)
        ensures
            ({
                let d = old(self).buf().len() - final(self).buf().len();
                &&& 0 <= d <= old(self).buf().len()
                &&& final(self).buf() == old(self).buf().skip(d)
                &&& final(self).out() == old(self).out() + old(self).buf().take(d)
                &&& final(self).sent() == sat_add(old(self).sent(), d)
                &&& final(self).enc() == old(self).enc()
                &&& (r == Ok::<Async<()>, SinkError>(Async::Ready(())) ==> final(self).buf().len()
                    == 0)
            }),
    {
        let ghost orig = *self;
        while self.buffer.len() != 0
            invariant
                orig == *old(self),
                ({
                    let d = orig.buf().len() - self.buf().len();
                    &&& 0 <= d <= orig.buf().len()
                    &&& self.buf() == orig.buf().skip(d)
                    &&& self.out() == orig.out() + orig.buf().take(d)
                    &&& self.sent() == sat_add(orig.sent(), d)
                    &&& self.enc() == orig.enc()
                }),
            decreases self.buffer@.len(),
        {
            let ghost before = *self;
            let outcome = self.net.write(&self.buffer);
            match outcome {
                WriteOutcome::Written(n) => {
                    if n == 0 {
                        proof {
                            assert(self.out() =~= before.out());
                        }
                        return Err(SinkError::WriteZero);
                    }
                    self.bytes = if self.bytes <= usize::MAX - n {
                        self.bytes + n
                    } else {
                        usize::MAX
                    };
                    drop_prefix(&mut self.buffer, n);
                    proof {
                        let d0 = orig.buf().len() - before.buf().len();
                        assert(self.buf() =~= orig.buf().skip(d0 + n));
                        assert(orig.buf().take(d0) + before.buf().take(n as int) =~= orig.buf()
                            .take(d0 + n));
                        assert(self.out() =~= orig.out() + orig.buf().take(d0 + n));
                    }
                }
                WriteOutcome::WouldBlock => {
                    return Ok(Async::NotReady);
                }
            }
        }
        match self.net.flush() {
            FlushOutcome::Flushed => Ok(Async::Ready(())),
            FlushOutcome::WouldBlock => Ok(Async::NotReady),
        }
    }

    /// Hands one frame to the sink. A buffer already at the backpressure
    /// boundary is eagerly flushed first; if it still reaches the boundary
    /// the frame is handed back as a flow-control signal (not an error)
    /// and the caller retries later. Otherwise the frame's encoding is
    /// appended to the buffer. Below the boundary nothing is delivered and
    /// the frame is never handed back.
    pub fn start_send(&mut self, item: Vec<u8>) -> (r: Result<AsyncSink<Vec<u8>>, SinkError>)
        ensures
            ({
                let d = final(self).out().len() - old(self).out().len();
                &&& 0 <= d <= old(self).buf().len()
                &&& final(self).out() == old(self).out() + old(self).buf().take(d)
                &&& final(self).sent() == sat_add(old(self).sent(), d)
                &&& (match r {
                    Ok(AsyncSink::Ready) => {
                        &&& final(self).buf() == old(self).buf().skip(d)
                            + old(self).enc().encoding(item@)
                        &&& old(self).buf().len() - d < BACKPRESSURE_BOUNDARY
                    },
                    Ok(AsyncSink::NotReady(it)) => {
                        &&& it == item
                        &&& final(self).buf() == old(self).buf().skip(d)
                        &&& old(self).buf().len() >= BACKPRESSURE_BOUNDARY
                        &&& final(self).buf().len() >= BACKPRESSURE_BOUNDARY
                    },
                    Err(_) => final(self).buf() == old(self).buf().skip(d),
                })
                &&& (old(self).buf().len() < BACKPRESSURE_BOUNDARY ==> d == 0 && !(r matches Ok(
                    AsyncSink::NotReady(_),
                )))
            }),
    {
        if self.buffer.len() >= BACKPRESSURE_BOUNDARY {
            match self.poll_complete() {
                Ok(_) => {
                }
                Err(e) => {
                    return Err(e);
                }
            }
            if self.buffer.len() >= BACKPRESSURE_BOUNDARY {
                return Ok(AsyncSink::NotReady(item));
            }
        }
        proof {
            assert(old(self).buf().take(0) =~= Seq::<u8>::empty());
            assert(old(self).out() + old(self).buf().take(0) =~= old(self).out());
            assert(old(self).buf().skip(0) =~= old(self).buf());
        }
        match self.encoder.encode(&item, &mut self.buffer) {
            Ok(()) => Ok(AsyncSink::Ready),
            Err(e) => Err(SinkError::Encode(e)),
        }
    }
}

/// Decode state of a `FramedRead`.
pub enum ReadState {
    /// More bytes must be read before another decode attempt.
    NeedMoreBytes,
    /// Buffered bytes may hold one or more complete frames.
    Readable,
    /// The transport reached end of stream; one final decode is owed.
    AtEndOfStream,
    /// The produced sequence has ended; no further frames are yielded.
    Terminated,
}

/// A pull-based stream of frames decoded from the read half of a
/// transport.
pub struct FramedRead<R, D> {
    /// The read half of the transport.
    inner: R,
    /// Decoder that teaches us how to decode.
    decoder: D,
    /// Where the decode state machine stands.
    state: ReadState,
    /// Bytes read but not yet decoded.
    buffer: Vec<u8>,
}

impl<R: ByteReader, D: FrameDecoder> FramedRead<R, D> {
    /// All bytes still ahead of the consumer: buffered ones, then whatever
    /// the transport has yet to hand out.
    pub closed spec fn stream(&self) -> Seq<u8> {
        self.buffer@ + self.inner.remaining()
    }

    /// Whether the end of the transport's byte stream has been observed.
    pub closed spec fn at_eof(&self) -> bool {
        self.state is AtEndOfStream || self.state is Terminated
    }

    /// Whether the produced frame sequence has ended.
    pub closed spec fn terminated(&self) -> bool {
        self.state is Terminated
    }

    /// Once the end of the stream is flagged, no transport bytes are left.
    pub closed spec fn wf(&self) -> bool {
        self.at_eof() ==> self.inner.remaining().len() == 0
    }

    /// Creates a new `FramedRead` over the read half of a transport, with
    /// the given decoder.
    pub fn new(inner: R, decoder: D) -> (r: FramedRead<R, D>)
        ensures
            r.wf(),
            r.stream() == inner.remaining(),
            !r.at_eof(),
    {
        let r = FramedRead {
            inner,
            decoder,
            state: ReadState::NeedMoreBytes,
            buffer: Vec::new(),
        };
        proof {
            assert(r.stream() =~= r.inner.remaining());
        }
        r
    }

    /// Polls for the next frame. `Ready(Some(f))` yields the frame sitting
    /// at the front of the stream and consumes exactly its bytes;
    /// `Ready(None)` terminates the produced sequence, after which every
    /// further poll yields `Ready(None)` and changes nothing; `NotReady`
    /// means the transport would block, with the stream left intact. Once
    /// end of stream has been observed it is never cleared.
    pub fn poll(&mut self) -> (r: Result<Async<Option<Vec<u8>>>, CodecError>)
        requires
            old(self).wf(),
        ensures
            final(self).wf(),
            old(self).at_eof() ==> final(self).at_eof(),
            old(self).terminated() ==> *final(self) == *old(self) && r == Ok::<
                Async<Option<Vec<u8>>>,
                CodecError,
            >(Async::Ready(None)),
            (match r {
                Ok(Async::Ready(Some(f))) => {
                    &&& D::has_frame(old(self).stream())
                    &&& f@ == D::front_frame(old(self).stream())
                    &&& final(self).stream() == old(self).stream().skip(
                        D::frame_size(old(self).stream()),
                    )
                },
                Ok(Async::Ready(None)) => {
                    &&& final(self).terminated()
                    &&& final(self).stream() == old(self).stream()
                    &&& (old(self).terminated() || !D::has_frame(old(self).stream()))
                },
                Ok(Async::NotReady) => {
                    &&& final(self).stream() == old(self).stream()
                    &&& !final(self).terminated()
                },
                Err(_) => final(self).stream() == old(self).stream(),
            }),
    {
        let ghost orig = *self;
        loop
            invariant
                orig == *old(self),
                self.wf(),
                orig.terminated() ==> self.terminated(),
                self.stream() == orig.stream(),
                orig.at_eof() ==> self.at_eof(),
                !self.terminated() || (orig.terminated() && *self == orig),
            decreases self.inner.remaining().len(), read_rank(self.state),
        {
            match self.state {
                ReadState::Readable => {
                    let ghost b = self.buffer@;
                    let res = self.decoder.decode(&mut self.buffer);
                    match res {
                        Ok(Some(f)) => {
                            proof {
                                let s = orig.stream();
                                assert(s.take(b.len() as int) =~= b);
                                D::lemma_frame_size(b);
                                D::lemma_frame_prefix(b, s);
                                assert(self.stream() =~= s.skip(D::frame_size(s)));
                            }
                            return Ok(Async::Ready(Some(f)));
                        }
                        Ok(None) => {
                            self.state = ReadState::NeedMoreBytes;
                        }
                        Err(e) => {
                            return Err(e);
                        }
                    }
                }
                ReadState::NeedMoreBytes => {
                    let ghost b = self.buffer@;
                    let ghost rem = self.inner.remaining();
                    let res = self.inner.read_into(&mut self.buffer);
                    match res {
                        ReadOutcome::Read(n) => {
                            proof {
                                assert((b + rem.take(n as int)) + rem.skip(n as int) =~= b + rem);
                            }
                            if n == 0 {
                                self.state = ReadState::AtEndOfStream;
                            } else {
                                self.state = ReadState::Readable;
                            }
                        }
                        ReadOutcome::WouldBlock => {
                            return Ok(Async::NotReady);
                        }
                    }
                }
                ReadState::AtEndOfStream => {
                    let ghost b = self.buffer@;
                    proof {
                        assert(orig.stream() =~= b);
                    }
                    let res = self.decoder.decode_eof(&mut self.buffer);
                    match res {
                        Ok(f_opt) => {
                            self.state = ReadState::Terminated;
                            proof {
                                if f_opt is Some {
                                    D::lemma_frame_size(b);
                                    assert(self.stream() =~= b.skip(D::frame_size(b)));
                                } else {
                                    assert(self.stream() =~= b);
                                }
                            }
                            return Ok(Async::Ready(f_opt));
                        }
                        Err(e) => {
                            return Err(e);
                        }
                    }
                }
                ReadState::Terminated => {
                    return Ok(Async::Ready(None));
                }
            }
        }
    }
}

} // verus!
