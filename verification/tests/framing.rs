//! Tests for the framed transport layer: codec, backpressure sink and
//! decode state machine.

use adaptive_runtime::codec::{CodecError, FrameDecoder, FrameEncoder, LengthCodec};
use adaptive_runtime::socket::{Async, AsyncSink, FramedRead, SinkError, Socket, BACKPRESSURE_BOUNDARY};
use adaptive_runtime::transport::{ClosedWriter, MemReader, MemWriter};

fn encode_all(frames: &[Vec<u8>]) -> Vec<u8> {
    let mut codec = LengthCodec::new();
    let mut wire = Vec::new();
    for f in frames {
        codec.encode(f, &mut wire).unwrap();
    }
    wire
}

#[test]
fn encoding_layout_is_length_prefixed() {
    let wire = encode_all(&[vec![9, 8, 7]]);
    assert_eq!(wire, vec![3, 0, 0, 0, 9, 8, 7]);
}

#[test]
fn decode_round_trips_one_frame() {
    let mut codec = LengthCodec::new();
    let mut wire = encode_all(&[vec![1, 2, 3, 4, 5]]);
    let frame = codec.decode(&mut wire).unwrap().unwrap();
    assert_eq!(frame, vec![1, 2, 3, 4, 5]);
    assert!(wire.is_empty());
}

#[test]
fn decode_waits_for_a_complete_frame() {
    let mut codec = LengthCodec::new();
    let mut wire = encode_all(&[vec![1, 2, 3]]);
    wire.truncate(5);
    let before = wire.clone();
    assert!(codec.decode(&mut wire).unwrap().is_none());
    assert_eq!(wire, before);
}

#[test]
fn decode_eof_flags_truncated_frames() {
    let mut codec = LengthCodec::new();
    let mut empty: Vec<u8> = Vec::new();
    assert!(codec.decode_eof(&mut empty).unwrap().is_none());
    let mut wire = encode_all(&[vec![1, 2, 3]]);
    wire.truncate(5);
    assert!(matches!(codec.decode_eof(&mut wire), Err(CodecError::Truncated)));
}

#[test]
fn sink_below_boundary_never_flushes_or_rejects() {
    let writer = MemWriter::with_limit(1 << 20);
    let mut sink = Socket::new(writer, LengthCodec::new());
    for k in 0..8u8 {
        let frame = vec![k; 1024];
        assert!(matches!(sink.start_send(frame), Ok(AsyncSink::Ready)));
        // Below the boundary nothing is delivered and nothing is counted.
        assert_eq!(sink.bytes_sent(), 0);
    }
    assert_eq!(sink.buffered(), 8 * (1024 + 4));
}

#[test]
fn sink_flush_delivers_fifo_and_counts_bytes() {
    let writer = MemWriter::with_limit(1 << 20);
    let mut sink = Socket::new(writer, LengthCodec::new());
    let frames = vec![vec![1, 2, 3], vec![4], vec![5, 6]];
    for f in &frames {
        assert!(matches!(sink.start_send(f.clone()), Ok(AsyncSink::Ready)));
    }
    assert!(matches!(sink.poll_complete(), Ok(Async::Ready(()))));
    assert_eq!(sink.buffered(), 0);
    let wire = encode_all(&frames);
    assert_eq!(sink.bytes_sent(), wire.len());
    // The delivered bytes are the encodings in enqueue order, with no loss
    // or duplication.
    assert_eq!(sink.get_ref().contents(), &wire);
}

#[test]
fn sink_at_boundary_flushes_before_rejecting() {
    // A writer that accepts almost nothing keeps the buffer at the
    // boundary even after the eager flush.
    let writer = MemWriter::with_limit(10);
    let mut sink = Socket::new(writer, LengthCodec::new());
    while sink.buffered() < BACKPRESSURE_BOUNDARY {
        assert!(matches!(sink.start_send(vec![7; 4096]), Ok(AsyncSink::Ready)));
        assert_eq!(sink.bytes_sent(), 0);
    }
    // The next enqueue first attempts a flush (observed through the
    // counter), and with the buffer still at the boundary hands the frame
    // back.
    let outcome = sink.start_send(vec![8; 16]);
    match outcome {
        Ok(AsyncSink::NotReady(frame)) => assert_eq!(frame, vec![8; 16]),
        other => panic!("expected flow control, got {:?}", other),
    }
    assert_eq!(sink.bytes_sent(), 10);
    assert_eq!(sink.get_ref().contents().len(), 10);
    assert!(sink.buffered() >= BACKPRESSURE_BOUNDARY);
}

#[test]
fn sink_at_boundary_accepts_after_successful_flush() {
    let writer = MemWriter::with_limit(1 << 20);
    let mut sink = Socket::new(writer, LengthCodec::new());
    while sink.buffered() < BACKPRESSURE_BOUNDARY {
        assert!(matches!(sink.start_send(vec![7; 4096]), Ok(AsyncSink::Ready)));
    }
    let buffered = sink.buffered();
    // The eager flush empties the buffer, so the frame is accepted.
    assert!(matches!(sink.start_send(vec![8; 16]), Ok(AsyncSink::Ready)));
    assert_eq!(sink.bytes_sent(), buffered);
    assert_eq!(sink.buffered(), 16 + 4);
}

#[test]
fn sink_boundary_is_inclusive() {
    let writer = MemWriter::with_limit(1 << 20);
    let mut sink = Socket::new(writer, LengthCodec::new());
    let frame = vec![1; BACKPRESSURE_BOUNDARY - 4];
    assert!(matches!(sink.start_send(frame), Ok(AsyncSink::Ready)));
    assert_eq!(sink.buffered(), BACKPRESSURE_BOUNDARY);
    // Reaching the boundary exactly makes the next enqueue flush first.
    assert!(matches!(sink.start_send(vec![2; 8]), Ok(AsyncSink::Ready)));
    assert_eq!(sink.bytes_sent(), BACKPRESSURE_BOUNDARY);
    assert_eq!(sink.buffered(), 8 + 4);
}

#[test]
fn sink_zero_byte_write_is_fatal() {
    let writer = ClosedWriter::new();
    let mut sink = Socket::new(writer, LengthCodec::new());
    assert!(matches!(sink.start_send(vec![1, 2, 3]), Ok(AsyncSink::Ready)));
    assert!(matches!(sink.poll_complete(), Err(SinkError::WriteZero)));
}

#[test]
fn reader_round_trips_a_frame_sequence() {
    let frames = vec![vec![1, 2, 3], vec![], vec![42; 300], vec![9]];
    let wire = encode_all(&frames);
    // Hand the bytes over in small chunks to exercise partial reads.
    let reader = MemReader::new(wire, 7);
    let mut framed = FramedRead::new(reader, LengthCodec::new());
    let mut got: Vec<Vec<u8>> = Vec::new();
    loop {
        match framed.poll().unwrap() {
            Async::Ready(Some(frame)) => got.push(frame),
            Async::Ready(None) => break,
            Async::NotReady => panic!("in-memory reader never blocks"),
        }
    }
    assert_eq!(got, frames);
}

#[test]
fn reader_terminates_and_stays_terminated() {
    let wire = encode_all(&[vec![5, 5]]);
    let reader = MemReader::new(wire, 64);
    let mut framed = FramedRead::new(reader, LengthCodec::new());
    assert!(matches!(framed.poll(), Ok(Async::Ready(Some(_)))));
    assert!(matches!(framed.poll(), Ok(Async::Ready(None))));
    // Polling past the end of the sequence keeps yielding nothing.
    assert!(matches!(framed.poll(), Ok(Async::Ready(None))));
    assert!(matches!(framed.poll(), Ok(Async::Ready(None))));
}

#[test]
fn reader_reports_truncated_tail() {
    let mut wire = encode_all(&[vec![1, 2, 3, 4]]);
    wire.truncate(6);
    let reader = MemReader::new(wire, 64);
    let mut framed = FramedRead::new(reader, LengthCodec::new());
    assert!(matches!(framed.poll(), Err(CodecError::Truncated)));
}

#[test]
fn encoder_rejects_nothing_within_the_length_field() {
    // Frames the length field can describe are encoded as announced.
    let mut codec = LengthCodec::new();
    let mut wire = Vec::new();
    codec.encode(&vec![0; 70000], &mut wire).unwrap();
    assert_eq!(wire.len(), 70000 + 4);
    assert_eq!(&wire[0..4], &[112, 17, 1, 0]);
}
