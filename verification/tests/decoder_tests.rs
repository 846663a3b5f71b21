//! The event-stream decoder: feeding, short reads, frame parsing and
//! garbage resynchronization.

use kiro_rs::decoder::{DecoderState, EventStreamDecoder, ParseError};

fn valid_frame(headers: &[u8], payload: &[u8]) -> Vec<u8> {
    let total = 16 + headers.len() + payload.len();
    let mut out = Vec::new();
    out.extend_from_slice(&(total as u32).to_be_bytes());
    out.extend_from_slice(&(headers.len() as u32).to_be_bytes());
    out.extend_from_slice(&[0u8; 4]);
    out.extend_from_slice(headers);
    out.extend_from_slice(payload);
    out.extend_from_slice(&[0u8; 4]);
    out
}

#[test]
fn test_decoder_feed() {
    let mut decoder = EventStreamDecoder::new();
    decoder.feed(&[1, 2, 3, 4]);
}

#[test]
fn test_decoder_insufficient_data() {
    let mut decoder = EventStreamDecoder::new();
    decoder.feed(&[0u8; 10]);

    let result = decoder.decode();
    assert!(matches!(result, Ok(None)));
}

#[test]
fn decodes_a_single_frame() {
    let mut decoder = EventStreamDecoder::new();
    let frame = valid_frame(b"hdr", b"payload");
    decoder.feed(&frame);
    let out = decoder.decode().unwrap().unwrap();
    assert_eq!(out.headers, b"hdr");
    assert_eq!(out.payload, b"payload");
    assert_eq!(decoder.frames_decoded, 1);
    assert!(matches!(decoder.decode(), Ok(None)));
}

#[test]
fn decodes_two_frames_in_one_feed() {
    let mut decoder = EventStreamDecoder::new();
    let mut bytes = valid_frame(b"a", b"one");
    bytes.extend_from_slice(&valid_frame(b"b", b"two"));
    decoder.feed(&bytes);
    let outs = decoder.decode_iter();
    let frames: Vec<_> = outs.into_iter().filter_map(|r| r.ok()).collect();
    assert_eq!(frames.len(), 2);
    assert_eq!(frames[0].payload, b"one");
    assert_eq!(frames[1].payload, b"two");
}

#[test]
fn garbage_then_frame_resynchronizes() {
    let mut decoder = EventStreamDecoder::new();
    let mut bytes = vec![0u8; 32];
    bytes.extend_from_slice(&valid_frame(b"h", b"ok"));
    decoder.feed(&bytes);
    let mut errors = 0usize;
    let mut frames = 0usize;
    let mut rounds = 0usize;
    while frames == 0 && rounds < 100 {
        let batch = decoder.decode_iter();
        let mut batch_errors = 0usize;
        for item in batch {
            match item {
                Ok(_) => frames += 1,
                Err(_) => {
                    errors += 1;
                    batch_errors += 1;
                },
            }
        }
        assert!(batch_errors <= 10);
        if frames == 0 {
            // the decoder latched; feeding resumes it
            assert_eq!(decoder.state, DecoderState::Recovering);
            decoder.feed(&[]);
        }
        rounds += 1;
    }
    assert_eq!(frames, 1);
    assert!(errors > 0);
    assert_eq!(decoder.frames_decoded, 1);
    assert_eq!(decoder.error_count, 0);
}

#[test]
fn oversized_length_is_an_error() {
    let mut decoder = EventStreamDecoder::new();
    decoder.feed(&[0xff; 12]);
    assert!(matches!(decoder.decode(), Err(ParseError::BadLength)));
    assert_eq!(decoder.error_count, 1);
}
