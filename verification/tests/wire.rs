//! Wire-level behaviour: message round trips, frame stuffing, the chunked
//! accumulator, and agreement with the compact serde encoding the host
//! ecosystem uses for the same shapes.
use fem_core::cobs::{FeedOutcome, FrameAccumulator, cobs_decode, cobs_encode};
use fem_core::codec::DecodeError;
use fem_core::codec::{decode_command, decode_response, encode_command, encode_response};
use fem_core::mnc::{decode_response_frame, encode_command_frame, encode_response_frame};
use fem_core::transport::{Action, Command, F32Bits, MonitorPayload, Power, Response};

fn fb(x: f32) -> F32Bits {
    F32Bits { bits: x.to_bits() }
}

fn all_commands() -> Vec<Command> {
    vec![
        Command::Monitor,
        Command::Control(Action::SetIfLevel(fb(-10.0))),
        Command::Control(Action::Lna1Power(true)),
        Command::Control(Action::Lna1Power(false)),
        Command::Control(Action::Lna2Power(true)),
        Command::Control(Action::SetAtten(fb(16.25))),
        Command::Control(Action::SetCal1(true)),
        Command::Control(Action::SetCal2(false)),
    ]
}

fn sample_payload() -> MonitorPayload {
    MonitorPayload {
        if1_power: fb(-3.25),
        if2_power: fb(-12.5),
        ic_temp: fb(27.0),
        lna1_power: Power { voltage: fb(5.0), current: fb(0.05) },
        lna2_power: Power { voltage: fb(5.0), current: fb(0.0625) },
        analog_power: Power { voltage: fb(3.3), current: fb(0.25) },
    }
}

#[test]
fn command_round_trip_every_variant() {
    for c in all_commands() {
        let bytes = encode_command(&c);
        assert_eq!(decode_command(&bytes), Ok(c));
    }
}

#[test]
fn response_round_trip_every_variant() {
    for r in [Response::Ack, Response::Monitor(sample_payload())] {
        let bytes = encode_response(&r);
        assert_eq!(decode_response(&bytes), Ok(r));
    }
}

#[test]
fn decode_rejects_malformed() {
    // Empty buffer, unknown tags, truncated payloads, bad boolean bytes.
    assert_eq!(decode_command(&[]), Err(DecodeError::Malformed));
    assert_eq!(decode_command(&[9]), Err(DecodeError::Malformed));
    assert_eq!(decode_command(&[1]), Err(DecodeError::Malformed));
    assert_eq!(decode_command(&[1, 0, 0, 0]), Err(DecodeError::Malformed));
    assert_eq!(decode_command(&[1, 1, 2]), Err(DecodeError::Malformed));
    assert_eq!(decode_response(&[0, 1, 2, 3]), Err(DecodeError::Malformed));
    assert_eq!(decode_response(&[7]), Err(DecodeError::Malformed));
}

#[test]
fn decode_ignores_trailing_bytes() {
    let mut bytes = encode_command(&Command::Control(Action::Lna2Power(true)));
    bytes.extend_from_slice(&[0xAA, 0xBB]);
    assert_eq!(decode_command(&bytes), Ok(Command::Control(Action::Lna2Power(true))));
}

#[test]
fn encoding_matches_compact_serde_form() {
    // The shapes on the wire are exactly what the compact serde encoding
    // produces: variant tags as single-byte varints, booleans as one byte,
    // reals as four little-endian bytes of the bit pattern.
    assert_eq!(
        encode_command(&Command::Control(Action::SetIfLevel(fb(1.5)))),
        postcard::to_stdvec(&(1u32, 0u32, 1.5f32)).unwrap()
    );
    assert_eq!(
        encode_command(&Command::Control(Action::Lna1Power(true))),
        postcard::to_stdvec(&(1u32, 1u32, true)).unwrap()
    );
    assert_eq!(encode_command(&Command::Monitor), postcard::to_stdvec(&0u32).unwrap());
    assert_eq!(encode_response(&Response::Ack), postcard::to_stdvec(&1u32).unwrap());
    let p = sample_payload();
    assert_eq!(
        encode_response(&Response::Monitor(p)),
        postcard::to_stdvec(&(0u32, -3.25f32, -12.5f32, 27.0f32, (5.0f32, 0.05f32), (
            5.0f32, 0.0625f32
        ), (3.3f32, 0.25f32)))
        .unwrap()
    );
}

#[test]
fn framing_matches_compact_serde_form() {
    assert_eq!(
        encode_command_frame(&Command::Control(Action::SetAtten(fb(31.5)))),
        postcard::to_stdvec_cobs(&(1u32, 3u32, 31.5f32)).unwrap()
    );
    assert_eq!(encode_command_frame(&Command::Monitor), postcard::to_stdvec_cobs(&0u32).unwrap());
}

#[test]
fn cobs_round_trip_with_zeros() {
    for payload in [
        vec![],
        vec![0u8],
        vec![1u8, 2, 3],
        vec![0u8, 0, 0],
        vec![1u8, 0, 2, 0, 3],
        (0u8..=200).collect::<Vec<u8>>(),
    ] {
        let framed = cobs_encode(&payload);
        assert_eq!(framed.len(), payload.len() + 1);
        assert!(framed.iter().all(|&b| b != 0), "stuffed form must be zero-free");
        assert_eq!(cobs_decode(&framed).unwrap(), payload);
    }
}

#[test]
fn cobs_decode_rejects_bad_frames() {
    // A zero code byte and a code running past the end are both malformed.
    assert!(cobs_decode(&[0]).is_err());
    assert!(cobs_decode(&[5, 1]).is_err());
}

#[test]
fn accumulator_single_chunk() {
    let frame = encode_command_frame(&Command::Control(Action::SetIfLevel(fb(-10.0))));
    let mut acc = FrameAccumulator::new();
    match acc.feed(&frame) {
        FeedOutcome::Frame { data, used } => {
            assert_eq!(used, frame.len());
            assert_eq!(decode_command(&cobs_decode(&data).unwrap()), Ok(Command::Control(
                Action::SetIfLevel(fb(-10.0))
            )));
        },
        FeedOutcome::Consumed => panic!("a complete frame must be emitted"),
    }
}

#[test]
fn accumulator_any_chunking_agrees() {
    // The same two messages, fed whole and fed one byte at a time, produce
    // identical frame sequences.
    let mut stream = encode_command_frame(&Command::Monitor);
    stream.extend_from_slice(&encode_command_frame(&Command::Control(Action::SetCal1(true))));

    let mut whole = FrameAccumulator::new();
    let frames_whole = whole.drain_frames(&stream);

    let mut bytewise = FrameAccumulator::new();
    let mut frames_bytes: Vec<Vec<u8>> = Vec::new();
    for b in &stream {
        frames_bytes.extend(bytewise.drain_frames(&[*b]));
    }
    assert_eq!(frames_whole, frames_bytes);
    assert_eq!(frames_whole.len(), 2);

    // And odd split points give the same answer again.
    for split in 1..stream.len() {
        let mut acc = FrameAccumulator::new();
        let mut frames: Vec<Vec<u8>> = acc.drain_frames(&stream[..split]);
        frames.extend(acc.drain_frames(&stream[split..]));
        assert_eq!(frames, frames_whole);
    }
}

#[test]
fn accumulator_drops_corrupt_frame_and_resyncs() {
    let good = encode_command_frame(&Command::Control(Action::Lna1Power(true)));
    let mut corrupt = encode_command_frame(&Command::Monitor);
    corrupt[0] = 0x09;  // code byte now runs past the end of the frame

    let mut stream = corrupt.clone();
    stream.extend_from_slice(&good);

    let mut acc = FrameAccumulator::new();
    let frames = acc.drain_frames(&stream);
    assert_eq!(frames.len(), 2);
    // The corrupted frame no longer carries a message ...
    assert!(cobs_decode(&frames[0]).is_err());
    // ... and the very next frame decodes as if nothing had happened.
    assert_eq!(decode_command(&cobs_decode(&frames[1]).unwrap()), Ok(Command::Control(
        Action::Lna1Power(true)
    )));
}

#[test]
fn accumulator_discards_oversize_frames() {
    // 300 bytes with no delimiter outgrow the buffer; the next complete
    // frame after the delimiter still comes through.
    let mut stream = vec![0x55u8; 300];
    stream.push(0);
    let good = encode_command_frame(&Command::Monitor);
    stream.extend_from_slice(&good);

    let mut acc = FrameAccumulator::new();
    let frames = acc.drain_frames(&stream);
    assert_eq!(frames.len(), 1);
    assert_eq!(decode_command(&cobs_decode(&frames[0]).unwrap()), Ok(Command::Monitor));
}

#[test]
fn response_frame_round_trip() {
    let r = Response::Monitor(sample_payload());
    let framed = encode_response_frame(&r);
    let mut acc = FrameAccumulator::new();
    match acc.feed(&framed) {
        FeedOutcome::Frame { data, .. } => {
            assert_eq!(decode_response_frame(&data), Ok(r));
        },
        FeedOutcome::Consumed => panic!("a complete frame must be emitted"),
    }
}
