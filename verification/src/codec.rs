//! Wire codec for commands and responses.
//!
//! A message is a variant tag byte followed by its fields: a real-valued field
//! is the four little-endian bytes of its single-precision bit pattern, a
//! boolean is one byte holding exactly 0 or 1.  The encoding is compact and
//! self-describing; a decoder consumes a message from the front of a buffer
//! and ignores any trailing bytes.  Both transport generations build on it:
//! a transport that delivers exactly one message per read uses these
//! functions bare, and the delimited byte stream passes the same bytes
//! through the stuffing transform in `cobs`.
use vstd::prelude::*;

use crate::transport::{Action, Command, F32Bits, MonitorPayload, Power, Response};

verus! {

/// Why a byte sequence failed to decode as a message.
#[derive(Clone, Copy, Debug, PartialEq, Eq, Structural)]
pub enum DecodeError {
    /// The bytes are not a valid encoding: truncated, an unknown variant tag,
    /// or a boolean byte other than 0 or 1.
    Malformed,
}

// ---------------------------------------------------------------------------
// Encoding, as specification-level byte sequences.
// ---------------------------------------------------------------------------

/// The four little-endian bytes of a 32-bit pattern.
pub open spec fn spec_le32(x: u32) -> Seq<u8> {
    seq![
        (x & 0xff) as u8,
        ((x >> 8) & 0xff) as u8,
        ((x >> 16) & 0xff) as u8,
        ((x >> 24) & 0xff) as u8,
    ]
}

/// The 32-bit pattern read back from four little-endian bytes.
pub open spec fn spec_u32_le(b0: u8, b1: u8, b2: u8, b3: u8) -> u32 {
    (b0 as u32) | ((b1 as u32) << 8) | ((b2 as u32) << 16) | ((b3 as u32) << 24)
}

pub open spec fn spec_enc_bool(b: bool) -> Seq<u8> {
    seq![if b { 1u8 } else { 0u8 }]
}

pub open spec fn spec_enc_action(a: Action) -> Seq<u8> {
    match a {
        Action::SetIfLevel(v) => seq![0u8] + spec_le32(v.bits),
        Action::Lna1Power(b) => seq![1u8] + spec_enc_bool(b),
        Action::Lna2Power(b) => seq![2u8] + spec_enc_bool(b),
        Action::SetAtten(v) => seq![3u8] + spec_le32(v.bits),
        Action::SetCal1(b) => seq![4u8] + spec_enc_bool(b),
        Action::SetCal2(b) => seq![5u8] + spec_enc_bool(b),
    }
}

pub open spec fn spec_enc_command(c: Command) -> Seq<u8> {
    match c {
        Command::Monitor => seq![0u8],
        Command::Control(a) => seq![1u8] + spec_enc_action(a),
    }
}

pub open spec fn spec_enc_power(p: Power) -> Seq<u8> {
    spec_le32(p.voltage.bits) + spec_le32(p.current.bits)
}

pub open spec fn spec_enc_payload(m: MonitorPayload) -> Seq<u8> {
    spec_le32(m.if1_power.bits) + spec_le32(m.if2_power.bits) + spec_le32(m.ic_temp.bits)
        + spec_enc_power(m.lna1_power) + spec_enc_power(m.lna2_power) + spec_enc_power(
        m.analog_power,
    )
}

pub open spec fn spec_enc_response(r: Response) -> Seq<u8> {
    match r {
        Response::Monitor(m) => seq![0u8] + spec_enc_payload(m),
        Response::Ack => seq![1u8],
    }
}

// ---------------------------------------------------------------------------
// Decoding, as total specification functions.
// ---------------------------------------------------------------------------

pub open spec fn spec_dec_bool_at(s: Seq<u8>, i: int) -> Option<bool> {
    if 0 <= i < s.len() && s[i] == 0 {
        Some(false)
    } else if 0 <= i < s.len() && s[i] == 1 {
        Some(true)
    } else {
        None
    }
}

pub open spec fn spec_dec_u32_at(s: Seq<u8>, i: int) -> Option<u32> {
    if 0 <= i && i + 4 <= s.len() {
        Some(spec_u32_le(s[i], s[i + 1], s[i + 2], s[i + 3]))
    } else {
        None
    }
}

/// Decode an action from the bytes that follow the command tag.
pub open spec fn spec_dec_action(s: Seq<u8>) -> Option<Action> {
    if s.len() == 0 {
        None
    } else if s[0] == 0 {
        match spec_dec_u32_at(s, 1) {
            Some(x) => Some(Action::SetIfLevel(F32Bits { bits: x })),
            None => None,
        }
    } else if s[0] == 1 {
        match spec_dec_bool_at(s, 1) {
            Some(b) => Some(Action::Lna1Power(b)),
            None => None,
        }
    } else if s[0] == 2 {
        match spec_dec_bool_at(s, 1) {
            Some(b) => Some(Action::Lna2Power(b)),
            None => None,
        }
    } else if s[0] == 3 {
        match spec_dec_u32_at(s, 1) {
            Some(x) => Some(Action::SetAtten(F32Bits { bits: x })),
            None => None,
        }
    } else if s[0] == 4 {
        match spec_dec_bool_at(s, 1) {
            Some(b) => Some(Action::SetCal1(b)),
            None => None,
        }
    } else if s[0] == 5 {
        match spec_dec_bool_at(s, 1) {
            Some(b) => Some(Action::SetCal2(b)),
            None => None,
        }
    } else {
        None
    }
}

pub open spec fn spec_dec_command(s: Seq<u8>) -> Option<Command> {
    if s.len() == 0 {
        None
    } else if s[0] == 0 {
        Some(Command::Monitor)
    } else if s[0] == 1 {
        match spec_dec_action(s.skip(1)) {
            Some(a) => Some(Command::Control(a)),
            None => None,
        }
    } else {
        None
    }
}

pub open spec fn spec_dec_payload_at(s: Seq<u8>, i: int) -> Option<MonitorPayload> {
    if 0 <= i && i + 36 <= s.len() {
        Some(
            MonitorPayload {
                if1_power: F32Bits { bits: spec_u32_le(s[i], s[i + 1], s[i + 2], s[i + 3]) },
                if2_power: F32Bits {
                    bits: spec_u32_le(s[i + 4], s[i + 5], s[i + 6], s[i + 7]),
                },
                ic_temp: F32Bits { bits: spec_u32_le(s[i + 8], s[i + 9], s[i + 10], s[i + 11]) },
                lna1_power: Power {
                    voltage: F32Bits {
                        bits: spec_u32_le(s[i + 12], s[i + 13], s[i + 14], s[i + 15]),
                    },
                    current: F32Bits {
                        bits: spec_u32_le(s[i + 16], s[i + 17], s[i + 18], s[i + 19]),
                    },
                },
                lna2_power: Power {
                    voltage: F32Bits {
                        bits: spec_u32_le(s[i + 20], s[i + 21], s[i + 22], s[i + 23]),
                    },
                    current: F32Bits {
                        bits: spec_u32_le(s[i + 24], s[i + 25], s[i + 26], s[i + 27]),
                    },
                },
                analog_power: Power {
                    voltage: F32Bits {
                        bits: spec_u32_le(s[i + 28], s[i + 29], s[i + 30], s[i + 31]),
                    },
                    current: F32Bits {
                        bits: spec_u32_le(s[i + 32], s[i + 33], s[i + 34], s[i + 35]),
                    },
                },
            },
        )
    } else {
        None
    }
}

pub open spec fn spec_dec_response(s: Seq<u8>) -> Option<Response> {
    if s.len() == 0 {
        None
    } else if s[0] == 0 {
        match spec_dec_payload_at(s, 1) {
            Some(m) => Some(Response::Monitor(m)),
            None => None,
        }
    } else if s[0] == 1 {
        Some(Response::Ack)
    } else {
        None
    }
}

// ---------------------------------------------------------------------------
// Executable encoders.
// ---------------------------------------------------------------------------

fn push_le32(v: &mut Vec<u8>, x: u32)
    ensures
        final(v)@ == old(v)@ + spec_le32(x),
{
    proof {
        assert(x & 0xff < 256 && (x >> 8) & 0xff < 256 && (x >> 16) & 0xff < 256 && (x >> 24)
            & 0xff < 256) by (bit_vector);
    }
    v.push((x & 0xff) as u8);
    v.push(((x >> 8) & 0xff) as u8);
    v.push(((x >> 16) & 0xff) as u8);
    v.push(((x >> 24) & 0xff) as u8);
    proof {
        assert(v@ =~= old(v)@ + spec_le32(x));
    }
}

fn push_bool(v: &mut Vec<u8>, b: bool)
    ensures
        final(v)@ == old(v)@ + spec_enc_bool(b),
{
    v.push(if b { 1 } else { 0 });
    proof {
        assert(v@ =~= old(v)@ + spec_enc_bool(b));
    }
}

fn push_action(v: &mut Vec<u8>, a: &Action)
    ensures
        final(v)@ == old(v)@ + spec_enc_action(*a),
{
    match a {
        Action::SetIfLevel(x) => {
            v.push(0);
            push_le32(v, x.bits);
        },
        Action::Lna1Power(b) => {
            v.push(1);
            push_bool(v, *b);
        },
        Action::Lna2Power(b) => {
            v.push(2);
            push_bool(v, *b);
        },
        Action::SetAtten(x) => {
            v.push(3);
            push_le32(v, x.bits);
        },
        Action::SetCal1(b) => {
            v.push(4);
            push_bool(v, *b);
        },
        Action::SetCal2(b) => {
            v.push(5);
            push_bool(v, *b);
        },
    }
    proof {
        assert(v@ =~= old(v)@ + spec_enc_action(*a));
    }
}

/// Encode a command as its tagged byte form.
pub fn encode_command(c: &Command) -> (v: Vec<u8>)
    ensures
        v@ == spec_enc_command(*c),
{
    let mut v: Vec<u8> = Vec::new();
    match c {
        Command::Monitor => {
            v.push(0);
        },
        Command::Control(a) => {
            v.push(1);
            push_action(&mut v, a);
        },
    }
    proof {
        assert(v@ =~= spec_enc_command(*c));
    }
    v
}

fn push_power(v: &mut Vec<u8>, p: &Power)
    ensures
        final(v)@ == old(v)@ + spec_enc_power(*p),
{
    push_le32(v, p.voltage.bits);
    push_le32(v, p.current.bits);
    proof {
        assert(v@ =~= old(v)@ + spec_enc_power(*p));
    }
}

/// Encode a response as its tagged byte form.
pub fn encode_response(r: &Response) -> (v: Vec<u8>)
    ensures
        v@ == spec_enc_response(*r),
{
    let mut v: Vec<u8> = Vec::new();
    match r {
        Response::Monitor(m) => {
            v.push(0);
            push_le32(&mut v, m.if1_power.bits);
            push_le32(&mut v, m.if2_power.bits);
            push_le32(&mut v, m.ic_temp.bits);
            push_power(&mut v, &m.lna1_power);
            push_power(&mut v, &m.lna2_power);
            push_power(&mut v, &m.analog_power);
        },
        Response::Ack => {
            v.push(1);
        },
    }
    proof {
        assert(v@ =~= spec_enc_response(*r));
    }
    v
}

// ---------------------------------------------------------------------------
// Executable decoders.
// ---------------------------------------------------------------------------

fn read_u32_le(s: &[u8], i: usize) -> (x: u32)
    requires
        i + 4 <= s@.len(),
    ensures
        Some(x) == spec_dec_u32_at(s@, i as int),
{
    (s[i] as u32) | ((s[i + 1] as u32) << 8) | ((s[i + 2] as u32) << 16) | ((s[i + 3] as u32)
        << 24)
}

/// Decode a command from the front of a buffer; trailing bytes are ignored.
pub fn decode_command(s: &[u8]) -> (r: Result<Command, DecodeError>)
    ensures
        (match r {
            Ok(c) => spec_dec_command(s@) == Some(c),
            Err(e) => spec_dec_command(s@) is None && e is Malformed,
        }),
{
    if s.len() == 0 {
        return Err(DecodeError::Malformed);
    }
    let tag = s[0];
    if tag == 0 {
        Ok(Command::Monitor)
    } else if tag == 1 {
        if s.len() < 2 {
            return Err(DecodeError::Malformed);
        }
        let atag = s[1];
        proof {
            assert(s@.skip(1)[0] == s@[1]);
        }
        if atag == 0 || atag == 3 {
            if s.len() < 6 {
                return Err(DecodeError::Malformed);
            }
            let x = read_u32_le(s, 2);
            proof {
                assert(s@.skip(1)[1] == s@[2] && s@.skip(1)[2] == s@[3] && s@.skip(1)[3] == s@[4]
                    && s@.skip(1)[4] == s@[5]);
            }
            if atag == 0 {
                Ok(Command::Control(Action::SetIfLevel(F32Bits { bits: x })))
            } else {
                Ok(Command::Control(Action::SetAtten(F32Bits { bits: x })))
            }
        } else if atag == 1 || atag == 2 || atag == 4 || atag == 5 {
            if s.len() < 3 {
                return Err(DecodeError::Malformed);
            }
            let bb = s[2];
            proof {
                assert(s@.skip(1)[1] == s@[2]);
            }
            if bb > 1 {
                return Err(DecodeError::Malformed);
            }
            let b = bb == 1;
            if atag == 1 {
                Ok(Command::Control(Action::Lna1Power(b)))
            } else if atag == 2 {
                Ok(Command::Control(Action::Lna2Power(b)))
            } else if atag == 4 {
                Ok(Command::Control(Action::SetCal1(b)))
            } else {
                Ok(Command::Control(Action::SetCal2(b)))
            }
        } else {
            Err(DecodeError::Malformed)
        }
    } else {
        Err(DecodeError::Malformed)
    }
}

/// Decode a response from the front of a buffer; trailing bytes are ignored.
pub fn decode_response(s: &[u8]) -> (r: Result<Response, DecodeError>)
    ensures
        (match r {
            Ok(x) => spec_dec_response(s@) == Some(x),
            Err(e) => spec_dec_response(s@) is None && e is Malformed,
        }),
{
    if s.len() == 0 {
        return Err(DecodeError::Malformed);
    }
    let tag = s[0];
    if tag == 0 {
        if s.len() < 37 {
            return Err(DecodeError::Malformed);
        }
        let m = MonitorPayload {
            if1_power: F32Bits { bits: read_u32_le(s, 1) },
            if2_power: F32Bits { bits: read_u32_le(s, 5) },
            ic_temp: F32Bits { bits: read_u32_le(s, 9) },
            lna1_power: Power {
                voltage: F32Bits { bits: read_u32_le(s, 13) },
                current: F32Bits { bits: read_u32_le(s, 17) },
            },
            lna2_power: Power {
                voltage: F32Bits { bits: read_u32_le(s, 21) },
                current: F32Bits { bits: read_u32_le(s, 25) },
            },
            analog_power: Power {
                voltage: F32Bits { bits: read_u32_le(s, 29) },
                current: F32Bits { bits: read_u32_le(s, 33) },
            },
        };
        Ok(Response::Monitor(m))
    } else if tag == 1 {
        Ok(Response::Ack)
    } else {
        Err(DecodeError::Malformed)
    }
}

// ---------------------------------------------------------------------------
// Round-trip laws.
// ---------------------------------------------------------------------------

proof fn lemma_le32_round_trip(x: u32)
    ensures
        spec_u32_le(
            (x & 0xff) as u8,
            ((x >> 8) & 0xff) as u8,
            ((x >> 16) & 0xff) as u8,
            ((x >> 24) & 0xff) as u8,
        ) == x,
{
    assert((((x & 0xff) as u8) as u32) | ((((x >> 8) & 0xff) as u8) as u32) << 8 | ((((x >> 16)
        & 0xff) as u8) as u32) << 16 | ((((x >> 24) & 0xff) as u8) as u32) << 24 == x)
        by (bit_vector);
}

proof fn lemma_action_round_trip(a: Action)
    ensures
        spec_dec_action(spec_enc_action(a)) == Some(a),
{
    match a {
        Action::SetIfLevel(v) => {
            lemma_le32_round_trip(v.bits);
        },
        Action::SetAtten(v) => {
            lemma_le32_round_trip(v.bits);
        },
        _ => {
        },
    }
}

/// Law: a command decodes back to itself.
pub proof fn lemma_command_round_trip(c: Command)
    ensures
        spec_dec_command(spec_enc_command(c)) == Some(c),
{
    match c {
        Command::Monitor => {
        },
        Command::Control(a) => {
            assert(spec_enc_command(c).skip(1) =~= spec_enc_action(a));
            lemma_action_round_trip(a);
        },
    }
}

/// Law: a response decodes back to itself.
pub proof fn lemma_response_round_trip(r: Response)
    ensures
        spec_dec_response(spec_enc_response(r)) == Some(r),
{
    match r {
        Response::Ack => {
        },
        Response::Monitor(m) => {
            let s = spec_enc_response(r);
            let p = spec_enc_payload(m);
            assert forall|j: int| 0 <= j < 36 implies s[1 + j] == p[j] by {}
            lemma_le32_round_trip(m.if1_power.bits);
            lemma_le32_round_trip(m.if2_power.bits);
            lemma_le32_round_trip(m.ic_temp.bits);
            lemma_le32_round_trip(m.lna1_power.voltage.bits);
            lemma_le32_round_trip(m.lna1_power.current.bits);
            lemma_le32_round_trip(m.lna2_power.voltage.bits);
            lemma_le32_round_trip(m.lna2_power.current.bits);
            lemma_le32_round_trip(m.analog_power.voltage.bits);
            lemma_le32_round_trip(m.analog_power.current.bits);
        },
    }
}

/// Every encoded message is shorter than the framing layer's payload bound.
pub proof fn lemma_encoding_small(c: Command, r: Response)
    ensures
        spec_enc_command(c).len() <= 6,
        spec_enc_response(r).len() <= 37,
{
}

} // verus!
