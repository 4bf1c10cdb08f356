//! Monitor-and-control core: the shared device state, the snapshot refresh,
//! the background status decision, and the command dispatcher.
//!
//! The dispatcher runs to completion once per received frame: decode the
//! command, apply its side effect — a threshold update on the state, an LNA
//! enable line, an attenuation update, a calibration tone — and produce the
//! response frame.  An acknowledgement is sent for every control action
//! whether or not the underlying hardware write succeeded; hardware faults
//! are the caller's to log and never surface on the wire.  A frame that does
//! not decode produces no response and changes nothing.
use vstd::prelude::*;

use crate::atten::{DualHMC624A, OutPin, ShiftBus, ToneOutput, spec_atten_register};
use crate::cobs::{
    acc_events,
    acc_init,
    acc_run,
    cobs_decode,
    cobs_encode,
    lemma_acc_resync,
    lemma_acc_single_frame,
    lemma_cobs_round_trip,
    spec_cobs_decode,
    spec_cobs_encode,
};
use crate::codec::{
    DecodeError,
    decode_command,
    decode_response,
    encode_command,
    encode_response,
    lemma_command_round_trip,
    lemma_encoding_small,
    lemma_response_round_trip,
    spec_dec_command,
    spec_dec_response,
    spec_enc_command,
    spec_enc_response,
};
use crate::fbits::{f32_ge, spec_f32_ge};
use crate::transport::{Action, Command, F32Bits, MonitorPayload, Power, Response};

verus! {

/// The IF "good" threshold every boot starts from: -10.0 dBm as a
/// single-precision bit pattern.
pub const DEFAULT_IF_GOOD_BITS: u32 = 0xC1200000;

/// The one shared-mutable record in the system: the current setpoints and
/// the latest monitor snapshot.  Created once at power-up with defaults;
/// written only by the dispatcher and the snapshot refresh.
pub struct State {
    /// IF power level, in dBm, at or above which an IF chain counts as good.
    pub if_good_threshold: F32Bits,
    /// The snapshot served to monitor requests and read by the background
    /// status pass.
    pub last_monitor: MonitorPayload,
}

impl Default for State {
    fn default() -> (s: Self)
        ensures
            s.if_good_threshold.bits == DEFAULT_IF_GOOD_BITS,
            s.last_monitor == MonitorPayload::spec_zeroed(),
    {
        State {
            if_good_threshold: F32Bits { bits: DEFAULT_IF_GOOD_BITS },
            last_monitor: MonitorPayload::default(),
        }
    }
}

/// One pass of sensor reads.  A field is absent where its read failed, and
/// the snapshot keeps that field's previous value.
pub struct MonitorReadings {
    pub if1_power: Option<F32Bits>,
    pub if2_power: Option<F32Bits>,
    pub ic_temp: Option<F32Bits>,
    pub lna1_voltage: Option<F32Bits>,
    pub lna1_current: Option<F32Bits>,
    pub lna2_voltage: Option<F32Bits>,
    pub lna2_current: Option<F32Bits>,
    pub analog_voltage: Option<F32Bits>,
    pub analog_current: Option<F32Bits>,
}

pub open spec fn spec_pick(fresh: Option<F32Bits>, prev: F32Bits) -> F32Bits {
    match fresh {
        Some(v) => v,
        None => prev,
    }
}

/// The snapshot after one refresh: fresh where a read arrived, unchanged
/// where it failed.
pub open spec fn spec_merge(prev: MonitorPayload, r: MonitorReadings) -> MonitorPayload {
    MonitorPayload {
        if1_power: spec_pick(r.if1_power, prev.if1_power),
        if2_power: spec_pick(r.if2_power, prev.if2_power),
        ic_temp: spec_pick(r.ic_temp, prev.ic_temp),
        lna1_power: Power {
            voltage: spec_pick(r.lna1_voltage, prev.lna1_power.voltage),
            current: spec_pick(r.lna1_current, prev.lna1_power.current),
        },
        lna2_power: Power {
            voltage: spec_pick(r.lna2_voltage, prev.lna2_power.voltage),
            current: spec_pick(r.lna2_current, prev.lna2_power.current),
        },
        analog_power: Power {
            voltage: spec_pick(r.analog_voltage, prev.analog_power.voltage),
            current: spec_pick(r.analog_current, prev.analog_power.current),
        },
    }
}

/// Refresh the snapshot from one pass of readings, field by field: any
/// single failed read is non-fatal and leaves only its own field at the
/// previous value.
pub fn update_monitor_payload(payload: &mut MonitorPayload, r: &MonitorReadings)
    ensures
        *final(payload) == spec_merge(*old(payload), *r),
{
    match r.if1_power {
        Some(v) => payload.if1_power = v,
        None => (),
    }
    match r.if2_power {
        Some(v) => payload.if2_power = v,
        None => (),
    }
    match r.ic_temp {
        Some(v) => payload.ic_temp = v,
        None => (),
    }
    match r.lna1_voltage {
        Some(v) => payload.lna1_power.voltage = v,
        None => (),
    }
    match r.lna1_current {
        Some(v) => payload.lna1_power.current = v,
        None => (),
    }
    match r.lna2_voltage {
        Some(v) => payload.lna2_power.voltage = v,
        None => (),
    }
    match r.lna2_current {
        Some(v) => payload.lna2_power.current = v,
        None => (),
    }
    match r.analog_voltage {
        Some(v) => payload.analog_power.voltage = v,
        None => (),
    }
    match r.analog_current {
        Some(v) => payload.analog_power.current = v,
        None => (),
    }
}

// ---------------------------------------------------------------------------
// The background status decision.
// ---------------------------------------------------------------------------

/// Whether each status output should be lit: the latest IF sample measured
/// at or above the current threshold.
pub open spec fn spec_led_states(s: State) -> (bool, bool) {
    (
        spec_f32_ge(s.last_monitor.if1_power.bits, s.if_good_threshold.bits),
        spec_f32_ge(s.last_monitor.if2_power.bits, s.if_good_threshold.bits),
    )
}

/// Decide both status outputs from the current state.
pub fn led_states(s: &State) -> (r: (bool, bool))
    ensures
        r == spec_led_states(*s),
{
    (
        f32_ge(s.last_monitor.if1_power.bits, s.if_good_threshold.bits),
        f32_ge(s.last_monitor.if2_power.bits, s.if_good_threshold.bits),
    )
}

/// Drive an output line to the requested level.
pub fn drive_pin<P: OutPin>(pin: &mut P, high: bool) -> (r: Result<(), P::Error>)
    ensures
        r is Ok ==> final(pin).is_high() == high,
{
    if high {
        pin.set_high()
    } else {
        pin.set_low()
    }
}

/// One pass of the background loop's output stage: put both status lines at
/// the levels the current state calls for.
pub fn refresh_status_leds<P1: OutPin, P2: OutPin>(s: &State, led1: &mut P1, led2: &mut P2) -> (r:
    (Result<(), P1::Error>, Result<(), P2::Error>))
    ensures
        r.0 is Ok ==> final(led1).is_high() == spec_led_states(*s).0,
        r.1 is Ok ==> final(led2).is_high() == spec_led_states(*s).1,
{
    let (a, b) = led_states(s);
    (drive_pin(led1, a), drive_pin(led2, b))
}

// ---------------------------------------------------------------------------
// The command dispatcher.
// ---------------------------------------------------------------------------

/// The response every command deterministically yields: the refreshed
/// snapshot for a monitor request, an acknowledgement for any control
/// action.
pub open spec fn spec_response_for(cmd: Command, prev: State, r: MonitorReadings) -> Response {
    match cmd {
        Command::Monitor => Response::Monitor(spec_merge(prev.last_monitor, r)),
        Command::Control(_) => Response::Ack,
    }
}

/// The device state after a command: a monitor request installs the fresh
/// snapshot, a threshold update installs its level, and every other action
/// touches only hardware.
pub open spec fn spec_state_after(cmd: Command, prev: State, r: MonitorReadings) -> State {
    match cmd {
        Command::Monitor => State {
            if_good_threshold: prev.if_good_threshold,
            last_monitor: spec_merge(prev.last_monitor, r),
        },
        Command::Control(Action::SetIfLevel(l)) => State {
            if_good_threshold: l,
            last_monitor: prev.last_monitor,
        },
        Command::Control(_) => prev,
    }
}

/// Which hardware write failed during a dispatch.  Per the protocol a fault
/// never changes the response; it is returned beside it for the caller to
/// log.
#[derive(Debug)]
pub enum HwFault<EA, E1, E2, F1, F2> {
    /// The attenuator update failed.
    Atten(crate::atten::Error<EA>),
    /// Driving the LNA1 enable line failed.
    Lna1(E1),
    /// Driving the LNA2 enable line failed.
    Lna2(E2),
    /// Switching calibration tone 1 failed.
    Cal1(F1),
    /// Switching calibration tone 2 failed.
    Cal2(F2),
}

/// Dispatch one decoded command: apply its side effect, and produce the
/// response together with the outcome of the one hardware write the action
/// called for.  `readings` is the sensor pass taken for this dispatch, so a
/// monitor response is never staler than the dispatch itself.  A hardware
/// fault does not change the response — it is handed back for the caller to
/// log — and when the write reports success the commanded actuator holds the
/// commanded value; the attenuator bus never carries a wrong register value
/// in any outcome.
pub fn handle_command<LE1, LE2, SPI, LEE, L1, L2, C1, C2>(
    cmd: &Command,
    state: &mut State,
    readings: &MonitorReadings,
    atten: &mut DualHMC624A<LE1, LE2, SPI>,
    lna1: &mut L1,
    lna2: &mut L2,
    cal1: &mut C1,
    cal2: &mut C2,
) -> (r: (Response, Result<(), HwFault<LEE, L1::Error, L2::Error, C1::Error, C2::Error>>)) where
    SPI: ShiftBus,
    LE1: OutPin<Error = LEE>,
    LE2: OutPin<Error = LEE>,
    L1: OutPin,
    L2: OutPin,
    C1: ToneOutput,
    C2: ToneOutput,

    ensures
        r.0 == spec_response_for(*cmd, *old(state), *readings),
        *final(state) == spec_state_after(*cmd, *old(state), *readings),
        (*cmd matches Command::Monitor || *cmd matches Command::Control(Action::SetIfLevel(_)))
            ==> r.1 is Ok,
        *cmd matches Command::Control(Action::Lna1Power(en)) ==> {
            &&& r.1 is Ok ==> final(lna1).is_high() == en
            &&& r.1 matches Err(f) ==> f is Lna1
        },
        *cmd matches Command::Control(Action::Lna2Power(en)) ==> {
            &&& r.1 is Ok ==> final(lna2).is_high() == en
            &&& r.1 matches Err(f) ==> f is Lna2
        },
        *cmd matches Command::Control(Action::SetCal1(en)) ==> {
            &&& r.1 is Ok ==> final(cal1).tone_on() == en
            &&& r.1 matches Err(f) ==> f is Cal1
        },
        *cmd matches Command::Control(Action::SetCal2(en)) ==> {
            &&& r.1 is Ok ==> final(cal2).tone_on() == en
            &&& r.1 matches Err(f) ==> f is Cal2
        },
        *cmd matches Command::Control(Action::SetAtten(l)) ==> {
            &&& r.1 is Ok ==> {
                &&& final(atten).shifted() == old(atten).shifted().push(
                    spec_atten_register(l.bits) as u8,
                )
                &&& final(atten).le1_high()
                &&& final(atten).le2_high()
            }
            &&& r.1 matches Err(f) ==> f is Atten
            &&& (r.1 matches Err(HwFault::Atten(e)) && e is SpiError) ==> {
                &&& final(atten).shifted() == old(atten).shifted()
                &&& !final(atten).le1_high()
                &&& !final(atten).le2_high()
            }
            &&& (final(atten).shifted() == old(atten).shifted() || final(atten).shifted() == old(atten).shifted().push(spec_atten_register(l.bits) as u8))
        },
        !(*cmd matches Command::Control(Action::SetAtten(_))) ==> *final(atten) == *old(atten),
        !(*cmd matches Command::Control(Action::Lna1Power(_))) ==> *final(lna1) == *old(lna1),
        !(*cmd matches Command::Control(Action::Lna2Power(_))) ==> *final(lna2) == *old(lna2),
        !(*cmd matches Command::Control(Action::SetCal1(_))) ==> *final(cal1) == *old(cal1),
        !(*cmd matches Command::Control(Action::SetCal2(_))) ==> *final(cal2) == *old(cal2),
{
    match cmd {
        Command::Monitor => {
            update_monitor_payload(&mut state.last_monitor, readings);
            (Response::Monitor(state.last_monitor), Ok(()))
        },
        Command::Control(action) => {
            let hw: Result<(), HwFault<LEE, L1::Error, L2::Error, C1::Error, C2::Error>> = match action {
                Action::SetIfLevel(l) => {
                    state.if_good_threshold = *l;
                    Ok(())
                },
                Action::Lna1Power(en) => {
                    // A fault is handed back for the caller to log, never
                    // surfaced: the acknowledgement is sent regardless.
                    match drive_pin(lna1, *en) {
                        Ok(_) => Ok(()),
                        Err(e) => Err(HwFault::Lna1(e)),
                    }
                },
                Action::Lna2Power(en) => {
                    match drive_pin(lna2, *en) {
                        Ok(_) => Ok(()),
                        Err(e) => Err(HwFault::Lna2(e)),
                    }
                },
                Action::SetAtten(l) => {
                    match atten.set_attenuation(*l) {
                        Ok(_) => Ok(()),
                        Err(e) => Err(HwFault::Atten(e)),
                    }
                },
                Action::SetCal1(en) => {
                    match cal1.set_tone(*en) {
                        Ok(_) => Ok(()),
                        Err(e) => Err(HwFault::Cal1(e)),
                    }
                },
                Action::SetCal2(en) => {
                    match cal2.set_tone(*en) {
                        Ok(_) => Ok(()),
                        Err(e) => Err(HwFault::Cal2(e)),
                    }
                },
            };
            (Response::Ack, hw)
        },
    }
}

// ---------------------------------------------------------------------------
// The frame pipeline around the dispatcher.
// ---------------------------------------------------------------------------

/// The command a raw frame carries, if it carries one.
pub open spec fn spec_frame_command(frame: Seq<u8>) -> Option<Command> {
    match spec_cobs_decode(frame) {
        Some(p) => spec_dec_command(p),
        None => None,
    }
}

/// The response a raw frame carries, if it carries one (host side).
pub open spec fn spec_frame_response(frame: Seq<u8>) -> Option<Response> {
    match spec_cobs_decode(frame) {
        Some(p) => spec_dec_response(p),
        None => None,
    }
}

/// Whether a raw frame carries a command that drives the LNA1 enable line.
pub open spec fn frame_drives_lna1(f: Seq<u8>) -> bool {
    spec_frame_command(f) matches Some(Command::Control(Action::Lna1Power(_)))
}

/// Whether a raw frame carries a command that drives the LNA2 enable line.
pub open spec fn frame_drives_lna2(f: Seq<u8>) -> bool {
    spec_frame_command(f) matches Some(Command::Control(Action::Lna2Power(_)))
}

/// Whether a raw frame carries a command that switches calibration tone 1.
pub open spec fn frame_drives_cal1(f: Seq<u8>) -> bool {
    spec_frame_command(f) matches Some(Command::Control(Action::SetCal1(_)))
}

/// Whether a raw frame carries a command that switches calibration tone 2.
pub open spec fn frame_drives_cal2(f: Seq<u8>) -> bool {
    spec_frame_command(f) matches Some(Command::Control(Action::SetCal2(_)))
}

/// Whether a raw frame carries an attenuation command.
pub open spec fn frame_drives_atten(f: Seq<u8>) -> bool {
    spec_frame_command(f) matches Some(Command::Control(Action::SetAtten(_)))
}

/// The register byte a raw frame's attenuation command would shift, if it
/// carries one.
pub open spec fn frame_atten_register(f: Seq<u8>) -> Option<u8> {
    match spec_frame_command(f) {
        Some(Command::Control(Action::SetAtten(l))) => Some(spec_atten_register(l.bits) as u8),
        _ => None,
    }
}

/// Handle one raw frame from the accumulator: unstuff it, decode the
/// command, dispatch, and return the stuffed, delimited response frame
/// together with the dispatch's hardware outcome for the caller to log.  A
/// malformed frame is dropped: no response, no fault, no state change.
pub fn handle_frame<LE1, LE2, SPI, LEE, L1, L2, C1, C2>(
    frame: &[u8],
    state: &mut State,
    readings: &MonitorReadings,
    atten: &mut DualHMC624A<LE1, LE2, SPI>,
    lna1: &mut L1,
    lna2: &mut L2,
    cal1: &mut C1,
    cal2: &mut C2,
) -> (out: (
    Option<Vec<u8>>,
    Result<(), HwFault<LEE, L1::Error, L2::Error, C1::Error, C2::Error>>,
)) where
    SPI: ShiftBus,
    LE1: OutPin<Error = LEE>,
    LE2: OutPin<Error = LEE>,
    L1: OutPin,
    L2: OutPin,
    C1: ToneOutput,
    C2: ToneOutput,

    ensures
        (match spec_frame_command(frame@) {
            Some(cmd) => {
                &&& out.0 matches Some(v) && v@ == spec_cobs_encode(
                    spec_enc_response(spec_response_for(cmd, *old(state), *readings)),
                ) + seq![0u8]
                &&& *final(state) == spec_state_after(cmd, *old(state), *readings)
                &&& (cmd matches Command::Monitor || cmd matches Command::Control(
                    Action::SetIfLevel(_),
                )) ==> out.1 is Ok
                &&& cmd matches Command::Control(Action::Lna1Power(en)) ==> {
                    &&& out.1 is Ok ==> final(lna1).is_high() == en
                    &&& out.1 matches Err(f) ==> f is Lna1
                }
                &&& cmd matches Command::Control(Action::Lna2Power(en)) ==> {
                    &&& out.1 is Ok ==> final(lna2).is_high() == en
                    &&& out.1 matches Err(f) ==> f is Lna2
                }
                &&& cmd matches Command::Control(Action::SetCal1(en)) ==> {
                    &&& out.1 is Ok ==> final(cal1).tone_on() == en
                    &&& out.1 matches Err(f) ==> f is Cal1
                }
                &&& cmd matches Command::Control(Action::SetCal2(en)) ==> {
                    &&& out.1 is Ok ==> final(cal2).tone_on() == en
                    &&& out.1 matches Err(f) ==> f is Cal2
                }
                &&& cmd matches Command::Control(Action::SetAtten(l)) ==> {
                    &&& out.1 is Ok ==> {
                        &&& final(atten).shifted() == old(atten).shifted().push(
                            spec_atten_register(l.bits) as u8,
                        )
                        &&& final(atten).le1_high()
                        &&& final(atten).le2_high()
                    }
                    &&& out.1 matches Err(f) ==> f is Atten
                    &&& (final(atten).shifted() == old(atten).shifted()
                        || final(atten).shifted() == old(atten).shifted().push(
                        spec_atten_register(l.bits) as u8,
                    ))
                }
                &&& !(cmd matches Command::Control(Action::SetAtten(_))) ==> *final(atten)
                    == *old(atten)
                &&& !(cmd matches Command::Control(Action::Lna1Power(_))) ==> *final(lna1)
                    == *old(lna1)
                &&& !(cmd matches Command::Control(Action::Lna2Power(_))) ==> *final(lna2)
                    == *old(lna2)
                &&& !(cmd matches Command::Control(Action::SetCal1(_))) ==> *final(cal1) == *old(cal1)
                &&& !(cmd matches Command::Control(Action::SetCal2(_))) ==> *final(cal2) == *old(cal2)
            },
            None => {
                &&& out.0 is None
                &&& out.1 is Ok
                &&& *final(state) == *old(state)
                &&& *final(atten) == *old(atten)
                &&& *final(lna1) == *old(lna1)
                &&& *final(lna2) == *old(lna2)
                &&& *final(cal1) == *old(cal1)
                &&& *final(cal2) == *old(cal2)
            },
        }),
{
    let payload = match cobs_decode(frame) {
        Ok(p) => p,
        Err(_) => {
            return (None, Ok(()));
        },
    };
    let cmd = match decode_command(payload.as_slice()) {
        Ok(c) => c,
        Err(_) => {
            return (None, Ok(()));
        },
    };
    let (resp, hw) = handle_command(&cmd, state, readings, atten, lna1, lna2, cal1, cal2);
    let enc = encode_response(&resp);
    proof {
        lemma_encoding_small(cmd, resp);
    }
    let mut framed = cobs_encode(enc.as_slice());
    framed.push(0);
    proof {
        assert(framed@ =~= spec_cobs_encode(spec_enc_response(resp)) + seq![0u8]);
    }
    (Some(framed), hw)
}

/// Stuff and delimit one command for the wire (host side).
pub fn encode_command_frame(c: &Command) -> (v: Vec<u8>)
    ensures
        v@ == spec_cobs_encode(spec_enc_command(*c)) + seq![0u8],
{
    let enc = encode_command(c);
    proof {
        lemma_encoding_small(*c, Response::Ack);
    }
    let mut framed = cobs_encode(enc.as_slice());
    framed.push(0);
    proof {
        assert(framed@ =~= spec_cobs_encode(spec_enc_command(*c)) + seq![0u8]);
    }
    framed
}

/// Stuff and delimit one response for the wire.
pub fn encode_response_frame(r: &Response) -> (v: Vec<u8>)
    ensures
        v@ == spec_cobs_encode(spec_enc_response(*r)) + seq![0u8],
{
    let enc = encode_response(r);
    proof {
        lemma_encoding_small(Command::Monitor, *r);
    }
    let mut framed = cobs_encode(enc.as_slice());
    framed.push(0);
    proof {
        assert(framed@ =~= spec_cobs_encode(spec_enc_response(*r)) + seq![0u8]);
    }
    framed
}

/// Unstuff one raw frame and decode the response it carries (host side).
pub fn decode_response_frame(frame: &[u8]) -> (r: Result<Response, DecodeError>)
    ensures
        (match r {
            Ok(x) => spec_frame_response(frame@) == Some(x),
            Err(e) => spec_frame_response(frame@) is None && e is Malformed,
        }),
{
    let payload = match cobs_decode(frame) {
        Ok(p) => p,
        Err(e) => {
            return Err(e);
        },
    };
    decode_response(payload.as_slice())
}

// ---------------------------------------------------------------------------
// Laws tying the pieces together.
// ---------------------------------------------------------------------------

/// Law: one encoded command frame, fed from a clean accumulator, yields
/// exactly one raw frame, leaves the accumulator clean again, and that frame
/// decodes back to the very command — the whole wire path is lossless.
pub proof fn lemma_wire_round_trip(c: Command)
    ensures
        acc_events(acc_init(), spec_cobs_encode(spec_enc_command(c)) + seq![0u8]) == seq![
            spec_cobs_encode(spec_enc_command(c)),
        ],
        acc_run(acc_init(), spec_cobs_encode(spec_enc_command(c)) + seq![0u8]) == acc_init(),
        spec_frame_command(spec_cobs_encode(spec_enc_command(c))) == Some(c),
{
    lemma_encoding_small(c, Response::Ack);
    lemma_cobs_round_trip(spec_enc_command(c));
    lemma_acc_single_frame(spec_cobs_encode(spec_enc_command(c)));
    lemma_command_round_trip(c);
}

/// The same for a response frame, as read back on the host side.
pub proof fn lemma_wire_round_trip_response(r: Response)
    ensures
        acc_events(acc_init(), spec_cobs_encode(spec_enc_response(r)) + seq![0u8]) == seq![
            spec_cobs_encode(spec_enc_response(r)),
        ],
        acc_run(acc_init(), spec_cobs_encode(spec_enc_response(r)) + seq![0u8]) == acc_init(),
        spec_frame_response(spec_cobs_encode(spec_enc_response(r))) == Some(r),
{
    lemma_encoding_small(Command::Monitor, r);
    lemma_cobs_round_trip(spec_enc_response(r));
    lemma_acc_single_frame(spec_cobs_encode(spec_enc_response(r)));
    lemma_response_round_trip(r);
}

/// Law: a corrupted stretch of the stream cannot desynchronize the decoder.
/// Whatever garbage precedes it — a frame with flipped bytes, noise, an
/// oversize run — once that stretch ends at a delimiter, the next encoded
/// frame comes through whole and decodes to its command.
pub proof fn lemma_recovery_after_corruption(junk: Seq<u8>, c: Command)
    requires
        junk.len() > 0,
        junk[junk.len() - 1] == 0,
    ensures
        acc_events(acc_init(), junk + (spec_cobs_encode(spec_enc_command(c)) + seq![0u8]))
            == acc_events(acc_init(), junk) + seq![spec_cobs_encode(spec_enc_command(c))],
        spec_frame_command(spec_cobs_encode(spec_enc_command(c))) == Some(c),
{
    lemma_acc_resync(acc_init(), junk, spec_cobs_encode(spec_enc_command(c)) + seq![0u8]);
    lemma_wire_round_trip(c);
}

/// Law: changing any single byte of a complete encoded frame, other than its
/// closing delimiter, never desynchronizes the stream — the next encoded
/// frame still comes through whole and decodes to its own command.  (What
/// the corrupted frame itself yields is dropped wherever it no longer
/// decodes.)
pub proof fn lemma_one_byte_corruption_recovers(c1: Command, k: int, b: u8, c2: Command)
    requires
        0 <= k < spec_cobs_encode(spec_enc_command(c1)).len(),
    ensures
        ({
            let damaged = (spec_cobs_encode(spec_enc_command(c1)) + seq![0u8]).update(k, b);
            let next = spec_cobs_encode(spec_enc_command(c2));
            &&& acc_events(acc_init(), damaged + (next + seq![0u8])) == acc_events(
                acc_init(),
                damaged,
            ) + seq![next]
            &&& spec_frame_command(next) == Some(c2)
        }),
{
    let framed = spec_cobs_encode(spec_enc_command(c1)) + seq![0u8];
    let damaged = framed.update(k, b);
    assert(damaged.len() == framed.len());
    assert(damaged[damaged.len() - 1] == framed[framed.len() - 1]);
    assert(framed[framed.len() - 1] == 0);
    lemma_acc_resync(acc_init(), damaged, spec_cobs_encode(spec_enc_command(c2)) + seq![0u8]);
    lemma_wire_round_trip(c2);
}

/// Law: a threshold update takes effect immediately — after `SetIfLevel(l)`
/// the state holds `l`, the snapshot is untouched, and the very next
/// background decision compares the latest IF samples against `l` itself.
pub proof fn lemma_threshold_immediate(prev: State, r: MonitorReadings, l: F32Bits)
    ensures
        spec_state_after(Command::Control(Action::SetIfLevel(l)), prev, r).if_good_threshold == l,
        spec_state_after(Command::Control(Action::SetIfLevel(l)), prev, r).last_monitor
            == prev.last_monitor,
        spec_led_states(spec_state_after(Command::Control(Action::SetIfLevel(l)), prev, r)) == ((
        spec_f32_ge(prev.last_monitor.if1_power.bits, l.bits),
        spec_f32_ge(prev.last_monitor.if2_power.bits, l.bits),
        )),
{
}

/// Law: a monitor response is fresh — it serves exactly the snapshot merged
/// from this dispatch's own readings, every field whose read succeeded
/// equals that reading, and the same snapshot is installed in the state.
pub proof fn lemma_monitor_fresh(prev: State, r: MonitorReadings)
    ensures
        spec_response_for(Command::Monitor, prev, r) == Response::Monitor(
            spec_merge(prev.last_monitor, r),
        ),
        spec_state_after(Command::Monitor, prev, r).last_monitor == spec_merge(
            prev.last_monitor,
            r,
        ),
        r.if1_power is Some ==> spec_merge(prev.last_monitor, r).if1_power == r.if1_power.unwrap(),
        r.if2_power is Some ==> spec_merge(prev.last_monitor, r).if2_power == r.if2_power.unwrap(),
        r.ic_temp is Some ==> spec_merge(prev.last_monitor, r).ic_temp == r.ic_temp.unwrap(),
        r.lna1_voltage is Some ==> spec_merge(prev.last_monitor, r).lna1_power.voltage
            == r.lna1_voltage.unwrap(),
        r.lna1_current is Some ==> spec_merge(prev.last_monitor, r).lna1_power.current
            == r.lna1_current.unwrap(),
        r.lna2_voltage is Some ==> spec_merge(prev.last_monitor, r).lna2_power.voltage
            == r.lna2_voltage.unwrap(),
        r.lna2_current is Some ==> spec_merge(prev.last_monitor, r).lna2_power.current
            == r.lna2_current.unwrap(),
        r.analog_voltage is Some ==> spec_merge(prev.last_monitor, r).analog_power.voltage
            == r.analog_voltage.unwrap(),
        r.analog_current is Some ==> spec_merge(prev.last_monitor, r).analog_power.current
            == r.analog_current.unwrap(),
{
}

} // verus!
