//! Resource arbiter: the single owner of the shared device state, the frame
//! accumulator, and the shared actuators, and the only gateway to them for
//! the system's two execution contexts.
//!
//! On the board, the command dispatcher runs in the receive-interrupt
//! context while the status pass runs in the background context, serialized
//! by a priority-ceiling lock around the shared state.  Here that discipline
//! is carried by ownership: each context is one method that borrows the
//! arbiter exclusively and runs to completion.  No pass can observe a torn
//! snapshot or a half-applied threshold, there is at most one outstanding
//! request, and responses leave in exactly the order complete frames
//! arrive — which is what `spec_pump` pins down.
use vstd::prelude::*;

use crate::atten::{DualHMC624A, OutPin, ShiftBus, ToneOutput, spec_atten_register};
use crate::cobs::{AccModel, FrameAccumulator, acc_events, acc_init, acc_run, acc_wf,
    spec_cobs_encode};
use crate::codec::spec_enc_response;
use crate::mnc::{DEFAULT_IF_GOOD_BITS, MonitorReadings, State, frame_atten_register,
    frame_drives_atten, frame_drives_cal1, frame_drives_cal2, frame_drives_lna1,
    frame_drives_lna2, handle_frame, refresh_status_leds, spec_frame_command, spec_led_states,
    spec_merge, spec_response_for, spec_state_after, update_monitor_payload};
use crate::transport::{Action, Command, MonitorPayload};

verus! {

/// The transcript of one interrupt activation: starting from `st`, apply
/// every decodable frame in order and collect the delimited response frame
/// each one produces.  Undecodable frames are dropped and answer nothing.
pub open spec fn spec_pump(frames: Seq<Seq<u8>>, st: State, r: MonitorReadings) -> (
    State,
    Seq<Seq<u8>>,
)
    decreases frames.len(),
{
    if frames.len() == 0 {
        (st, Seq::empty())
    } else {
        match spec_frame_command(frames[0]) {
            Some(cmd) => {
                let rest = spec_pump(frames.skip(1), spec_state_after(cmd, st, r), r);
                (
                    rest.0,
                    seq![
                        spec_cobs_encode(spec_enc_response(spec_response_for(cmd, st, r)))
                            + seq![0u8],
                    ] + rest.1,
                )
            },
            None => spec_pump(frames.skip(1), st, r),
        }
    }
}

/// The arbiter itself: device state, accumulator, and every shared actuator.
pub struct FemArbiter<LE1, LE2, SPI, L1, L2, C1, C2> {
    state: State,
    acc: FrameAccumulator,
    atten: DualHMC624A<LE1, LE2, SPI>,
    lna1: L1,
    lna2: L2,
    cal1: C1,
    cal2: C2,
}

impl<LE1, LE2, SPI, LEE, L1, L2, C1, C2> FemArbiter<LE1, LE2, SPI, L1, L2, C1, C2> where
    SPI: ShiftBus,
    LE1: OutPin<Error = LEE>,
    LE2: OutPin<Error = LEE>,
    L1: OutPin,
    L2: OutPin,
    C1: ToneOutput,
    C2: ToneOutput,
 {
    /// The shared device state, as the contracts see it.
    pub closed spec fn device(&self) -> State {
        self.state
    }

    /// The accumulator's abstract state.
    pub closed spec fn accum(&self) -> AccModel {
        self.acc@
    }

    pub closed spec fn wf(&self) -> bool {
        acc_wf(self.acc@)
    }

    /// The attenuator bus transcript, as the contracts see it.
    pub closed spec fn shifted(&self) -> Seq<u8> {
        self.atten.shifted()
    }

    /// The attenuator, both latch lines included.
    pub closed spec fn atten(&self) -> DualHMC624A<LE1, LE2, SPI> {
        self.atten
    }

    pub closed spec fn lna1(&self) -> L1 {
        self.lna1
    }

    pub closed spec fn lna2(&self) -> L2 {
        self.lna2
    }

    pub closed spec fn cal1(&self) -> C1 {
        self.cal1
    }

    pub closed spec fn cal2(&self) -> C2 {
        self.cal2
    }

    /// Take ownership of the actuators and start from power-up defaults.
    pub fn new(
        atten: DualHMC624A<LE1, LE2, SPI>,
        lna1: L1,
        lna2: L2,
        cal1: C1,
        cal2: C2,
    ) -> (r: Self)
        ensures
            r.wf(),
            r.device().if_good_threshold.bits == DEFAULT_IF_GOOD_BITS,
            r.device().last_monitor == MonitorPayload::spec_zeroed(),
            r.accum() == acc_init(),
    {
        FemArbiter {
            state: State::default(),
            acc: FrameAccumulator::new(),
            atten,
            lna1,
            lna2,
            cal1,
            cal2,
        }
    }

    /// Interrupt context: consume one received chunk, dispatch every frame
    /// it completes, and hand back the response frames to transmit, in
    /// arrival order, together with how many dispatches reported a hardware
    /// fault, for the activation's log.  `readings` is the sensor pass taken
    /// for this activation.  Beyond the exact response transcript, the bus
    /// bound holds: the attenuator bus grows only by register values of
    /// attenuation commands decoded in this very chunk, and an actuator that
    /// no frame of the chunk commands is left untouched.
    #[verifier::loop_isolation(false)]
    pub fn on_received(&mut self, chunk: &[u8], readings: &MonitorReadings) -> (out: (
        Vec<Vec<u8>>,
        usize,
    ))
        requires
            old(self).wf(),
        ensures
            final(self).wf(),
            final(self).accum() == acc_run(old(self).accum(), chunk@),
            ({
                let ev = acc_events(old(self).accum(), chunk@);
                &&& final(self).device() == spec_pump(ev, old(self).device(), *readings).0
                &&& out.0@.map_values(|d: Vec<u8>| d@) == spec_pump(
                    ev,
                    old(self).device(),
                    *readings,
                ).1
                &&& out.1 <= ev.len()
                &&& old(self).shifted().is_prefix_of(final(self).shifted())
                &&& forall|k: int|
                    old(self).shifted().len() <= k < final(self).shifted().len() ==> (exists|
                        j: int,
                    |
                        0 <= j < ev.len() && frame_atten_register(#[trigger] ev[j]) == Some(
                            #[trigger] final(self).shifted()[k],
                        ))
                &&& (forall|j: int| 0 <= j < ev.len() ==> !frame_drives_atten(#[trigger] ev[j]))
                    ==> final(self).atten() == old(self).atten()
                &&& (forall|j: int| 0 <= j < ev.len() ==> !frame_drives_lna1(#[trigger] ev[j]))
                    ==> final(self).lna1() == old(self).lna1()
                &&& (forall|j: int| 0 <= j < ev.len() ==> !frame_drives_lna2(#[trigger] ev[j]))
                    ==> final(self).lna2() == old(self).lna2()
                &&& (forall|j: int| 0 <= j < ev.len() ==> !frame_drives_cal1(#[trigger] ev[j]))
                    ==> final(self).cal1() == old(self).cal1()
                &&& (forall|j: int| 0 <= j < ev.len() ==> !frame_drives_cal2(#[trigger] ev[j]))
                    ==> final(self).cal2() == old(self).cal2()
            }),
    {
        let frames = self.acc.drain_frames(chunk);
        let ghost fseq = frames@.map_values(|d: Vec<u8>| d@);
        let ghost st0 = self.state;
        let ghost target = spec_pump(fseq, st0, *readings);
        let ghost shift0 = self.atten.shifted();
        let mut out: Vec<Vec<u8>> = Vec::new();
        let mut faults: usize = 0;
        let mut i: usize = 0;
        proof {
            assert(fseq.skip(0) =~= fseq);
            assert(out@.map_values(|d: Vec<u8>| d@) =~= Seq::<Seq<u8>>::empty());
            assert(shift0 =~= shift0.subrange(0, shift0.len() as int));
        }
        while i < frames.len()
            invariant
                i <= frames@.len(),
                self.accum() == acc_run(old(self).accum(), chunk@),
                self.wf(),
                spec_pump(fseq.skip(i as int), self.device(), *readings).0 == target.0,
                out@.map_values(|d: Vec<u8>| d@) + spec_pump(
                    fseq.skip(i as int),
                    self.device(),
                    *readings,
                ).1 == target.1,
                faults <= i,
                shift0.is_prefix_of(self.atten.shifted()),
                forall|k: int|
                    shift0.len() <= k < self.atten.shifted().len() ==> (exists|j: int|
                        0 <= j < i && frame_atten_register(#[trigger] fseq[j]) == Some(
                            #[trigger] self.atten.shifted()[k],
                        )),
                (forall|j: int| 0 <= j < i ==> !frame_drives_atten(#[trigger] fseq[j]))
                    ==> self.atten == old(self).atten(),
                (forall|j: int| 0 <= j < i ==> !frame_drives_lna1(#[trigger] fseq[j]))
                    ==> self.lna1 == old(self).lna1(),
                (forall|j: int| 0 <= j < i ==> !frame_drives_lna2(#[trigger] fseq[j]))
                    ==> self.lna2 == old(self).lna2(),
                (forall|j: int| 0 <= j < i ==> !frame_drives_cal1(#[trigger] fseq[j]))
                    ==> self.cal1 == old(self).cal1(),
                (forall|j: int| 0 <= j < i ==> !frame_drives_cal2(#[trigger] fseq[j]))
                    ==> self.cal2 == old(self).cal2(),
            decreases frames@.len() - i,
        {
            let ghost st_pre = self.state;
            let ghost shift_pre = self.atten.shifted();
            let fr: &Vec<u8> = &frames[i];
            proof {
                assert(fseq.skip(i as int)[0] == fseq[i as int]);
                assert(fseq[i as int] == fr@);
                assert(fseq.skip(i as int).skip(1) =~= fseq.skip(i as int + 1));
            }
            let (resp, hw) = handle_frame(
                fr.as_slice(),
                &mut self.state,
                readings,
                &mut self.atten,
                &mut self.lna1,
                &mut self.lna2,
                &mut self.cal1,
                &mut self.cal2,
            );
            match resp {
                Some(v) => {
                    let ghost cmd = spec_frame_command(fr@).unwrap();
                    proof {
                        let pre = out@.map_values(|d: Vec<u8>| d@);
                        let frame_out = spec_cobs_encode(
                            spec_enc_response(spec_response_for(cmd, st_pre, *readings)),
                        ) + seq![0u8];
                        assert(spec_pump(fseq.skip(i as int), st_pre, *readings).1 == seq![
                            frame_out,
                        ] + spec_pump(fseq.skip(i as int + 1), self.state, *readings).1);
                        assert(pre + (seq![frame_out] + spec_pump(
                            fseq.skip(i as int + 1),
                            self.state,
                            *readings,
                        ).1) =~= (pre + seq![frame_out]) + spec_pump(
                            fseq.skip(i as int + 1),
                            self.state,
                            *readings,
                        ).1);
                        assert(v@ == frame_out);
                    }
                    out.push(v);
                    proof {
                        assert(out@.map_values(|d: Vec<u8>| d@) =~= out@.map_values(
                            |d: Vec<u8>| d@,
                        ));
                    }
                },
                None => {
                },
            }
            if hw.is_err() {
                faults = faults + 1;
            }
            proof {
                // The bus bound: only an attenuation frame extends the
                // transcript, and only by its own register byte.
                let new_shift = self.atten.shifted();
                match spec_frame_command(fseq[i as int]) {
                    Some(cmd) => {
                        match cmd {
                            Command::Control(Action::SetAtten(l)) => {
                                let reg = spec_atten_register(l.bits) as u8;
                                assert(frame_atten_register(fseq[i as int]) == Some(reg));
                                assert(new_shift == shift_pre || new_shift == shift_pre.push(
                                    reg,
                                ));
                            },
                            _ => {
                                assert(new_shift == shift_pre);
                            },
                        }
                    },
                    None => {
                        assert(new_shift == shift_pre);
                    },
                }
                if new_shift != shift_pre {
                    assert(shift_pre =~= new_shift.subrange(0, shift_pre.len() as int));
                    assert(shift0 =~= new_shift.subrange(0, shift0.len() as int));
                }
                assert(shift0.is_prefix_of(new_shift));
                assert forall|k: int| shift0.len() <= k < new_shift.len() implies (exists|j: int|
                    0 <= j < i + 1 && frame_atten_register(#[trigger] fseq[j]) == Some(
                        #[trigger] new_shift[k],
                    )) by {
                    if k < shift_pre.len() {
                        assert(new_shift[k] == shift_pre[k]);
                        let j0 = choose|j: int|
                            0 <= j < i && frame_atten_register(#[trigger] fseq[j]) == Some(
                                shift_pre[k],
                            );
                        assert(0 <= j0 < i + 1 && frame_atten_register(fseq[j0]) == Some(
                            new_shift[k],
                        ));
                    } else {
                        assert(frame_atten_register(fseq[i as int]) == Some(new_shift[k]));
                    }
                }
                // Actuators no processed frame commands are untouched.
                if forall|j: int| 0 <= j < i + 1 ==> !frame_drives_atten(#[trigger] fseq[j]) {
                    assert(!frame_drives_atten(fseq[i as int]));
                    assert(self.atten == old(self).atten());
                }
                if forall|j: int| 0 <= j < i + 1 ==> !frame_drives_lna1(#[trigger] fseq[j]) {
                    assert(!frame_drives_lna1(fseq[i as int]));
                    assert(self.lna1 == old(self).lna1());
                }
                if forall|j: int| 0 <= j < i + 1 ==> !frame_drives_lna2(#[trigger] fseq[j]) {
                    assert(!frame_drives_lna2(fseq[i as int]));
                    assert(self.lna2 == old(self).lna2());
                }
                if forall|j: int| 0 <= j < i + 1 ==> !frame_drives_cal1(#[trigger] fseq[j]) {
                    assert(!frame_drives_cal1(fseq[i as int]));
                    assert(self.cal1 == old(self).cal1());
                }
                if forall|j: int| 0 <= j < i + 1 ==> !frame_drives_cal2(#[trigger] fseq[j]) {
                    assert(!frame_drives_cal2(fseq[i as int]));
                    assert(self.cal2 == old(self).cal2());
                }
            }
            i += 1;
        }
        proof {
            assert(fseq.skip(frames@.len() as int) =~= Seq::<Seq<u8>>::empty());
            assert(out@.map_values(|d: Vec<u8>| d@) + Seq::<Seq<u8>>::empty() =~= out@.map_values(
                |d: Vec<u8>| d@,
            ));
        }
        (out, faults)
    }

    /// Background context: refresh the snapshot from this pass's readings
    /// and drive both status outputs against the current threshold.
    pub fn background_pass<P1: OutPin, P2: OutPin>(
        &mut self,
        readings: &MonitorReadings,
        led1: &mut P1,
        led2: &mut P2,
    ) -> (r: (Result<(), P1::Error>, Result<(), P2::Error>))
        ensures
            final(self).wf() == old(self).wf(),
            final(self).accum() == old(self).accum(),
            final(self).device() == (State {
                if_good_threshold: old(self).device().if_good_threshold,
                last_monitor: spec_merge(old(self).device().last_monitor, *readings),
            }),
            final(self).atten() == old(self).atten(),
            final(self).lna1() == old(self).lna1(),
            final(self).lna2() == old(self).lna2(),
            final(self).cal1() == old(self).cal1(),
            final(self).cal2() == old(self).cal2(),
            r.0 is Ok ==> final(led1).is_high() == spec_led_states(final(self).device()).0,
            r.1 is Ok ==> final(led2).is_high() == spec_led_states(final(self).device()).1,
    {
        update_monitor_payload(&mut self.state.last_monitor, readings);
        refresh_status_leds(&self.state, led1, led2)
    }
}

} // verus!
