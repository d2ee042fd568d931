//! Finding frames in the stream of level changes.
use vstd::prelude::*;
use crate::error::DecodeError;
use crate::reading::decoded;
use crate::record::{decode, record_text};
use crate::sampler::Edge;
use crate::timing::{
    in_range, is_data_gap, is_preamble, is_pulse, is_signal_end, MAX_HIGH, MIN_LOW, PREAMBLE_MAX,
    PREAMBLE_MIN, PULSE_MAX, PULSE_MIN, SIGNAL_END_MAX, SIGNAL_END_MIN,
};

verus! {

/// What the receiver waits for next.
#[derive(Debug, Clone, Copy, PartialEq, Eq, Structural)]
pub enum WaitingFor {
    /// The pulse that opens a frame.
    PulseIdle,
    /// The long gap behind that pulse.
    Preamble,
    /// The pulse that opens a bit.
    Pulse,
    /// The gap behind that pulse: a bit, or the end of the frame.
    Data,
}

/// The state of a receiver: what it waits for, and the gaps of the frame
/// that it is collecting.
#[verifier::ext_equal]
pub struct ReceiverState {
    pub phase: WaitingFor,
    pub samples: Seq<u64>,
}

/// The state in which a receiver starts.
pub open spec fn idle() -> ReceiverState {
    ReceiverState { phase: WaitingFor::PulseIdle, samples: Seq::empty() }
}

/// The state after one level change, and the frame that this change
/// completed, if it completed one.
pub open spec fn advance(s: ReceiverState, edge: Edge) -> (ReceiverState, Option<Seq<u64>>) {
    let gave_up = ReceiverState { phase: WaitingFor::PulseIdle, samples: Seq::empty() };
    match s.phase {
        WaitingFor::PulseIdle => if edge.is_falling() && is_pulse(edge.duration) {
            (ReceiverState { phase: WaitingFor::Preamble, samples: s.samples }, None)
        } else {
            (s, None)
        },
        WaitingFor::Preamble => if is_preamble(edge.duration) {
            (ReceiverState { phase: WaitingFor::Pulse, samples: s.samples }, None)
        } else {
            (ReceiverState { phase: WaitingFor::PulseIdle, samples: s.samples }, None)
        },
        WaitingFor::Pulse => if is_pulse(edge.duration) {
            (ReceiverState { phase: WaitingFor::Data, samples: s.samples }, None)
        } else {
            (gave_up, None)
        },
        WaitingFor::Data => if is_signal_end(edge.duration) {
            (
                gave_up,
                if s.samples.len() > 0 {
                    Some(s.samples)
                } else {
                    None
                },
            )
        } else if is_data_gap(edge.duration) {
            (ReceiverState { phase: WaitingFor::Pulse, samples: s.samples.push(edge.duration) }, None)
        } else {
            (gave_up, None)
        },
    }
}

/// What holds of every state that a receiver reaches: while it waits for the
/// start of a frame it holds no gaps, and every gap that it holds lies
/// between the shortest zero and the longest one.
pub open spec fn well_formed(s: ReceiverState) -> bool {
    &&& (s.phase is PulseIdle || s.phase is Preamble) ==> s.samples.len() == 0
    &&& forall|i: int| 0 <= i < s.samples.len() ==> is_data_gap(#[trigger] s.samples[i])
}

/// The state after a run of level changes.
pub open spec fn run(s: ReceiverState, edges: Seq<Edge>) -> ReceiverState
    decreases edges.len(),
{
    if edges.len() == 0 {
        s
    } else {
        advance(run(s, edges.drop_last()), edges.last()).0
    }
}

/// The frames that a run of level changes completed, in their order.
pub open spec fn frames(s: ReceiverState, edges: Seq<Edge>) -> Seq<Seq<u64>>
    decreases edges.len(),
{
    if edges.len() == 0 {
        Seq::empty()
    } else {
        let earlier = frames(s, edges.drop_last());
        match advance(run(s, edges.drop_last()), edges.last()).1 {
            Some(frame) => earlier.push(frame),
            None => earlier,
        }
    }
}

/// The pulse that opens bit `i` of a transmission.
pub open spec fn bit_pulse(edges: Seq<Edge>, i: int) -> Edge {
    edges[2 * i + 2]
}

/// The gap of bit `i` of a transmission.
pub open spec fn bit_gap(edges: Seq<Edge>, i: int) -> Edge {
    edges[2 * i + 3]
}

/// Whether `edges` are the level changes of one undisturbed transmission of
/// `gaps`: a pulse and the long gap behind it, then for each bit a pulse and
/// its gap, then a pulse and the gap that closes the frame.
pub open spec fn is_transmission(edges: Seq<Edge>, gaps: Seq<u64>) -> bool {
    &&& edges.len() == 2 * gaps.len() + 4
    &&& edges[0].is_falling()
    &&& is_pulse(edges[0].duration)
    &&& is_preamble(edges[1].duration)
    &&& forall|i: int|
        0 <= i < gaps.len() ==> is_pulse((#[trigger] bit_pulse(edges, i)).duration)
    &&& forall|i: int|
        0 <= i < gaps.len() ==> (#[trigger] bit_gap(edges, i)).duration == gaps[i] && is_data_gap(
            gaps[i],
        )
    &&& is_pulse(edges[edges.len() - 2].duration)
    &&& is_signal_end(edges[edges.len() - 1].duration)
}

/// Every level change keeps a state well formed, and a frame is completed
/// only by a closing gap behind a bit pulse: it then holds at least one gap,
/// and each of its gaps lies between the shortest zero and the longest one.
pub proof fn lemma_advance_keeps_well_formed(s: ReceiverState, edge: Edge)
    requires
        well_formed(s),
    ensures
        well_formed(advance(s, edge).0),
        advance(s, edge).1 matches Some(frame) ==> s.phase is Data && is_signal_end(edge.duration)
            && frame == s.samples && frame.len() > 0 && forall|i: int|
            0 <= i < frame.len() ==> is_data_gap(#[trigger] frame[i]),
{
}

/// Every state that a receiver reaches from a well-formed one is well
/// formed, and each frame that it completes on the way holds at least one
/// gap and only gaps between the shortest zero and the longest one.
pub proof fn lemma_run_keeps_well_formed(s: ReceiverState, edges: Seq<Edge>)
    requires
        well_formed(s),
    ensures
        well_formed(run(s, edges)),
        forall|n: int, i: int|
            0 <= n < frames(s, edges).len() && 0 <= i < frames(s, edges)[n].len() ==> is_data_gap(
                #[trigger] frames(s, edges)[n][i],
            ),
        forall|n: int| 0 <= n < frames(s, edges).len() ==> (#[trigger] frames(s, edges)[n]).len() > 0,
    decreases edges.len(),
{
    if edges.len() > 0 {
        let earlier = frames(s, edges.drop_last());
        lemma_run_keeps_well_formed(s, edges.drop_last());
        lemma_advance_keeps_well_formed(run(s, edges.drop_last()), edges.last());
        assert forall|n: int| 0 <= n < frames(s, edges).len() implies (#[trigger] frames(
            s,
            edges,
        )[n]).len() > 0 && forall|i: int|
            0 <= i < frames(s, edges)[n].len() ==> is_data_gap(#[trigger] frames(s, edges)[n][i]) by {
            if n < earlier.len() {
                assert(frames(s, edges)[n] == earlier[n]);
            }
        }
    }
}

/// A receiver that waits for the start of a frame stays as it is, and
/// completes no frame, for as long as no falling edge ends a pulse of the
/// right width: so through any run of level changes none of whose durations
/// lies in the pulse window.
pub proof fn lemma_noise_keeps_idle(s: ReceiverState, edges: Seq<Edge>)
    requires
        s.phase is PulseIdle,
        forall|i: int|
            0 <= i < edges.len() ==> !((#[trigger] edges[i]).is_falling() && is_pulse(
                edges[i].duration,
            )),
    ensures
        run(s, edges) == s,
        frames(s, edges) == Seq::<Seq<u64>>::empty(),
    decreases edges.len(),
{
    if edges.len() > 0 {
        let earlier = edges.drop_last();
        assert(forall|i: int| 0 <= i < earlier.len() ==> earlier[i] == edges[i]);
        lemma_noise_keeps_idle(s, earlier);
        assert(edges.last() == edges[edges.len() - 1]);
    }
}

/// Running through `first` and then `second` is running through the two in
/// a row, and completes the frames of the one and then those of the other.
pub proof fn lemma_run_in_parts(s: ReceiverState, first: Seq<Edge>, second: Seq<Edge>)
    ensures
        run(s, first + second) == run(run(s, first), second),
        frames(s, first + second) == frames(s, first) + frames(run(s, first), second),
    decreases second.len(),
{
    if second.len() == 0 {
        assert(first + second == first);
    } else {
        assert((first + second).drop_last() == first + second.drop_last());
        assert((first + second).last() == second.last());
        lemma_run_in_parts(s, first, second.drop_last());
    }
}

/// A receiver that waits for a bit pulse and then sees, for each of `gaps`,
/// a pulse and that gap, has collected `gaps` behind what it held and waits
/// for the next bit pulse.
proof fn lemma_bits_are_collected(s: ReceiverState, edges: Seq<Edge>, gaps: Seq<u64>)
    requires
        s.phase is Pulse,
        edges.len() == 2 * gaps.len(),
        forall|i: int| 0 <= i < gaps.len() ==> is_pulse((#[trigger] edges[2 * i]).duration),
        forall|i: int|
            0 <= i < gaps.len() ==> (#[trigger] edges[2 * i + 1]).duration == gaps[i] && is_data_gap(
                gaps[i],
            ),
    ensures
        run(s, edges) == (ReceiverState { phase: WaitingFor::Pulse, samples: s.samples + gaps }),
        frames(s, edges) == Seq::<Seq<u64>>::empty(),
    decreases gaps.len(),
{
    if gaps.len() == 0 {
        assert(s.samples + gaps == s.samples);
    } else {
        let n = gaps.len() - 1;
        let earlier = edges.drop_last().drop_last();
        assert(forall|i: int| 0 <= i < earlier.len() ==> earlier[i] == edges[i]);
        assert forall|i: int| 0 <= i < n implies is_pulse((#[trigger] earlier[2 * i]).duration) by {
            assert(earlier[2 * i] == edges[2 * i]);
        }
        assert forall|i: int| 0 <= i < n implies (#[trigger] earlier[2 * i + 1]).duration
            == gaps.drop_last()[i] && is_data_gap(gaps.drop_last()[i]) by {
            assert(earlier[2 * i + 1] == edges[2 * i + 1]);
        }
        lemma_bits_are_collected(s, earlier, gaps.drop_last());
        assert(edges.drop_last().last() == edges[2 * n]);
        assert(edges.last() == edges[2 * n + 1]);
        assert(is_pulse(edges[2 * n].duration));
        assert(edges[2 * n + 1].duration == gaps[n]);
        assert(!is_signal_end(gaps[n]));
        let at_gap = run(s, edges.drop_last());
        assert(at_gap == advance(run(s, earlier), edges[2 * n]).0);
        assert(at_gap == (ReceiverState {
            phase: WaitingFor::Data,
            samples: s.samples + gaps.drop_last(),
        }));
        assert(frames(s, edges.drop_last()) == Seq::<Seq<u64>>::empty());
        assert(run(s, edges) == advance(at_gap, edges[2 * n + 1]).0);
        assert((s.samples + gaps.drop_last()).push(gaps[n]) == s.samples + gaps);
    }
}

/// An undisturbed transmission of at least one gap, met by a receiver that
/// waits for the start of a frame, completes exactly one frame, which holds
/// the gaps that were sent, and leaves the receiver waiting for the next.
pub proof fn lemma_transmission_is_received(edges: Seq<Edge>, gaps: Seq<u64>)
    requires
        is_transmission(edges, gaps),
        gaps.len() > 0,
    ensures
        run(idle(), edges) == idle(),
        frames(idle(), edges) == seq![gaps],
{
    let n = gaps.len() as int;
    let head = edges.subrange(0, 2);
    let body = edges.subrange(2, 2 * n + 2);
    let tail = edges.subrange(2 * n + 2, 2 * n + 4);
    assert(edges == head + body + tail);
    let opened = ReceiverState { phase: WaitingFor::Pulse, samples: Seq::<u64>::empty() };
    assert(run(idle(), head) == opened && frames(idle(), head) == Seq::<Seq<u64>>::empty()) by {
        assert(head.drop_last().drop_last().len() == 0);
        assert(head.drop_last().last() == edges[0]);
        assert(head.last() == edges[1]);
        reveal_with_fuel(run, 3);
        reveal_with_fuel(frames, 3);
    }
    assert forall|i: int| 0 <= i < n implies is_pulse((#[trigger] body[2 * i]).duration) by {
        assert(body[2 * i] == bit_pulse(edges, i));
    }
    assert forall|i: int| 0 <= i < n implies (#[trigger] body[2 * i + 1]).duration == gaps[i]
        && is_data_gap(gaps[i]) by {
        assert(body[2 * i + 1] == bit_gap(edges, i));
    }
    lemma_bits_are_collected(opened, body, gaps);
    let filled = ReceiverState { phase: WaitingFor::Pulse, samples: gaps };
    assert(opened.samples + gaps == gaps);
    assert(run(filled, tail) == idle() && frames(filled, tail) == seq![gaps]) by {
        assert(tail.drop_last().drop_last().len() == 0);
        assert(tail.drop_last().last() == edges[edges.len() - 2]);
        assert(tail.last() == edges[edges.len() - 1]);
        reveal_with_fuel(run, 3);
        reveal_with_fuel(frames, 3);
    }
    lemma_run_in_parts(idle(), head, body);
    lemma_run_in_parts(idle(), head + body, tail);
}

/// The view of a frame that was handed out.
pub open spec fn frame_view(frame: Option<Vec<u64>>) -> Option<Seq<u64>> {
    match frame {
        Some(samples) => Some(samples@),
        None => None,
    }
}

/// What the caller is to do after a level change.
#[derive(Debug, PartialEq, Eq)]
pub enum Action {
    /// Nothing: no frame was completed.
    Listen,
    /// Publish this record: a frame was completed and decoded.
    Publish(String),
    /// Drop the frame: it was completed but could not be decoded. `samples`
    /// are its gaps, for the log.
    Discard { why: DecodeError, samples: Vec<u64> },
}

/// Whether `action` answers a level change that completed `frame`, for a
/// receiver that listens on `channel`.
pub open spec fn answers(action: Action, frame: Option<Seq<u64>>, channel: u8) -> bool {
    match frame {
        None => action is Listen,
        Some(gaps) => match decoded(gaps, channel) {
            Ok(reading) => action matches Action::Publish(record) && exists|timestamp: Seq<char>|
                record@ == record_text(timestamp, reading),
            Err(reason) => action matches Action::Discard { why, samples } && why == reason
                && samples@ == gaps,
        },
    }
}

/// Collects the gaps of a frame from the stream of level changes.
pub struct Receiver {
    state: WaitingFor,
    samples: Vec<u64>,
}

impl View for Receiver {
    type V = ReceiverState;

    closed spec fn view(&self) -> ReceiverState {
        ReceiverState { phase: self.state, samples: self.samples@ }
    }
}

impl Receiver {
    /// A receiver that waits for the start of a frame.
    pub fn new() -> (receiver: Self)
        ensures
            receiver@ == idle(),
            well_formed(receiver@),
    {
        Receiver { state: WaitingFor::PulseIdle, samples: Vec::new() }
    }

    /// What the receiver waits for.
    pub fn state(&self) -> (state: WaitingFor)
        ensures
            state == self@.phase,
    {
        self.state
    }

    /// The gaps collected so far for the frame in progress.
    pub fn samples(&self) -> (samples: &[u64])
        ensures
            samples@ == self@.samples,
    {
        self.samples.as_slice()
    }

    /// Takes one level change. Where it completes a frame, the gaps of the
    /// frame are returned, and the receiver waits for the next frame.
    pub fn step(&mut self, edge: Edge) -> (frame: Option<Vec<u64>>)
        ensures
            final(self)@ == advance(old(self)@, edge).0,
            frame_view(frame) == advance(old(self)@, edge).1,
            well_formed(old(self)@) ==> well_formed(final(self)@),
    {
        proof {
            if well_formed(self@) {
                lemma_advance_keeps_well_formed(self@, edge);
            }
        }
        let duration = edge.duration;
        let mut frame: Option<Vec<u64>> = None;
        match self.state {
            WaitingFor::PulseIdle => {
                if edge.falling() && in_range(duration, PULSE_MIN, PULSE_MAX) {
                    self.state = WaitingFor::Preamble;
                }
            },
            WaitingFor::Preamble => {
                if in_range(duration, PREAMBLE_MIN, PREAMBLE_MAX) {
                    self.state = WaitingFor::Pulse;
                } else {
                    self.state = WaitingFor::PulseIdle;
                }
            },
            WaitingFor::Pulse => {
                if in_range(duration, PULSE_MIN, PULSE_MAX) {
                    self.state = WaitingFor::Data;
                } else {
                    self.samples = Vec::new();
                    self.state = WaitingFor::PulseIdle;
                }
            },
            WaitingFor::Data => {
                if in_range(duration, SIGNAL_END_MIN, SIGNAL_END_MAX) {
                    if self.samples.len() > 0 {
                        let mut payload: Vec<u64> = Vec::new();
                        std::mem::swap(&mut self.samples, &mut payload);
                        frame = Some(payload);
                    }
                    self.state = WaitingFor::PulseIdle;
                } else if in_range(duration, MIN_LOW, MAX_HIGH) {
                    self.samples.push(duration);
                    self.state = WaitingFor::Pulse;
                } else {
                    self.samples = Vec::new();
                    self.state = WaitingFor::PulseIdle;
                }
            },
        }
        frame
    }

    /// Takes one level change, as `step` does, and decodes the frame that it
    /// completes for a receiver that listens on `channel`.
    pub fn on_edge(&mut self, edge: Edge, channel: u8) -> (action: Action)
        ensures
            final(self)@ == advance(old(self)@, edge).0,
            answers(action, advance(old(self)@, edge).1, channel),
            well_formed(old(self)@) ==> well_formed(final(self)@),
    {
        match self.step(edge) {
            None => Action::Listen,
            Some(samples) => match decode(samples.as_slice(), channel) {
                Ok(record) => Action::Publish(record),
                Err(why) => Action::Discard { why, samples },
            },
        }
    }
}

} // verus!
