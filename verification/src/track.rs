//! The mathematical model of the sample path: decimation by coherent
//! averaging, the energy gate over a full power window, and the peak
//! tracker that turns classified samples into decoded bits.
//!
//! Power values carry a fixed scale factor. A decimated power sample is
//! `S_r*S_r + S_i*S_i` for the sums over 19 raw samples, which is `19*19`
//! times the mean-square power `(S_r/19)^2 + (S_i/19)^2`. All comparisons
//! (the 250.0 energy gate and the above-mean classification) are stated
//! against correspondingly scaled bounds, so they are exact.

use vstd::prelude::*;

use crate::framer::ScanOut;
use crate::framer::scan;

verus! {

/// A maximal run of consecutive power samples on the same side of the
/// window mean. `hi` tells the side, `dur` how many samples the run has
/// lasted.
#[derive(Debug, Copy, Clone, PartialEq, Eq, Structural)]
pub struct Peak {
    pub hi: bool,
    pub dur: u64,
}

/// Saturating addition on 64-bit run durations. Only the comparisons
/// against 3 and 10 are ever observed, so saturation does not change the
/// decoder's behaviour.
pub open spec fn sat_add(a: u64, b: u64) -> u64 {
    if a + b > u64::MAX {
        u64::MAX
    } else {
        (a + b) as u64
    }
}

/// The bit-decoder state threaded through a power window: the run being
/// extended, the most recently completed run, the symbol-alignment flag,
/// and the queue of decoded bits.
#[verifier::ext_equal]
pub ghost struct TrackState {
    pub cur: Peak,
    pub lst: Peak,
    pub on_cut: bool,
    pub bits: Seq<bool>,
}

/// Classification of one scaled power value against the window total:
/// `v` is above the window mean exactly when `128 * v > total`.
pub open spec fn is_hi(v: u32, total: int) -> bool {
    128 * v > total
}

/// A transition event: if the decoder is aligned on a symbol edge, the
/// completed run's side is the next bit; then a short run (a half-symbol)
/// flips the alignment, while a full-length run re-establishes it.
pub open spec fn transition_step(st: TrackState) -> TrackState {
    let bits = if st.on_cut {
        st.bits.push(st.cur.hi)
    } else {
        st.bits
    };
    let on_cut = if st.cur.dur < 10 {
        !st.on_cut
    } else {
        true
    };
    TrackState { bits, on_cut, ..st }
}

/// One power sample stepping the peak tracker: extend the current run,
/// fold a spurious short run back into the previous one, or complete the
/// run with a transition.
pub open spec fn track_step(st: TrackState, hi: bool) -> TrackState {
    if hi == st.cur.hi {
        TrackState { cur: Peak { hi: st.cur.hi, dur: sat_add(st.cur.dur, 1) }, ..st }
    } else if st.cur.dur < 3 {
        let folded = Peak { hi: st.lst.hi, dur: sat_add(st.lst.dur, sat_add(st.cur.dur, 1)) };
        TrackState { cur: folded, lst: folded, ..st }
    } else {
        let t = transition_step(st);
        TrackState { cur: Peak { hi, dur: 1 }, lst: st.cur, on_cut: t.on_cut, bits: t.bits }
    }
}

/// The tracker state after consuming the window samples from index `i`
/// on, each classified against the window total.
pub open spec fn track_run(st: TrackState, w: Seq<u32>, total: int, i: int) -> TrackState
    decreases w.len() - i,
{
    if i < 0 || i >= w.len() {
        st
    } else {
        track_run(track_step(st, is_hi(w[i], total)), w, total, i + 1)
    }
}

/// `d` copies of one classified sample.
pub open spec fn rep(p: bool, d: nat) -> Seq<bool> {
    Seq::new(d, |i: int| p)
}

/// The tracker state after a sequence of already-classified samples.
pub open spec fn track_bools(st: TrackState, s: Seq<bool>) -> TrackState
    decreases s.len(),
{
    if s.len() == 0 {
        st
    } else {
        track_bools(track_step(st, s[0]), s.skip(1))
    }
}

/// The classification of a whole window against its total.
pub open spec fn classify_seq(w: Seq<u32>, total: int) -> Seq<bool> {
    Seq::new(w.len(), |i: int| is_hi(w[i], total))
}

/// The samples of a list of runs, in order: each run contributes its
/// side, its duration many times.
pub open spec fn run_samples(rs: Seq<Peak>) -> Seq<bool>
    decreases rs.len(),
{
    if rs.len() == 0 {
        Seq::empty()
    } else {
        rep(rs[0].hi, rs[0].dur as nat) + run_samples(rs.skip(1))
    }
}

/// The run-level semantics of the peak tracker: each run boundary fires
/// exactly one transition closing the run before it, and the newest run
/// stays open.
pub open spec fn runs_fold(st: TrackState, rs: Seq<Peak>) -> TrackState
    decreases rs.len(),
{
    if rs.len() == 0 {
        st
    } else {
        let t = transition_step(st);
        runs_fold(
            TrackState { cur: rs[0], lst: st.cur, on_cut: t.on_cut, bits: t.bits },
            rs.skip(1),
        )
    }
}

/// The sum of a window of scaled power values.
pub open spec fn sum_window(w: Seq<u32>) -> int
    decreases w.len(),
{
    if w.len() == 0 {
        0
    } else {
        sum_window(w.drop_last()) + w.last()
    }
}

/// The whole decoder state: decimation accumulator, power window, and
/// bit-decoder state.
#[verifier::ext_equal]
pub ghost struct Model {
    pub count: int,
    pub sum_r: int,
    pub sum_i: int,
    pub window: Seq<u32>,
    pub track: TrackState,
}

/// The result of feeding the decoder one input: the new state and the
/// statuses emitted, in order.
#[verifier::ext_equal]
pub ghost struct StepOut {
    pub m: Model,
    pub events: Seq<crate::status::HW5800Status>,
}

/// The decoder state at construction.
pub open spec fn init_model() -> Model {
    Model {
        count: 0,
        sum_r: 0,
        sum_i: 0,
        window: Seq::empty(),
        track: TrackState {
            cur: Peak { hi: false, dur: 0 },
            lst: Peak { hi: true, dur: 0 },
            on_cut: true,
            bits: Seq::empty(),
        },
    }
}

/// Feeding one scaled power value: buffer it; when the 128-sample window
/// is full, either discard it (mean below the 250.0 energy gate, scaled
/// to `250 * 361 * 128`) or run the peak tracker over it and then the
/// framer over the grown bit queue.
pub open spec fn window_add(m: Model, p: u32) -> StepOut {
    let w = m.window.push(p);
    if w.len() < 128 {
        StepOut { m: Model { window: w, ..m }, events: Seq::empty() }
    } else {
        let total = sum_window(w);
        if total < 11_552_000 {
            StepOut { m: Model { window: Seq::empty(), ..m }, events: Seq::empty() }
        } else {
            let t = track_run(m.track, w, total, 0);
            let s = scan(t.bits);
            StepOut {
                m: Model {
                    window: Seq::empty(),
                    track: TrackState { bits: s.rest, ..t },
                    ..m
                },
                events: s.events,
            }
        }
    }
}

/// Feeding one raw I/Q sample: accumulate the component sums; after every
/// 19th sample emit the scaled power of the mean and reset.
pub open spec fn decim_add(m: Model, re: int, im: int) -> StepOut {
    let c = m.count + 1;
    let sr = m.sum_r + re;
    let si = m.sum_i + im;
    if c < 19 {
        StepOut { m: Model { count: c, sum_r: sr, sum_i: si, ..m }, events: Seq::empty() }
    } else {
        window_add(
            Model { count: 0, sum_r: 0, sum_i: 0, ..m },
            (sr * sr + si * si) as u32,
        )
    }
}

/// Feeding a buffer of interleaved I/Q byte pairs, each component centred
/// on 127, starting at index `i`.
pub open spec fn run_bytes(m: Model, bytes: Seq<u8>, i: int) -> StepOut
    decreases bytes.len() - i,
{
    if i < 0 || i + 2 > bytes.len() {
        StepOut { m, events: Seq::empty() }
    } else {
        let s1 = decim_add(m, bytes[i] - 127, bytes[i + 1] - 127);
        let s2 = run_bytes(s1.m, bytes, i + 2);
        StepOut { m: s2.m, events: s1.events + s2.events }
    }
}

} // verus!
