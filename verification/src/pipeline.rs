//! The executable decoder: a `HW5800` processor fed raw I/Q samples that
//! returns validated status messages as they are recognised.

use std::collections::VecDeque;

use vstd::prelude::*;

use crate::crc::crc;
use crate::framer::byte_at;
use crate::framer::events_all_valid;
use crate::framer::lemma_scan_events_valid;
use crate::framer::from_valid_frame;
use crate::framer::frame_at;
use crate::framer::scan;
use crate::status::spec_status_of;
use crate::status::HW5800Status;
use crate::track::decim_add;
use crate::track::init_model;
use crate::track::is_hi;
use crate::track::run_bytes;
use crate::track::sum_window;
use crate::track::track_run;
use crate::track::track_step;
use crate::track::transition_step;
use crate::track::window_add;
use crate::laws::lemma_emitted_events_valid;
use crate::track::Model;
use crate::track::Peak;
use crate::track::TrackState;

verus! {

/// A HW5800 processor. Construct with `new`, then feed it samples from
/// the radio with `add_sample` or `add_bytes`; each call returns the
/// status messages decoded so far, in order.
pub struct HW5800 {
    /// Samples accumulated toward the next decimated power value.
    count: usize,
    /// Sum of the real components of the current decimation block.
    sum_r: i32,
    /// Sum of the imaginary components of the current decimation block.
    sum_i: i32,
    /// The window of scaled power values awaiting processing.
    buffer: Vec<u32>,
    /// The most recently completed run.
    lst: Peak,
    /// The run currently being extended.
    cur: Peak,
    /// Whether the next transition falls on a true symbol edge.
    on_cut: bool,
    /// Bits of a potential message, oldest in front.
    msg: VecDeque<bool>,
}

impl HW5800 {
    /// The bit-decoder part of the state.
    pub closed spec fn ts(&self) -> TrackState {
        TrackState { cur: self.cur, lst: self.lst, on_cut: self.on_cut, bits: self.msg@ }
    }

    /// The whole decoder state as its mathematical model.
    pub closed spec fn model(&self) -> Model {
        Model {
            count: self.count as int,
            sum_r: self.sum_r as int,
            sum_i: self.sum_i as int,
            window: self.buffer@,
            track: self.ts(),
        }
    }

    /// Well-formedness: the decimation block is never full between calls,
    /// its sums are bounded by the sample range, the power window is never
    /// full between calls, and the framer has left fewer than 56 bits.
    pub closed spec fn wf(&self) -> bool {
        &&& self.count < 19
        &&& -127 * (self.count as int) <= self.sum_r as int <= 128 * (self.count as int)
        &&& -127 * (self.count as int) <= self.sum_i as int <= 128 * (self.count as int)
        &&& self.buffer@.len() < 128
        &&& self.msg@.len() < 56
    }

    /// Create a decoder with the field-tuned default parameters.
    pub fn new() -> (r: Self)
        ensures
            r.wf(),
            r.model() == init_model(),
    {
        let r = HW5800 {
            count: 0,
            sum_r: 0,
            sum_i: 0,
            buffer: Vec::new(),
            lst: Peak { hi: true, dur: 0 },
            cur: Peak { hi: false, dur: 0 },
            on_cut: true,
            msg: VecDeque::new(),
        };
        proof {
            assert(r.model() =~~= init_model());
        }
        r
    }

    /// Present the next sample from the radio, as its two components
    /// centred on 127. Returns the messages completed by this sample.
    pub fn add_sample(&mut self, re: i16, im: i16) -> (r: Vec<HW5800Status>)
        requires
            old(self).wf(),
            -127 <= re as int <= 128,
            -127 <= im as int <= 128,
        ensures
            final(self).wf(),
            final(self).model() == decim_add(old(self).model(), re as int, im as int).m,
            r@ == decim_add(old(self).model(), re as int, im as int).events,
            events_all_valid(r@),
    {
        proof {
            lemma_emitted_events_valid(old(self).model(), re as int, im as int);
        }
        self.count = self.count + 1;
        self.sum_r = self.sum_r + re as i32;
        self.sum_i = self.sum_i + im as i32;
        if self.count == 19 {
            let sr = self.sum_r;
            let si = self.sum_i;
            proof {
                assert(sr * sr + si * si <= 11_829_248 && sr * sr >= 0 && si * si >= 0)
                    by (nonlinear_arith)
                    requires
                        -2413 <= sr <= 2432,
                        -2413 <= si <= 2432,
                ;
            }
            let p = (sr * sr + si * si) as u32;
            self.count = 0;
            self.sum_r = 0;
            self.sum_i = 0;
            self.averaged_sample(p)
        } else {
            let r: Vec<HW5800Status> = Vec::new();
            proof {
                assert(final(self).model() =~~= decim_add(
                    old(self).model(),
                    re as int,
                    im as int,
                ).m);
            }
            r
        }
    }

    /// Present a buffer of interleaved I/Q byte pairs as delivered by the
    /// receiver. Returns the messages completed by these samples.
    pub fn add_bytes(&mut self, bytes: &[u8]) -> (r: Vec<HW5800Status>)
        requires
            old(self).wf(),
            bytes@.len() % 2 == 0,
        ensures
            final(self).wf(),
            final(self).model() == run_bytes(old(self).model(), bytes@, 0).m,
            r@ == run_bytes(old(self).model(), bytes@, 0).events,
            events_all_valid(r@),
    {
        let ghost m0 = self.model();
        let ghost bs = bytes@;
        let mut out: Vec<HW5800Status> = Vec::new();
        let mut i: usize = 0;
        while i + 1 < bytes.len()
            invariant
                self.wf(),
                i % 2 == 0,
                i <= bs.len(),
                bs.len() % 2 == 0,
                bytes@ == bs,
                run_bytes(m0, bs, 0).m == run_bytes(self.model(), bs, i as int).m,
                run_bytes(m0, bs, 0).events == out@ + run_bytes(self.model(), bs, i as int).events,
                events_all_valid(out@),
            decreases bs.len() - i,
        {
            let ghost mi = self.model();
            let ghost out0 = out@;
            let re: i16 = bytes[i] as i16 - 127;
            let im: i16 = bytes[i + 1] as i16 - 127;
            let mut evs = self.add_sample(re, im);
            let ghost ev = evs@;
            out.append(&mut evs);
            proof {
                assert forall|k: int| 0 <= k < out@.len() implies from_valid_frame(
                    #[trigger] out@[k],
                ) by {
                    if k < out0.len() {
                        assert(out@[k] == out0[k]);
                    } else {
                        assert(out@[k] == ev[k - out0.len()]);
                    }
                }
            }
            proof {
                let s1 = decim_add(mi, re as int, im as int);
                let s2 = run_bytes(s1.m, bs, i as int + 2);
                assert(run_bytes(mi, bs, i as int).events =~= s1.events + s2.events);
                assert(run_bytes(m0, bs, 0).events =~= out@ + run_bytes(
                    self.model(),
                    bs,
                    i as int + 2,
                ).events);
            }
            i = i + 2;
        }
        proof {
            assert(i == bs.len());
            assert(run_bytes(self.model(), bs, i as int).events =~= Seq::empty());
            assert(run_bytes(m0, bs, 0).events =~= out@);
        }
        out
    }

    /// Feed one scaled power value into the window; process the window
    /// when it fills. A window whose total stays under the energy
    /// threshold is dropped whole: nothing joins the bit queue and no
    /// status is emitted. Every status returned originates in a valid
    /// frame, and fewer than 56 bits are ever left pending.
    pub fn averaged_sample(&mut self, p: u32) -> (r: Vec<HW5800Status>)
        requires
            old(self).wf(),
        ensures
            final(self).wf(),
            final(self).model() == window_add(old(self).model(), p).m,
            r@ == window_add(old(self).model(), p).events,
            events_all_valid(r@),
            final(self).model().track.bits.len() < 56,
            old(self).model().window.len() + 1 == 128 && sum_window(
                old(self).model().window.push(p),
            ) < 11_552_000 ==> r@ == Seq::<HW5800Status>::empty() && final(self).model().track
                == old(self).model().track,
    {
        self.buffer.push(p);
        if self.buffer.len() < 128 {
            let r: Vec<HW5800Status> = Vec::new();
            proof {
                assert(final(self).model() =~~= window_add(old(self).model(), p).m);
            }
            return r;
        }
        let ghost w = self.buffer@;
        let total: u64 = sum_powers(&self.buffer);
        if total < 11_552_000 {
            self.buffer.clear();
            let r: Vec<HW5800Status> = Vec::new();
            proof {
                assert(final(self).model() =~~= window_add(old(self).model(), p).m);
            }
            return r;
        }
        let ghost st0 = self.ts();
        let ghost tot = total as int;
        let ghost c0 = self.count;
        let ghost r0 = self.sum_r;
        let ghost i0 = self.sum_i;
        let mut i: usize = 0;
        while i < self.buffer.len()
            invariant
                i <= 128,
                w.len() == 128,
                self.buffer@ == w,
                self.count == c0,
                self.sum_r == r0,
                self.sum_i == i0,
                total as int == tot,
                track_run(st0, w, tot, 0) == track_run(self.ts(), w, tot, i as int),
            decreases 128 - i,
        {
            let ghost stp = self.ts();
            let v = self.buffer[i];
            let hi = 128 * (v as u64) > total;
            proof {
                assert(hi == is_hi(w[i as int], tot));
            }
            if hi == self.cur.hi {
                self.cur.dur = self.cur.dur.saturating_add(1);
            } else if self.cur.dur < 3 {
                let d = self.cur.dur.saturating_add(1);
                self.lst.dur = self.lst.dur.saturating_add(d);
                self.cur = self.lst;
            } else {
                self.transition();
                self.lst = self.cur;
                self.cur = Peak { hi, dur: 1 };
            }
            proof {
                assert(self.ts() =~~= track_step(stp, hi));
                assert(track_run(stp, w, tot, i as int) == track_run(
                    track_step(stp, is_hi(w[i as int], tot)),
                    w,
                    tot,
                    i as int + 1,
                ));
            }
            i = i + 1;
        }
        self.buffer.clear();
        let ghost t = track_run(st0, w, tot, 0);
        proof {
            assert(t == self.ts());
        }
        let r = self.drain_frames();
        proof {
            lemma_scan_events_valid(t.bits);
            assert(final(self).model() =~~= window_add(old(self).model(), p).m);
        }
        r
    }

    /// A transition event: record the completed run's side as a bit if the
    /// decoder is aligned, then update the alignment flag.
    fn transition(&mut self)
        ensures
            final(self).ts() == transition_step(old(self).ts()),
            final(self).cur == old(self).cur,
            final(self).lst == old(self).lst,
            final(self).buffer@ == old(self).buffer@,
            final(self).count == old(self).count,
            final(self).sum_r == old(self).sum_r,
            final(self).sum_i == old(self).sum_i,
    {
        if self.on_cut {
            self.msg.push_back(self.cur.hi);
        }
        if self.cur.dur < 10 {
            self.on_cut = !self.on_cut;
        } else if !self.on_cut {
            self.on_cut = true;
        }
        proof {
            assert(final(self).ts() =~~= transition_step(old(self).ts()));
        }
    }

    /// The byte formed by the first eight queued bits, most significant
    /// first.
    fn message_begin(&self) -> (r: u8)
        requires
            self.msg@.len() >= 8,
        ensures
            r == byte_at(self.msg@, 0),
    {
        (if self.msg[0] { 128 } else { 0 }) + (if self.msg[1] { 64 } else { 0 }) + (if self.msg[2] {
            32
        } else {
            0
        }) + (if self.msg[3] { 16 } else { 0 }) + (if self.msg[4] { 8 } else { 0 }) + (if self
            .msg[5] {
            4
        } else {
            0
        }) + (if self.msg[6] { 2 } else { 0 }) + (if self.msg[7] { 1 } else { 0 })
    }

    /// The six payload bytes peeked (not popped) from the first 48 queued
    /// bits.
    fn message(&self) -> (r: Vec<u8>)
        requires
            self.msg@.len() >= 48,
        ensures
            r@ == frame_at(self.msg@),
            r@.len() == 6,
    {
        let mut ret: Vec<u8> = Vec::new();
        let mut j: usize = 0;
        while j < 6
            invariant
                j <= 6,
                ret@.len() == j,
                self.msg@.len() >= 48,
                forall|t: int| 0 <= t < j ==> ret@[t] == byte_at(self.msg@, 8 * t),
            decreases 6 - j,
        {
            let base: usize = 8 * j;
            let b: u8 = (if self.msg[base] { 128 } else { 0 }) + (if self.msg[base + 1] {
                64
            } else {
                0
            }) + (if self.msg[base + 2] { 32 } else { 0 }) + (if self.msg[base + 3] {
                16
            } else {
                0
            }) + (if self.msg[base + 4] { 8 } else { 0 }) + (if self.msg[base + 5] {
                4
            } else {
                0
            }) + (if self.msg[base + 6] { 2 } else { 0 }) + (if self.msg[base + 7] { 1 } else { 0 });
            ret.push(b);
            j = j + 1;
        }
        proof {
            assert(ret@ =~= frame_at(self.msg@));
        }
        ret
    }

    /// Pop `n` bits off the front of the queue.
    fn pop_bits(&mut self, n: usize)
        requires
            old(self).msg@.len() >= n,
        ensures
            final(self).msg@ == old(self).msg@.skip(n as int),
            final(self).cur == old(self).cur,
            final(self).lst == old(self).lst,
            final(self).on_cut == old(self).on_cut,
            final(self).buffer@ == old(self).buffer@,
            final(self).count == old(self).count,
            final(self).sum_r == old(self).sum_r,
            final(self).sum_i == old(self).sum_i,
    {
        let ghost q = self.msg@;
        let mut k: usize = 0;
        while k < n
            invariant
                k <= n,
                q.len() >= n,
                self.msg@ == q.skip(k as int),
                self.cur == old(self).cur,
                self.lst == old(self).lst,
                self.on_cut == old(self).on_cut,
                self.buffer@ == old(self).buffer@,
                self.count == old(self).count,
                self.sum_r == old(self).sum_r,
                self.sum_i == old(self).sum_i,
            decreases n - k,
        {
            self.msg.pop_front();
            proof {
                assert(self.msg@ =~= q.skip(k as int + 1));
            }
            k = k + 1;
        }
    }

    /// Scan the bit queue for complete frames, emitting a status for each
    /// valid one, until fewer than 56 bits remain.
    fn drain_frames(&mut self) -> (r: Vec<HW5800Status>)
        ensures
            r@ == scan(old(self).msg@).events,
            final(self).msg@ == scan(old(self).msg@).rest,
            final(self).msg@.len() < 56,
            final(self).cur == old(self).cur,
            final(self).lst == old(self).lst,
            final(self).on_cut == old(self).on_cut,
            final(self).buffer@ == old(self).buffer@,
            final(self).count == old(self).count,
            final(self).sum_r == old(self).sum_r,
            final(self).sum_i == old(self).sum_i,
    {
        let ghost q0 = self.msg@;
        let mut out: Vec<HW5800Status> = Vec::new();
        while self.msg.len() >= 56
            invariant
                scan(q0).events == out@ + scan(self.msg@).events,
                scan(q0).rest == scan(self.msg@).rest,
                self.cur == old(self).cur,
                self.lst == old(self).lst,
                self.on_cut == old(self).on_cut,
                self.buffer@ == old(self).buffer@,
                self.count == old(self).count,
                self.sum_r == old(self).sum_r,
                self.sum_i == old(self).sum_i,
            decreases self.msg@.len(),
        {
            let ghost q = self.msg@;
            let head = self.msg[0];
            if !head {
                self.pop_bits(1);
            } else if self.message_begin() != 0xFE {
                self.pop_bits(1);
            } else {
                self.pop_bits(8);
                let m = self.message();
                proof {
                    assert(self.msg@ == q.skip(8));
                    assert(m@ == frame_at(q.skip(8)));
                }
                if m[4] == 0 && m[5] == 0 {
                    self.pop_bits(1);
                    proof {
                        assert(self.msg@ =~= q.skip(9));
                    }
                } else {
                    let mut pay: Vec<u8> = Vec::new();
                    pay.push(m[0]);
                    pay.push(m[1]);
                    pay.push(m[2]);
                    pay.push(m[3]);
                    proof {
                        assert(pay@ =~= m@.take(4));
                    }
                    let c = crc(pay.as_slice());
                    if m[4] == (c >> 8) as u8 && m[5] == (c & 0xFF) as u8 {
                        let status = HW5800Status::new(m.as_slice());
                        out.push(status);
                        self.pop_bits(48);
                        proof {
                            assert(self.msg@ =~= q.skip(56));
                            let tail = scan(q.skip(56));
                            assert(scan(q).events =~= seq![spec_status_of(m@)] + tail.events);
                            assert(scan(q0).events =~= out@ + tail.events);
                        }
                    } else {
                        self.pop_bits(1);
                        proof {
                            assert(self.msg@ =~= q.skip(9));
                        }
                    }
                }
            }
        }
        out
    }
}

/// The sum of a window of scaled power values.
fn sum_powers(v: &Vec<u32>) -> (r: u64)
    requires
        v@.len() <= 128,
    ensures
        r as int == sum_window(v@),
{
    let mut total: u64 = 0;
    let mut i: usize = 0;
    while i < v.len()
        invariant
            i <= v@.len(),
            v@.len() <= 128,
            total as int == sum_window(v@.take(i as int)),
            total <= i * 0xFFFF_FFFF,
        decreases v@.len() - i,
    {
        proof {
            assert(v@.take(i as int + 1).drop_last() =~= v@.take(i as int));
        }
        total = total + v[i] as u64;
        i = i + 1;
    }
    proof {
        assert(v@.take(v@.len() as int) =~= v@);
    }
    total
}

} // verus!
