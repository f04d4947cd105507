//! The decoder's laws: properties of the pipeline that hold for all
//! inputs, stated over the models in `track` and `framer` and proved once
//! and for all.

use vstd::prelude::*;

use crate::crc::crc16_buypass;
use crate::crc::lemma_crc_linear;
use crate::crc::lemma_crc_single_nonzero;
use crate::crc::xor_bytes;
use crate::framer::bit_val;
use crate::framer::byte_at;
use crate::framer::crc_matches;
use crate::framer::degenerate;
use crate::framer::events_all_valid;
use crate::framer::frame_at;
use crate::framer::lemma_scan_events_valid;
use crate::framer::lemma_scan_rest_short;
use crate::framer::scan;
use crate::status::spec_status_of;
use crate::status::HW5800Status;
use crate::track::classify_seq;
use crate::track::decim_add;
use crate::track::is_hi;
use crate::track::rep;
use crate::track::run_samples;
use crate::track::runs_fold;
use crate::track::track_bools;
use crate::track::sat_add;
use crate::track::sum_window;
use crate::track::track_run;
use crate::track::track_step;
use crate::track::transition_step;
use crate::track::window_add;
use crate::track::Model;
use crate::track::Peak;
use crate::track::StepOut;
use crate::track::TrackState;

verus! {

/// The bits of one byte, most significant first.
pub open spec fn byte_bits(b: u8) -> Seq<bool> {
    Seq::new(8, |i: int| ((b >> ((7 - i) as u8)) & 1) == 1)
}

/// The bits of a byte sequence, in order.
pub open spec fn bytes_bits(m: Seq<u8>) -> Seq<bool>
    decreases m.len(),
{
    if m.len() == 0 {
        Seq::empty()
    } else {
        byte_bits(m[0]) + bytes_bits(m.skip(1))
    }
}

/// A frame as it appears on the air: the `0xFE` preamble followed by the
/// six payload bytes.
pub open spec fn encode_frame(m: Seq<u8>) -> Seq<bool> {
    byte_bits(0xFE) + bytes_bits(m)
}

pub proof fn lemma_bytes_bits_len(m: Seq<u8>)
    ensures
        bytes_bits(m).len() == 8 * m.len(),
    decreases m.len(),
{
    if m.len() > 0 {
        lemma_bytes_bits_len(m.skip(1));
    }
}

pub proof fn lemma_bytes_bits_index(m: Seq<u8>, j: int, t: int)
    requires
        0 <= j < m.len(),
        0 <= t < 8,
    ensures
        bytes_bits(m).len() == 8 * m.len(),
        bytes_bits(m)[8 * j + t] == (((m[j] >> ((7 - t) as u8)) & 1) == 1),
    decreases j,
{
    lemma_bytes_bits_len(m);
    lemma_bytes_bits_len(m.skip(1));
    if j == 0 {
        assert(bytes_bits(m)[t] == byte_bits(m[0])[t]);
    } else {
        lemma_bytes_bits_index(m.skip(1), j - 1, t);
        assert(bytes_bits(m)[8 * j + t] == bytes_bits(m.skip(1))[8 * (j - 1) + t]);
        assert(m.skip(1)[j - 1] == m[j]);
    }
}

/// If eight queue positions hold exactly the bits of `b`, the byte read
/// there is `b`.
pub proof fn lemma_byte_at_of_bits(q: Seq<bool>, start: int, b: u8)
    requires
        0 <= start,
        start + 8 <= q.len(),
        forall|i: int| 0 <= i < 8 ==> #[trigger] q[start + i] == (((b >> ((7 - i) as u8)) & 1) == 1),
    ensures
        byte_at(q, start) == b,
{
    assert(b as int == 128 * (((b >> 7) & 1) as int) + 64 * (((b >> 6) & 1) as int) + 32 * (((b
        >> 5) & 1) as int) + 16 * (((b >> 4) & 1) as int) + 8 * (((b >> 3) & 1) as int) + 4 * (((b
        >> 2) & 1) as int) + 2 * (((b >> 1) & 1) as int) + (((b >> 0) & 1) as int)) by (bit_vector);
    assert(forall|k: u8| k < 8 ==> ((b >> k) & 1) <= 1) by (bit_vector);
    assert(q[start + 0] == (((b >> 7) & 1) == 1));
    assert(q[start + 1] == (((b >> 6) & 1) == 1));
    assert(q[start + 2] == (((b >> 5) & 1) == 1));
    assert(q[start + 3] == (((b >> 4) & 1) == 1));
    assert(q[start + 4] == (((b >> 3) & 1) == 1));
    assert(q[start + 5] == (((b >> 2) & 1) == 1));
    assert(q[start + 6] == (((b >> 1) & 1) == 1));
    assert(q[start + 7] == (((b >> 0) & 1) == 1));
}

/// In a queue that begins with an encoded frame, the preamble byte and
/// the six payload bytes read back as written.
pub proof fn lemma_encode_reads_back(m: Seq<u8>, rest: Seq<bool>)
    requires
        m.len() == 6,
    ensures
        (encode_frame(m) + rest).len() == 56 + rest.len(),
        (encode_frame(m) + rest)[0],
        byte_at(encode_frame(m) + rest, 0) == 0xFE,
        frame_at((encode_frame(m) + rest).skip(8)) == m,
        (encode_frame(m) + rest).skip(56) == rest,
{
    let q = encode_frame(m) + rest;
    lemma_bytes_bits_len(m);
    assert forall|i: int| 0 <= i < 8 implies #[trigger] q[0 + i] == (((0xFEu8 >> ((7 - i)
        as u8)) & 1) == 1) by {
        assert(q[i] == byte_bits(0xFE)[i]);
    }
    lemma_byte_at_of_bits(q, 0, 0xFE);
    assert((0xFEu8 >> 7) & 1 == 1) by (bit_vector);
    assert(q[0]);
    let body = q.skip(8);
    assert forall|j: int| 0 <= j < 6 implies byte_at(body, 8 * j) == m[j] by {
        assert forall|i: int| 0 <= i < 8 implies #[trigger] body[8 * j + i] == (((m[j] >> ((7 - i)
            as u8)) & 1) == 1) by {
            lemma_bytes_bits_index(m, j, i);
            assert(body[8 * j + i] == q[8 + 8 * j + i]);
            assert(q[8 + 8 * j + i] == bytes_bits(m)[8 * j + i]);
        }
        lemma_byte_at_of_bits(body, 8 * j, m[j]);
    }
    assert(frame_at(body) =~= m);
    assert(q.skip(56) =~= rest);
}

/// Scanning an encoded valid frame followed by anything: the frame is
/// recognised at once, its status comes first, and the scan goes on
/// behind it.
pub proof fn lemma_scan_valid_frame(m: Seq<u8>, rest: Seq<bool>)
    requires
        m.len() == 6,
        crc_matches(m),
        !degenerate(m),
    ensures
        scan(encode_frame(m) + rest).events == seq![spec_status_of(m)] + scan(rest).events,
        scan(encode_frame(m) + rest).rest == scan(rest).rest,
{
    let q = encode_frame(m) + rest;
    lemma_encode_reads_back(m, rest);
    assert(scan(q).events == seq![spec_status_of(m)] + scan(rest).events);
}

/// Round trip: a correctly CRC-trailed frame, encoded as a preamble plus
/// its 48 payload bits, decodes to exactly one status carrying its
/// identifier bytes and status byte.
pub proof fn lemma_frame_roundtrip(m: Seq<u8>)
    requires
        m.len() == 6,
        crc_matches(m),
        !degenerate(m),
    ensures
        scan(encode_frame(m)).events == seq![spec_status_of(m)],
        scan(encode_frame(m)).rest == Seq::<bool>::empty(),
{
    assert(encode_frame(m) =~= encode_frame(m) + Seq::<bool>::empty());
    lemma_scan_valid_frame(m, Seq::<bool>::empty());
    assert(seq![spec_status_of(m)] + scan(Seq::<bool>::empty()).events =~= seq![
        spec_status_of(m),
    ]);
}

/// Two valid frames back to back decode to their two statuses, in order.
pub proof fn lemma_two_frames_in_order(m1: Seq<u8>, m2: Seq<u8>)
    requires
        m1.len() == 6,
        crc_matches(m1),
        !degenerate(m1),
        m2.len() == 6,
        crc_matches(m2),
        !degenerate(m2),
    ensures
        scan(encode_frame(m1) + encode_frame(m2)).events == seq![
            spec_status_of(m1),
            spec_status_of(m2),
        ],
        scan(encode_frame(m1) + encode_frame(m2)).rest == Seq::<bool>::empty(),
{
    lemma_scan_valid_frame(m1, encode_frame(m2));
    lemma_frame_roundtrip(m2);
    assert(seq![spec_status_of(m1)] + seq![spec_status_of(m2)] =~= seq![
        spec_status_of(m1),
        spec_status_of(m2),
    ]);
}

/// Resynchronisation: a junk prefix in which no position reads as a set
/// head bit starting a preamble byte is shed bit by bit, and the frame
/// behind it still decodes to exactly its status.
pub proof fn lemma_resync_through_junk(junk: Seq<bool>, m: Seq<u8>)
    requires
        m.len() == 6,
        crc_matches(m),
        !degenerate(m),
        forall|i: int|
            0 <= i < junk.len() ==> !((junk + encode_frame(m))[i] && #[trigger] byte_at(
                junk + encode_frame(m),
                i,
            ) == 0xFE),
    ensures
        scan(junk + encode_frame(m)).events == seq![spec_status_of(m)],
        scan(junk + encode_frame(m)).rest == Seq::<bool>::empty(),
    decreases junk.len(),
{
    let q = junk + encode_frame(m);
    lemma_bytes_bits_len(m);
    if junk.len() == 0 {
        assert(q =~= encode_frame(m));
        lemma_frame_roundtrip(m);
    } else {
        assert(!(q[0] && byte_at(q, 0) == 0xFE));
        let junk2 = junk.skip(1);
        let q2 = junk2 + encode_frame(m);
        assert(q.skip(1) =~= q2);
        assert forall|i: int| 0 <= i < junk2.len() implies !(q2[i] && #[trigger] byte_at(q2, i)
            == 0xFE) by {
            assert(q2[i] == q[i + 1]);
            assert(bit_val(q2, i) == bit_val(q, i + 1));
            assert(bit_val(q2, i + 1) == bit_val(q, i + 2));
            assert(bit_val(q2, i + 2) == bit_val(q, i + 3));
            assert(bit_val(q2, i + 3) == bit_val(q, i + 4));
            assert(bit_val(q2, i + 4) == bit_val(q, i + 5));
            assert(bit_val(q2, i + 5) == bit_val(q, i + 6));
            assert(bit_val(q2, i + 6) == bit_val(q, i + 7));
            assert(bit_val(q2, i + 7) == bit_val(q, i + 8));
            assert(byte_at(q2, i) == byte_at(q, i + 1));
        }
        lemma_resync_through_junk(junk2, m);
        assert(scan(q) == scan(q2));
    }
}

/// A frame whose trailer is all zero is suppressed, whether or not its
/// CRC would match.
pub proof fn lemma_degenerate_suppressed(m: Seq<u8>)
    requires
        m.len() == 6,
        degenerate(m),
    ensures
        scan(encode_frame(m)).events == Seq::<HW5800Status>::empty(),
{
    let q = encode_frame(m);
    assert(q =~= q + Seq::<bool>::empty());
    lemma_encode_reads_back(m, Seq::<bool>::empty());
    assert(q.skip(9).len() == 47);
    assert(scan(q.skip(9)).events =~= Seq::<HW5800Status>::empty());
}

/// The decimator's cadence: a sample that does not complete a block of
/// 19 only accumulates — no power value reaches the window, no bits and
/// no events are produced — and the 19th sample resets the block, handing
/// exactly one power value on.
pub proof fn lemma_decimator_cadence(m: Model, re: int, im: int)
    ensures
        m.count + 1 < 19 ==> decim_add(m, re, im) == (StepOut {
            m: Model {
                count: m.count + 1,
                sum_r: m.sum_r + re,
                sum_i: m.sum_i + im,
                ..m
            },
            events: Seq::<HW5800Status>::empty(),
        }),
        m.count + 1 >= 19 ==> decim_add(m, re, im) == window_add(
            Model { count: 0, sum_r: 0, sum_i: 0, ..m },
            ((m.sum_r + re) * (m.sum_r + re) + (m.sum_i + im) * (m.sum_i + im)) as u32,
        ),
{
}

/// A window whose total power falls under the energy threshold is
/// discarded whole: no bits join the queue and no status is emitted.
pub proof fn lemma_quiet_window_no_bits(m: Model, p: u32)
    requires
        m.window.len() + 1 == 128,
        sum_window(m.window.push(p)) < 11_552_000,
    ensures
        window_add(m, p).events == Seq::<HW5800Status>::empty(),
        window_add(m, p).m.track == m.track,
        window_add(m, p).m.window == Seq::<u32>::empty(),
{
}

/// After any window is processed the bit queue is fully drained: either
/// it was not touched, or fewer than 56 bits remain.
pub proof fn lemma_window_leaves_short_queue(m: Model, p: u32)
    ensures
        window_add(m, p).m.track.bits == m.track.bits || window_add(m, p).m.track.bits.len() < 56,
{
    let w = m.window.push(p);
    if w.len() >= 128 && sum_window(w) >= 11_552_000 {
        let t = track_run(m.track, w, sum_window(w), 0);
        lemma_scan_rest_short(t.bits);
    }
}

/// A short bit queue stays short across any input sample: fewer than 56
/// bits are pending between calls.
pub proof fn lemma_queue_stays_short(m: Model, re: int, im: int)
    requires
        m.track.bits.len() < 56,
    ensures
        decim_add(m, re, im).m.track.bits.len() < 56,
{
    if m.count + 1 >= 19 {
        lemma_window_leaves_short_queue(
            Model { count: 0, sum_r: 0, sum_i: 0, ..m },
            ((m.sum_r + re) * (m.sum_r + re) + (m.sum_i + im) * (m.sum_i + im)) as u32,
        );
    }
}

/// Every status an input sample produces originates in a 6-byte frame
/// whose CRC trailer matches and is not all-zero.
pub proof fn lemma_emitted_events_valid(m: Model, re: int, im: int)
    ensures
        events_all_valid(decim_add(m, re, im).events),
{
    let s = decim_add(m, re, im);
    if m.count + 1 >= 19 {
        let m2 = Model { count: 0, sum_r: 0, sum_i: 0, ..m };
        let p = ((m.sum_r + re) * (m.sum_r + re) + (m.sum_i + im) * (m.sum_i + im)) as u32;
        let w = m2.window.push(p);
        if w.len() >= 128 && sum_window(w) >= 11_552_000 {
            let t = track_run(m2.track, w, sum_window(w), 0);
            lemma_scan_events_valid(t.bits);
        }
    }
}

/// Flipping any single bit of the payload or of the CRC trailer of a
/// valid frame suppresses the event: the altered frame decodes to
/// nothing.
pub proof fn lemma_single_flip_suppressed(m: Seq<u8>, j: int, t: u8)
    requires
        m.len() == 6,
        crc_matches(m),
        0 <= j < 6,
        t < 8,
    ensures
        scan(encode_frame(m.update(j, m[j] ^ (1u8 << t)))).events
            == Seq::<HW5800Status>::empty(),
{
    let m2 = m.update(j, m[j] ^ (1u8 << t));
    let q = encode_frame(m2);
    assert(q =~= q + Seq::<bool>::empty());
    lemma_encode_reads_back(m2, Seq::<bool>::empty());
    let x = m[j];
    assert(x ^ (1u8 << t) != x) by (bit_vector)
        requires
            t < 8,
    ;
    if !degenerate(m2) {
        if j >= 4 {
            assert(m2.take(4) =~= m.take(4));
            assert(!crc_matches(m2));
        } else {
            let p = m.take(4);
            let p2 = m2.take(4);
            let e = Seq::new(4, |i: int| if i == j { 1u8 << t } else { 0u8 });
            assert forall|i: int| 0 <= i < 4 implies p2[i] == (p[i] ^ e[i]) by {
                if i != j {
                    let v = p[i];
                    assert(v ^ 0 == v) by (bit_vector);
                }
            }
            assert(p2 =~= xor_bytes(p, e));
            lemma_crc_linear(p, e);
            assert(1u8 << t != 0) by (bit_vector)
                requires
                    t < 8,
            ;
            lemma_crc_single_nonzero(e, j);
            let c = crc16_buypass(p);
            let ce = crc16_buypass(e);
            assert(ce != 0 ==> c ^ ce != c) by (bit_vector);
            let c2 = crc16_buypass(p2);
            assert(c2 != c);
            assert(c2 != c ==> ((c2 >> 8) as u8 != (c >> 8) as u8 || (c2 & 0xFF) as u8 != (c
                & 0xFF) as u8)) by (bit_vector);
            assert(m2[4] == m[4] && m2[5] == m[5]);
            assert(!crc_matches(m2));
        }
    }
    assert(scan(q.skip(9)).events =~= Seq::<HW5800Status>::empty());
}

/// Processing a window is processing its classified samples in order.
pub proof fn lemma_track_run_is_bools(st: TrackState, w: Seq<u32>, total: int, i: int)
    requires
        0 <= i <= w.len(),
    ensures
        track_run(st, w, total, i) == track_bools(st, classify_seq(w, total).skip(i)),
    decreases w.len() - i,
{
    let cs = classify_seq(w, total);
    if i < w.len() {
        assert(cs.skip(i)[0] == is_hi(w[i], total));
        assert(cs.skip(i).skip(1) =~= cs.skip(i + 1));
        lemma_track_run_is_bools(track_step(st, is_hi(w[i], total)), w, total, i + 1);
    } else {
        assert(cs.skip(i) =~= Seq::<bool>::empty());
    }
}

/// Classified samples compose: a concatenation is processed in order.
pub proof fn lemma_track_bools_concat(st: TrackState, a: Seq<bool>, b: Seq<bool>)
    ensures
        track_bools(st, a + b) == track_bools(track_bools(st, a), b),
    decreases a.len(),
{
    if a.len() == 0 {
        assert(a + b =~= b);
    } else {
        assert((a + b)[0] == a[0]);
        assert((a + b).skip(1) =~= a.skip(1) + b);
        lemma_track_bools_concat(track_step(st, a[0]), a.skip(1), b);
    }
}

/// Samples on the current run's side only extend it.
pub proof fn lemma_run_extends(st: TrackState, d: nat)
    ensures
        track_bools(st, rep(st.cur.hi, d)) == (TrackState {
            cur: Peak {
                hi: st.cur.hi,
                dur: if st.cur.dur + d > u64::MAX {
                    u64::MAX
                } else {
                    (st.cur.dur + d) as u64
                },
            },
            ..st
        }),
    decreases d,
{
    let p = st.cur.hi;
    if d == 0 {
        assert(rep(p, 0) =~= Seq::<bool>::empty());
        assert(track_bools(st, rep(p, 0)) =~~= (TrackState {
            cur: Peak { hi: p, dur: st.cur.dur },
            ..st
        }));
    } else {
        assert(rep(p, d)[0] == p);
        assert(rep(p, d).skip(1) =~= rep(p, (d - 1) as nat));
        let st1 = track_step(st, p);
        assert(st1 == (TrackState { cur: Peak { hi: p, dur: sat_add(st.cur.dur, 1) }, ..st }));
        lemma_run_extends(st1, (d - 1) as nat);
    }
}

/// A change of side after an established run fires exactly one
/// transition and opens the new run.
pub proof fn lemma_run_transition(st: TrackState, p: bool, d: u64)
    requires
        p != st.cur.hi,
        st.cur.dur >= 3,
        d >= 1,
    ensures
        track_bools(st, rep(p, d as nat)) == (TrackState {
            cur: Peak { hi: p, dur: d },
            lst: st.cur,
            on_cut: transition_step(st).on_cut,
            bits: transition_step(st).bits,
        }),
{
    assert(rep(p, d as nat)[0] == p);
    assert(rep(p, d as nat).skip(1) =~= rep(p, (d - 1) as nat));
    let t = transition_step(st);
    let st1 = track_step(st, p);
    assert(st1 == (TrackState { cur: Peak { hi: p, dur: 1 }, lst: st.cur, on_cut: t.on_cut, bits: t.bits }));
    lemma_run_extends(st1, (d - 1) as nat);
}

/// The peak tracker's run-level abstraction: over alternating runs of at
/// least 3 samples each, every run boundary fires exactly one
/// transition; no run is folded away and none is split.
pub proof fn lemma_runs_abstraction(st: TrackState, rs: Seq<Peak>)
    requires
        st.cur.dur >= 3,
        rs.len() > 0 ==> rs[0].hi != st.cur.hi,
        forall|i: int| 0 <= i < rs.len() ==> #[trigger] rs[i].dur >= 3,
        forall|i: int| 0 <= i && i + 1 < rs.len() ==> #[trigger] rs[i + 1].hi != rs[i].hi,
    ensures
        track_bools(st, run_samples(rs)) == runs_fold(st, rs),
    decreases rs.len(),
{
    if rs.len() > 0 {
        lemma_track_bools_concat(st, rep(rs[0].hi, rs[0].dur as nat), run_samples(rs.skip(1)));
        lemma_run_transition(st, rs[0].hi, rs[0].dur);
        let t = transition_step(st);
        let st1 = TrackState { cur: rs[0], lst: st.cur, on_cut: t.on_cut, bits: t.bits };
        assert(rs[0] == (Peak { hi: rs[0].hi, dur: rs[0].dur }));
        assert(track_bools(st, rep(rs[0].hi, rs[0].dur as nat)) =~~= st1);
        assert forall|i: int| 0 <= i && i + 1 < rs.skip(1).len() implies #[trigger] rs.skip(1)[i
            + 1].hi != rs.skip(1)[i].hi by {
            assert(rs.skip(1)[i + 1] == rs[i + 2]);
            assert(rs.skip(1)[i] == rs[i + 1]);
        }
        lemma_runs_abstraction(st1, rs.skip(1));
    }
}

/// The symbol-run expansion of a bit string: a full-length run where the
/// next bit differs, a half-length run and an opposite spacer where it
/// repeats.
pub open spec fn encode_bits_runs(bs: Seq<bool>) -> Seq<Peak>
    decreases bs.len(),
{
    if bs.len() == 0 {
        Seq::empty()
    } else if bs.len() == 1 {
        seq![Peak { hi: bs[0], dur: 5 }]
    } else if bs[1] != bs[0] {
        seq![Peak { hi: bs[0], dur: 12 }] + encode_bits_runs(bs.skip(1))
    } else {
        seq![Peak { hi: bs[0], dur: 5 }, Peak { hi: !bs[0], dur: 5 }] + encode_bits_runs(
            bs.skip(1),
        )
    }
}

/// Whether the decoder is poised at a run boundary: aligned after a
/// full-length run, or misaligned on a short spacer it will skip.
pub open spec fn poised(st: TrackState) -> bool {
    (st.on_cut && st.cur.dur >= 10) || (!st.on_cut && 3 <= st.cur.dur < 10)
}

/// The expansion is a well-formed run list: it starts and ends on the
/// first and last bits' sides, runs are 3 to 12 samples, and sides
/// alternate.
pub proof fn lemma_encode_alternates(bs: Seq<bool>)
    requires
        bs.len() >= 1,
    ensures
        encode_bits_runs(bs).len() >= 1,
        encode_bits_runs(bs)[0].hi == bs[0],
        encode_bits_runs(bs).last().hi == bs.last(),
        forall|i: int|
            0 <= i < encode_bits_runs(bs).len() ==> 3 <= #[trigger] encode_bits_runs(bs)[i].dur
                <= 12,
        forall|i: int|
            0 <= i && i + 1 < encode_bits_runs(bs).len() ==> #[trigger] encode_bits_runs(bs)[i
                + 1].hi != encode_bits_runs(bs)[i].hi,
    decreases bs.len(),
{
    let e = encode_bits_runs(bs);
    if bs.len() == 1 {
    } else {
        lemma_encode_alternates(bs.skip(1));
        let e2 = encode_bits_runs(bs.skip(1));
        assert(bs.skip(1)[0] == bs[1]);
        assert(bs.skip(1).last() == bs.last());
        if bs[1] != bs[0] {
            assert(e == seq![Peak { hi: bs[0], dur: 12 }] + e2);
            assert(e.last() == e2.last());
            assert forall|i: int| 0 <= i < e.len() implies 3 <= #[trigger] e[i].dur <= 12 by {
                if i >= 1 {
                    assert(e[i] == e2[i - 1]);
                }
            }
            assert forall|i: int| 0 <= i && i + 1 < e.len() implies #[trigger] e[i + 1].hi
                != e[i].hi by {
                if i == 0 {
                    assert(e[0] == (Peak { hi: bs[0], dur: 12 }));
                    assert(e[1] == e2[0]);
                } else {
                    assert(e[i + 1] == e2[i]);
                    assert(e[i] == e2[i - 1]);
                    assert(e2[(i - 1) + 1].hi != e2[i - 1].hi);
                }
            }
        } else {
            assert(e == seq![Peak { hi: bs[0], dur: 5 }, Peak { hi: !bs[0], dur: 5 }] + e2);
            assert(e.last() == e2.last());
            assert forall|i: int| 0 <= i < e.len() implies 3 <= #[trigger] e[i].dur <= 12 by {
                if i >= 2 {
                    assert(e[i] == e2[i - 2]);
                }
            }
            assert forall|i: int| 0 <= i && i + 1 < e.len() implies #[trigger] e[i + 1].hi
                != e[i].hi by {
                assert(e[0] == (Peak { hi: bs[0], dur: 5 }));
                assert(e[1] == (Peak { hi: !bs[0], dur: 5 }));
                if i == 1 {
                    assert(e[2] == e2[0]);
                } else if i >= 2 {
                    assert(e[i + 1] == e2[i - 1]);
                    assert(e[i] == e2[i - 2]);
                    assert(e2[(i - 2) + 1].hi != e2[i - 2].hi);
                }
            }
        }
    }
}

/// Decoding the expansion: closing the run the tracker entered on, it
/// pushes exactly the encoded bits, each at its run boundary.
pub proof fn lemma_scheme_decodes(st: TrackState, bs: Seq<bool>)
    requires
        poised(st),
        bs.len() >= 1,
        bs[0] != st.cur.hi,
    ensures
        runs_fold(st, encode_bits_runs(bs).push(Peak { hi: !bs.last(), dur: 3 })).bits
            == transition_step(st).bits + bs,
    decreases bs.len(),
{
    let t = transition_step(st);
    let rs = encode_bits_runs(bs).push(Peak { hi: !bs.last(), dur: 3 });
    let b = bs[0];
    assert(t.on_cut);
    if bs.len() == 1 {
        let r1 = Peak { hi: b, dur: 5 };
        let r2 = Peak { hi: !b, dur: 3 };
        assert(rs =~= seq![r1, r2]);
        let st1 = TrackState { cur: r1, lst: st.cur, on_cut: t.on_cut, bits: t.bits };
        assert(rs[0] == r1);
        assert(rs.skip(1) =~= seq![r2]);
        assert(runs_fold(st, rs) == runs_fold(st1, rs.skip(1)));
        let t1 = transition_step(st1);
        assert(t1.bits == t.bits.push(b));
        let st2 = TrackState { cur: r2, lst: st1.cur, on_cut: t1.on_cut, bits: t1.bits };
        assert(rs.skip(1)[0] == r2);
        assert(rs.skip(1).skip(1) =~= Seq::<Peak>::empty());
        assert(runs_fold(st1, rs.skip(1)) == runs_fold(st2, rs.skip(1).skip(1)));
        assert(runs_fold(st2, rs.skip(1).skip(1)) == st2);
        assert(bs =~= seq![b]);
        assert(t.bits.push(b) =~= t.bits + seq![b]);
    } else if bs[1] != bs[0] {
        let r1 = Peak { hi: b, dur: 12 };
        assert(encode_bits_runs(bs) == seq![r1] + encode_bits_runs(bs.skip(1)));
        assert(bs.skip(1).last() == bs.last());
        assert(rs =~= seq![r1] + encode_bits_runs(bs.skip(1)).push(
            Peak { hi: !bs.skip(1).last(), dur: 3 },
        ));
        let st1 = TrackState { cur: r1, lst: st.cur, on_cut: t.on_cut, bits: t.bits };
        assert(rs[0] == r1);
        assert(rs.skip(1) =~= encode_bits_runs(bs.skip(1)).push(
            Peak { hi: !bs.skip(1).last(), dur: 3 },
        ));
        assert(runs_fold(st, rs) == runs_fold(st1, rs.skip(1)));
        assert(poised(st1));
        assert(bs.skip(1)[0] == bs[1]);
        lemma_scheme_decodes(st1, bs.skip(1));
        assert(transition_step(st1).bits == t.bits.push(b));
        assert(t.bits.push(b) + bs.skip(1) =~= t.bits + bs);
    } else {
        let r1 = Peak { hi: b, dur: 5 };
        let r2 = Peak { hi: !b, dur: 5 };
        assert(encode_bits_runs(bs) == seq![r1, r2] + encode_bits_runs(bs.skip(1)));
        assert(bs.skip(1).last() == bs.last());
        assert(rs =~= seq![r1, r2] + encode_bits_runs(bs.skip(1)).push(
            Peak { hi: !bs.skip(1).last(), dur: 3 },
        ));
        let st1 = TrackState { cur: r1, lst: st.cur, on_cut: t.on_cut, bits: t.bits };
        assert(rs[0] == r1);
        assert(runs_fold(st, rs) == runs_fold(st1, rs.skip(1)));
        let t1 = transition_step(st1);
        assert(t1.bits == t.bits.push(b));
        assert(!t1.on_cut);
        let st2 = TrackState { cur: r2, lst: st1.cur, on_cut: t1.on_cut, bits: t1.bits };
        assert(rs.skip(1)[0] == r2);
        assert(rs.skip(1).skip(1) =~= encode_bits_runs(bs.skip(1)).push(
            Peak { hi: !bs.skip(1).last(), dur: 3 },
        ));
        assert(runs_fold(st1, rs.skip(1)) == runs_fold(st2, rs.skip(1).skip(1)));
        assert(poised(st2));
        assert(bs.skip(1)[0] == b);
        lemma_scheme_decodes(st2, bs.skip(1));
        assert(transition_step(st2).bits == t1.bits);
        assert(t.bits.push(b) + bs.skip(1) =~= t.bits + bs);
    }
}

/// The classified-sample round trip: a valid frame's preamble and
/// payload bits, expanded into symbol runs and fed as classified samples
/// through the peak tracker and then the framer, yield exactly the
/// frame's status.
pub proof fn lemma_expansion_roundtrip(st: TrackState, m: Seq<u8>)
    requires
        m.len() == 6,
        crc_matches(m),
        !degenerate(m),
        st.bits == Seq::<bool>::empty(),
        st.on_cut,
        st.cur.dur >= 10,
        !st.cur.hi,
    ensures
        ({
            let rs = encode_bits_runs(encode_frame(m)).push(
                Peak { hi: !encode_frame(m).last(), dur: 3 },
            );
            let decoded = track_bools(st, run_samples(rs));
            scan(decoded.bits).events == seq![spec_status_of(m)] && scan(decoded.bits).rest
                == Seq::<bool>::empty()
        }),
{
    let bs = encode_frame(m);
    lemma_bytes_bits_len(m);
    assert(bs.len() == 56);
    assert(bs[0] == byte_bits(0xFE)[0]);
    assert((0xFEu8 >> 7) & 1 == 1) by (bit_vector);
    assert(bs[0]);
    lemma_encode_alternates(bs);
    let e = encode_bits_runs(bs);
    let term = Peak { hi: !bs.last(), dur: 3 };
    let rs = e.push(term);
    assert forall|i: int| 0 <= i < rs.len() implies #[trigger] rs[i].dur >= 3 by {
        if i < e.len() {
            assert(rs[i] == e[i]);
        } else {
            assert(rs[i] == term);
        }
    }
    assert forall|i: int| 0 <= i && i + 1 < rs.len() implies #[trigger] rs[i + 1].hi
        != rs[i].hi by {
        if i + 1 < e.len() {
            assert(rs[i + 1] == e[i + 1]);
            assert(rs[i] == e[i]);
        } else {
            assert(rs[i + 1] == term);
            assert(rs[i] == e.last());
        }
    }
    assert(rs[0] == e[0]);
    lemma_runs_abstraction(st, rs);
    lemma_scheme_decodes(st, bs);
    let q = track_bools(st, run_samples(rs)).bits;
    assert(q == transition_step(st).bits + bs);
    assert(transition_step(st).bits =~= seq![false]);
    assert(q.len() == 57);
    assert(!q[0]);
    assert(q.skip(1) =~= bs);
    lemma_frame_roundtrip(m);
    assert(scan(q) == scan(q.skip(1)));
}

/// The classified-sample flip law: the same expansion of a frame with
/// any single payload or trailer bit flipped decodes to no status at
/// all.
pub proof fn lemma_expansion_flip_suppressed(st: TrackState, m: Seq<u8>, j: int, t: u8)
    requires
        m.len() == 6,
        crc_matches(m),
        0 <= j < 6,
        t < 8,
        st.bits == Seq::<bool>::empty(),
        st.on_cut,
        st.cur.dur >= 10,
        !st.cur.hi,
    ensures
        ({
            let bs = encode_frame(m.update(j, m[j] ^ (1u8 << t)));
            let rs = encode_bits_runs(bs).push(Peak { hi: !bs.last(), dur: 3 });
            scan(track_bools(st, run_samples(rs)).bits).events == Seq::<HW5800Status>::empty()
        }),
{
    let m2 = m.update(j, m[j] ^ (1u8 << t));
    let bs = encode_frame(m2);
    lemma_bytes_bits_len(m2);
    assert(bs.len() == 56);
    assert(bs[0] == byte_bits(0xFE)[0]);
    assert((0xFEu8 >> 7) & 1 == 1) by (bit_vector);
    assert(bs[0]);
    lemma_encode_alternates(bs);
    let e = encode_bits_runs(bs);
    let term = Peak { hi: !bs.last(), dur: 3 };
    let rs = e.push(term);
    assert forall|i: int| 0 <= i < rs.len() implies #[trigger] rs[i].dur >= 3 by {
        if i < e.len() {
            assert(rs[i] == e[i]);
        } else {
            assert(rs[i] == term);
        }
    }
    assert forall|i: int| 0 <= i && i + 1 < rs.len() implies #[trigger] rs[i + 1].hi
        != rs[i].hi by {
        if i + 1 < e.len() {
            assert(rs[i + 1] == e[i + 1]);
            assert(rs[i] == e[i]);
        } else {
            assert(rs[i + 1] == term);
            assert(rs[i] == e.last());
        }
    }
    assert(rs[0] == e[0]);
    lemma_runs_abstraction(st, rs);
    lemma_scheme_decodes(st, bs);
    let q = track_bools(st, run_samples(rs)).bits;
    assert(q == transition_step(st).bits + bs);
    assert(transition_step(st).bits =~= seq![false]);
    assert(q.len() == 57);
    assert(!q[0]);
    assert(q.skip(1) =~= bs);
    lemma_single_flip_suppressed(m, j, t);
    assert(scan(q) == scan(q.skip(1)));
}

/// A one-sample spike inside an established run is folded back: after the
/// spike and one more sample on the original side, the same run is still
/// being extended, two samples longer, and no run of the spike's side was
/// completed.
pub proof fn lemma_spike_folded(st: TrackState, spike: bool)
    requires
        st.cur.dur >= 3,
        spike != st.cur.hi,
    ensures
        track_step(track_step(st, spike), st.cur.hi).cur.hi == st.cur.hi,
        track_step(track_step(st, spike), st.cur.hi).cur.dur == sat_add(st.cur.dur, 2),
        track_step(track_step(st, spike), st.cur.hi).lst == track_step(
            track_step(st, spike),
            st.cur.hi,
        ).cur,
        track_step(track_step(st, spike), st.cur.hi).bits == transition_step(st).bits,
        track_step(track_step(st, spike), st.cur.hi).on_cut == transition_step(st).on_cut,
{
}

} // verus!
