//! The framer's mathematical model: how a queue of decoded bits is scanned
//! for `0xFE`-prefixed, CRC-validated 6-byte frames.
//!
//! The scan repeats while the queue holds at least 56 bits (preamble plus
//! frame). A queue that does not start with the `0xFE` preamble advances by
//! one bit; a preamble followed by a frame with a bad or degenerate CRC
//! trailer advances past the preamble plus one bit; a valid frame is
//! consumed whole and emits one status.

use vstd::prelude::*;

use crate::crc::crc16_buypass;
use crate::status::HW5800Status;
use crate::status::spec_status_of;

verus! {

/// Numeric value of one bit of the queue.
pub open spec fn bit_val(q: Seq<bool>, i: int) -> int {
    if q[i] {
        1
    } else {
        0
    }
}

/// The byte formed by eight bits of the queue starting at `start`, most
/// significant bit first.
pub open spec fn byte_at(q: Seq<bool>, start: int) -> u8
    recommends
        0 <= start,
        start + 8 <= q.len(),
{
    (128 * bit_val(q, start) + 64 * bit_val(q, start + 1) + 32 * bit_val(q, start + 2) + 16
        * bit_val(q, start + 3) + 8 * bit_val(q, start + 4) + 4 * bit_val(q, start + 5) + 2
        * bit_val(q, start + 6) + bit_val(q, start + 7)) as u8
}

/// The six payload bytes formed by the first 48 bits of the queue.
pub open spec fn frame_at(q: Seq<bool>) -> Seq<u8>
    recommends
        q.len() >= 48,
{
    Seq::new(6, |i: int| byte_at(q, 8 * i))
}

/// Whether the trailer of a 6-byte frame equals the CRC-16/BUYPASS value
/// of its first four bytes, big-endian.
pub open spec fn crc_matches(m: Seq<u8>) -> bool
    recommends
        m.len() == 6,
{
    &&& m[4] == (crc16_buypass(m.take(4)) >> 8) as u8
    &&& m[5] == (crc16_buypass(m.take(4)) & 0xFF) as u8
}

/// Whether a frame carries the all-zero trailer that the framer discards
/// without a CRC check.
pub open spec fn degenerate(m: Seq<u8>) -> bool
    recommends
        m.len() == 6,
{
    m[4] == 0 && m[5] == 0
}

/// What one full scan of a bit queue produces: the statuses emitted, in
/// order, and the bits left in the queue.
#[verifier::ext_equal]
pub ghost struct ScanOut {
    pub events: Seq<HW5800Status>,
    pub rest: Seq<bool>,
}

/// One full scan of the bit queue.
pub open spec fn scan(q: Seq<bool>) -> ScanOut
    decreases q.len(),
{
    if q.len() < 56 {
        ScanOut { events: Seq::empty(), rest: q }
    } else if !q[0] {
        scan(q.skip(1))
    } else if byte_at(q, 0) != 0xFE {
        scan(q.skip(1))
    } else {
        let m = frame_at(q.skip(8));
        if degenerate(m) {
            scan(q.skip(9))
        } else if crc_matches(m) {
            let tail = scan(q.skip(56));
            ScanOut { events: seq![spec_status_of(m)] + tail.events, rest: tail.rest }
        } else {
            scan(q.skip(9))
        }
    }
}

/// A scan never leaves a whole frame's worth of bits unexamined.
pub proof fn lemma_scan_rest_short(q: Seq<bool>)
    ensures
        scan(q).rest.len() < 56,
    decreases q.len(),
{
    if q.len() < 56 {
    } else if !q[0] {
        lemma_scan_rest_short(q.skip(1));
    } else if byte_at(q, 0) != 0xFE {
        lemma_scan_rest_short(q.skip(1));
    } else {
        let m = frame_at(q.skip(8));
        if degenerate(m) {
            lemma_scan_rest_short(q.skip(9));
        } else if crc_matches(m) {
            lemma_scan_rest_short(q.skip(56));
        } else {
            lemma_scan_rest_short(q.skip(9));
        }
    }
}

/// Whether a status could have been emitted for a well-formed frame: some
/// 6-byte frame has a matching, non-degenerate CRC trailer and decodes to
/// it.
pub open spec fn from_valid_frame(s: HW5800Status) -> bool {
    exists|m: Seq<u8>|
        m.len() == 6 && #[trigger] crc_matches(m) && !degenerate(m) && s == spec_status_of(m)
}

/// Whether every status of a sequence originates in a valid frame.
pub open spec fn events_all_valid(es: Seq<HW5800Status>) -> bool {
    forall|k: int| 0 <= k < es.len() ==> from_valid_frame(#[trigger] es[k])
}

/// Every status a scan emits originates in a 6-byte frame whose CRC
/// trailer matches and is not all-zero.
pub proof fn lemma_scan_events_valid(q: Seq<bool>)
    ensures
        events_all_valid(scan(q).events),
    decreases q.len(),
{
    if q.len() < 56 {
    } else if !q[0] {
        lemma_scan_events_valid(q.skip(1));
    } else if byte_at(q, 0) != 0xFE {
        lemma_scan_events_valid(q.skip(1));
    } else {
        let m = frame_at(q.skip(8));
        if degenerate(m) {
            lemma_scan_events_valid(q.skip(9));
        } else if crc_matches(m) {
            lemma_scan_events_valid(q.skip(56));
            let tail = scan(q.skip(56));
            assert forall|k: int| 0 <= k < scan(q).events.len() implies from_valid_frame(
                #[trigger] scan(q).events[k],
            ) by {
                if k == 0 {
                    assert(scan(q).events[0] == spec_status_of(m));
                    assert(crc_matches(m) && !degenerate(m));
                } else {
                    assert(scan(q).events[k] == tail.events[k - 1]);
                    assert(from_valid_frame(tail.events[k - 1]));
                }
            }
        } else {
            lemma_scan_events_valid(q.skip(9));
        }
    }
}

} // verus!
