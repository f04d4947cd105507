use hw5800::crc;
use hw5800::HW5800;
use hw5800::HW5800Status;

/// Build the 6-byte frame for a 4-byte payload with a correct CRC
/// trailer.
fn frame_with_crc(payload: [u8; 4]) -> [u8; 6] {
    let c = crc(&payload);
    [
        payload[0],
        payload[1],
        payload[2],
        payload[3],
        (c >> 8) as u8,
        (c & 0xFF) as u8,
    ]
}

/// The on-air bits of a frame: the `0xFE` preamble then the six payload
/// bytes, most significant bit first.
fn frame_bits(frame: [u8; 6]) -> Vec<bool> {
    let mut bits = Vec::new();
    for b in std::iter::once(0xFEu8).chain(frame.iter().copied()) {
        for k in (0..8).rev() {
            bits.push((b >> k) & 1 == 1);
        }
    }
    bits
}

/// Expand a bit stream into power-level runs the peak tracker decodes
/// back to the same bits: a full-length run where the next bit differs,
/// a half-length run plus an opposite spacer where it repeats.
fn runs_for_bits(bits: &[bool]) -> Vec<(bool, usize)> {
    let all: Vec<bool> = std::iter::once(false).chain(bits.iter().copied()).collect();
    let mut runs: Vec<(bool, usize)> = Vec::new();
    for i in 0..all.len() {
        let b = all[i];
        match all.get(i + 1) {
            Some(&nb) if nb != b => runs.push((b, 12)),
            Some(_) => {
                runs.push((b, 5));
                runs.push((!b, 5));
            }
            None => runs.push((b, 5)),
        }
    }
    // Pad with alternating short runs so every window holding signal is
    // completed and passes the energy gate; the constant bits this
    // appends can never look like a preamble.
    let mut total: usize = runs.iter().map(|r| r.1).sum();
    let target = (total / 128 + 3) * 128;
    let mut pol = !runs.last().unwrap().0;
    while total < target {
        runs.push((pol, 5));
        pol = !pol;
        total += 5;
    }
    runs
}

/// Turn runs into raw I/Q byte pairs: 19 identical pairs per power
/// sample, amplitude 100 for a high run and 0 for a low one.
fn samples_for_runs(runs: &[(bool, usize)]) -> Vec<u8> {
    let mut v = Vec::new();
    for &(hi, dur) in runs {
        for _ in 0..dur * 19 {
            v.push(if hi { 227 } else { 127 });
            v.push(127);
        }
    }
    v
}

fn transmit(bits: &[bool]) -> Vec<u8> {
    samples_for_runs(&runs_for_bits(bits))
}

fn decode(samples: &[u8]) -> Vec<HW5800Status> {
    let mut d = HW5800::new();
    d.add_bytes(samples)
}

/// Silence: ten thousand centred I/Q pairs produce no events.
#[test]
fn silence_produces_no_events() {
    let mut d = HW5800::new();
    let quiet = vec![127u8; 20_000];
    let evs = d.add_bytes(&quiet);
    assert_eq!(evs.len(), 0);
}

/// Round trip of the door-open scenario: one event with the encoded
/// identifier and status byte.
#[test]
fn door_frame_round_trip() {
    let frame = frame_with_crc([0x12, 0x34, 0x56, 0x20]);
    assert_eq!(frame[4], 0x9F);
    assert_eq!(frame[5], 0x50);
    let evs = decode(&transmit(&frame_bits(frame)));
    assert_eq!(evs.len(), 1);
    assert_eq!(evs[0].id(), 0x123456);
    assert_eq!(evs[0].bits(), 0x20);
}

/// Round trip of the motion scenario.
#[test]
fn motion_frame_round_trip() {
    let frame = frame_with_crc([0xAA, 0xBB, 0xCC, 0x80]);
    assert_eq!(frame[4], 0x2A);
    assert_eq!(frame[5], 0x63);
    let evs = decode(&transmit(&frame_bits(frame)));
    assert_eq!(evs.len(), 1);
    assert_eq!(evs[0].id(), 0xAABBCC);
    assert_eq!(evs[0].bits(), 0x80);
}

/// Round trip of an unregistered device's frame.
#[test]
fn unknown_device_round_trip() {
    let frame = frame_with_crc([0x00, 0x00, 0x01, 0x42]);
    let evs = decode(&transmit(&frame_bits(frame)));
    assert_eq!(evs.len(), 1);
    assert_eq!(evs[0].id(), 0x000001);
    assert_eq!(evs[0].bits(), 0x42);
}

/// A frame whose CRC trailer has one flipped bit is rejected.
#[test]
fn corrupted_crc_is_rejected() {
    let mut frame = frame_with_crc([0xAB, 0xCD, 0xEF, 0x20]);
    assert_eq!(frame[4], 0x71);
    assert_eq!(frame[5], 0x18);
    frame[4] ^= 1;
    let evs = decode(&transmit(&frame_bits(frame)));
    assert_eq!(evs.len(), 0);
}

/// The same frame with its correct trailer is accepted.
#[test]
fn correct_crc_is_accepted() {
    let frame = frame_with_crc([0xAB, 0xCD, 0xEF, 0x20]);
    let evs = decode(&transmit(&frame_bits(frame)));
    assert_eq!(evs.len(), 1);
    assert_eq!(evs[0].id(), 0xABCDEF);
    assert_eq!(evs[0].bits(), 0x20);
}

/// Flipping any single payload bit suppresses the event.
#[test]
fn any_single_payload_flip_is_rejected() {
    let base = frame_with_crc([0x12, 0x34, 0x56, 0x20]);
    for j in 0..6 {
        for t in 0..8 {
            let mut frame = base;
            frame[j] ^= 1u8 << t;
            let evs = decode(&transmit(&frame_bits(frame)));
            assert_eq!(evs.len(), 0, "flip at byte {} bit {}", j, t);
        }
    }
}

/// A frame with an all-zero trailer is suppressed even though its CRC
/// matches (the all-zero payload has CRC zero).
#[test]
fn degenerate_zero_frame_is_suppressed() {
    let frame = frame_with_crc([0x00, 0x00, 0x00, 0x00]);
    assert_eq!(frame[4], 0x00);
    assert_eq!(frame[5], 0x00);
    let evs = decode(&transmit(&frame_bits(frame)));
    assert_eq!(evs.len(), 0);
}

/// Two valid frames back to back produce two events, in order.
#[test]
fn two_frames_in_order() {
    let f1 = frame_with_crc([0x12, 0x34, 0x56, 0x20]);
    let f2 = frame_with_crc([0xAA, 0xBB, 0xCC, 0x80]);
    let mut bits = frame_bits(f1);
    bits.extend(frame_bits(f2));
    let evs = decode(&transmit(&bits));
    assert_eq!(evs.len(), 2);
    assert_eq!(evs[0].id(), 0x123456);
    assert_eq!(evs[0].bits(), 0x20);
    assert_eq!(evs[1].id(), 0xAABBCC);
    assert_eq!(evs[1].bits(), 0x80);
}

/// Resynchronisation: 37 arbitrary bits prepended to the door scenario
/// still yield exactly one event with the same contents.
#[test]
fn resync_after_prefix_bits() {
    let noise = [
        true, false, false, true, true, false, true, false, true, true, true, true, false, false,
        false, true, false, false, true, false, true, false, true, false, false, false, true,
        true, false, true, true, true, false, false, true, true, false,
    ];
    assert_eq!(noise.len(), 37);
    let frame = frame_with_crc([0x12, 0x34, 0x56, 0x20]);
    let mut bits: Vec<bool> = noise.to_vec();
    bits.extend(frame_bits(frame));
    let evs = decode(&transmit(&bits));
    assert_eq!(evs.len(), 1);
    assert_eq!(evs[0].id(), 0x123456);
    assert_eq!(evs[0].bits(), 0x20);
}

/// A one-sample spike in the middle of a long run neither loses the
/// frame nor fabricates an extra bit.
#[test]
fn spike_in_long_run_is_absorbed() {
    let frame = frame_with_crc([0x12, 0x34, 0x56, 0x20]);
    let runs = runs_for_bits(&frame_bits(frame));
    // Pick a long run somewhere inside the frame body and split it
    // around a single opposite-level sample.
    let long_at = runs
        .iter()
        .enumerate()
        .position(|(i, r)| i > 10 && r.1 == 12)
        .expect("a long run exists");
    let (pol, dur) = runs[long_at];
    let mut spiked: Vec<(bool, usize)> = Vec::new();
    spiked.extend(&runs[..long_at]);
    spiked.push((pol, 5));
    spiked.push((!pol, 1));
    spiked.push((pol, dur - 6));
    spiked.extend(&runs[long_at + 1..]);
    let evs = decode(&samples_for_runs(&spiked));
    assert_eq!(evs.len(), 1);
    assert_eq!(evs[0].id(), 0x123456);
    assert_eq!(evs[0].bits(), 0x20);
}

/// Decoding does not depend on how the byte stream is chunked: feeding
/// pairs one at a time gives the same events as one large buffer.
#[test]
fn chunking_does_not_change_events() {
    let frame = frame_with_crc([0xAA, 0xBB, 0xCC, 0x80]);
    let samples = transmit(&frame_bits(frame));
    let whole = decode(&samples);
    let mut d = HW5800::new();
    let mut piecewise: Vec<HW5800Status> = Vec::new();
    for pair in samples.chunks(2) {
        piecewise.extend(d.add_sample(pair[0] as i16 - 127, pair[1] as i16 - 127));
    }
    assert_eq!(whole.len(), piecewise.len());
    for (a, b) in whole.iter().zip(piecewise.iter()) {
        assert_eq!(a.id(), b.id());
        assert_eq!(a.bits(), b.bits());
    }
}

/// A full window whose mean power stays under the threshold is dropped
/// whole: no events now, and nothing pent up that later samples release.
#[test]
fn quiet_window_is_dropped() {
    let mut d = HW5800::new();
    for _ in 0..128 {
        // scaled power 50_000 per sample: window total 6_400_000, under
        // the scaled threshold of 11_552_000
        let evs = d.averaged_sample(50_000);
        assert_eq!(evs.len(), 0);
    }
    for _ in 0..128 {
        let evs = d.averaged_sample(0);
        assert_eq!(evs.len(), 0);
    }
}
