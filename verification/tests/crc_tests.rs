use crc16::CrcType;

use hw5800::crc;

/// The CRC of the documented test vector, pinned as a golden constant and
/// checked against an independent reference implementation.
#[test]
fn crc_golden_vector() {
    let v = [0xABu8, 0xCD, 0xEF, 0x20];
    let ours = crc(&v);
    assert_eq!(ours, 0x7118);
    let reference = crc16::BUYPASS::get(crc16::BUYPASS::update(crc16::BUYPASS::init(), &v));
    assert_eq!(ours, reference);
}

/// The well-known CRC-16/BUYPASS check value.
#[test]
fn crc_check_value() {
    assert_eq!(crc(b"123456789"), 0xFEE8);
    assert_eq!(
        crc(b"123456789"),
        crc16::State::<crc16::BUYPASS>::calculate(b"123456789")
    );
}

/// The empty message has CRC zero (initial value, no final XOR).
#[test]
fn crc_empty() {
    assert_eq!(crc(&[]), 0x0000);
    assert_eq!(crc(&[0, 0, 0, 0]), 0x0000);
}

/// Flipping any single payload bit changes the CRC.
#[test]
fn crc_sensitive_to_single_bit() {
    let base = [0xABu8, 0xCD, 0xEF, 0x20];
    let c = crc(&base);
    for j in 0..4 {
        for t in 0..8 {
            let mut v = base;
            v[j] ^= 1u8 << t;
            assert_ne!(crc(&v), c, "flip at byte {} bit {}", j, t);
        }
    }
}

/// Longer inputs agree with the reference implementation.
#[test]
fn crc_matches_reference_on_various_inputs() {
    let cases: [&[u8]; 5] = [
        &[],
        &[0xFF],
        &[0x12, 0x34, 0x56, 0x20, 0x9F, 0x50],
        &[0x00, 0x00, 0x01, 0x42],
        &[1, 2, 3, 4, 5, 6, 7, 8, 9, 10, 11, 12, 13, 14, 15, 16],
    ];
    for c in cases.iter() {
        assert_eq!(crc(c), crc16::State::<crc16::BUYPASS>::calculate(c));
    }
}
