use hw5800::devices::ary_to_hex;
use hw5800::devices::parse_device_line;
use hw5800::devices::yes_no;
use hw5800::devices::DeviceError;
use hw5800::DeviceStore;
use hw5800::DeviceType;
use hw5800::HW5800Status;

fn status_of(frame: &[u8]) -> HW5800Status {
    HW5800Status::new(frame)
}

#[test]
fn status_fields() {
    let s = status_of(&[0x12, 0x34, 0x56, 0x20, 0x9F, 0x50]);
    assert_eq!(s.id(), 0x123456);
    assert_eq!(s.bits(), 0x20);
}

#[test]
fn yes_no_values() {
    assert_eq!(yes_no(0), "n");
    assert_eq!(yes_no(0x20), "y");
}

#[test]
fn hex_rendering() {
    assert_eq!(ary_to_hex(&[]), "");
    assert_eq!(ary_to_hex(&[0x0A]), "0A");
    assert_eq!(ary_to_hex(&[0x12, 0xAB, 0x00]), "12 AB 00");
}

/// The door rendering of the documented door-open scenario.
#[test]
fn json_door_open() {
    let mut store = DeviceStore::new();
    store.insert(0x123456, DeviceType::Door);
    let s = status_of(&[0x12, 0x34, 0x56, 0x20]);
    assert_eq!(store.as_json(&s), "{\"open\":\"y\",\"tog\":\"n\",\"b\":\"20\"}");
}

/// The motion rendering of the documented motion scenario.
#[test]
fn json_motion() {
    let mut store = DeviceStore::new();
    store.insert(0xAABBCC, DeviceType::Motion);
    let s = status_of(&[0xAA, 0xBB, 0xCC, 0x80]);
    assert_eq!(
        store.as_json(&s),
        "{\"motion\":\"y\",\"tog\":\"n\",\"b\":\"80\"}"
    );
}

/// A device that is not registered renders only its status byte.
#[test]
fn json_unknown_device() {
    let store = DeviceStore::new();
    let s = status_of(&[0x00, 0x00, 0x01, 0x42]);
    assert_eq!(store.as_json(&s), "{\"b\":\"42\"}");
}

#[test]
fn json_toggle_bit() {
    let mut store = DeviceStore::new();
    store.insert(0x000001, DeviceType::Door);
    let s = status_of(&[0x00, 0x00, 0x01, 0x60]);
    assert_eq!(store.as_json(&s), "{\"open\":\"y\",\"tog\":\"y\",\"b\":\"60\"}");
}

#[test]
fn parse_line_door() {
    assert_eq!(
        parse_device_line("123456 door"),
        Ok((0x123456, DeviceType::Door))
    );
}

#[test]
fn parse_line_case_insensitive_and_padded() {
    assert_eq!(
        parse_device_line("  aBcDeF   MOTION  trailing junk"),
        Ok((0xABCDEF, DeviceType::Motion))
    );
}

#[test]
fn parse_line_short_id() {
    assert_eq!(parse_device_line("1 Door"), Ok((0x1, DeviceType::Door)));
}

#[test]
fn parse_line_errors() {
    assert_eq!(parse_device_line(""), Err(DeviceError::MissingField));
    assert_eq!(parse_device_line("   "), Err(DeviceError::MissingField));
    assert_eq!(parse_device_line("123456"), Err(DeviceError::MissingField));
    assert_eq!(parse_device_line("12345x door"), Err(DeviceError::BadId));
    assert_eq!(parse_device_line("1234567 door"), Err(DeviceError::BadId));
    assert_eq!(parse_device_line("123456 window"), Err(DeviceError::UnknownType));
}

#[test]
fn load_line_registers_device() {
    let mut store = DeviceStore::new();
    assert_eq!(store.load_line("123456 door"), Ok(()));
    let s = status_of(&[0x12, 0x34, 0x56, 0x00]);
    assert_eq!(store.as_json(&s), "{\"open\":\"n\",\"tog\":\"n\",\"b\":\"00\"}");
    assert_eq!(
        store.load_line("123456 spa"),
        Err(DeviceError::UnknownType)
    );
}

#[test]
fn device_type_from_str() {
    assert_eq!("door".parse::<DeviceType>(), Ok(DeviceType::Door));
    assert_eq!("Motion".parse::<DeviceType>(), Ok(DeviceType::Motion));
    assert_eq!(
        "window".parse::<DeviceType>(),
        Err(DeviceError::UnknownType)
    );
}
