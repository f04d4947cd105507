//! The device registry: known sensors by 24-bit identifier, and the JSON
//! rendering of a decoded status for each kind of device.

use std::collections::HashMap;

use vstd::prelude::*;
use vstd::string::StrSliceExecFns;
use vstd::string::StringExecFns;

use crate::status::HW5800Status;

verus! {

broadcast use vstd::std_specs::hash::group_hash_axioms;

/// The kind of a sensor, which decides how its status bits are read.
#[derive(Debug, Clone, Copy, PartialEq, Eq, Structural)]
pub enum DeviceType {
    Door,
    Motion,
    Unknown,
}

/// Why a registry line was rejected.
#[derive(Debug, Clone, Copy, PartialEq, Eq, Structural)]
pub enum DeviceError {
    MissingField,
    BadId,
    UnknownType,
}

/// Whether a character counts as blank space between the fields of a
/// registry line.
pub open spec fn is_space(c: char) -> bool {
    c == ' ' || c == '\t' || c == '\r'
}

/// The first index at or after `i` holding a non-space character, or the
/// length if there is none.
pub open spec fn skip_ws(s: Seq<char>, i: int) -> int
    decreases s.len() - i,
{
    if i < 0 || i >= s.len() {
        s.len() as int
    } else if is_space(s[i]) {
        skip_ws(s, i + 1)
    } else {
        i
    }
}

/// The first index at or after `i` holding a space, or the length if
/// there is none.
pub open spec fn skip_tok(s: Seq<char>, i: int) -> int
    decreases s.len() - i,
{
    if i < 0 || i >= s.len() {
        s.len() as int
    } else if !is_space(s[i]) {
        skip_tok(s, i + 1)
    } else {
        i
    }
}

/// Whether a character is a hexadecimal digit.
pub open spec fn is_hex_digit(c: char) -> bool {
    ('0' <= c && c <= '9') || ('a' <= c && c <= 'f') || ('A' <= c && c <= 'F')
}

/// The value of one hexadecimal digit.
pub open spec fn hex_char_val(c: char) -> int {
    if '0' <= c && c <= '9' {
        c as int - '0' as int
    } else if 'a' <= c && c <= 'f' {
        c as int - 'a' as int + 10
    } else {
        c as int - 'A' as int + 10
    }
}

/// The base-16 value of a digit string.
pub open spec fn hex_str_val(s: Seq<char>) -> int
    decreases s.len(),
{
    if s.len() == 0 {
        0
    } else {
        16 * hex_str_val(s.drop_last()) + hex_char_val(s.last())
    }
}

/// Whether a token is a well-formed device identifier: one to six
/// hexadecimal digits.
pub open spec fn valid_hex_id(s: Seq<char>) -> bool {
    1 <= s.len() <= 6 && forall|i: int| 0 <= i < s.len() ==> is_hex_digit(#[trigger] s[i])
}

/// Whether a token names the door type, case-insensitively.
pub open spec fn is_door_tok(s: Seq<char>) -> bool {
    s.len() == 4 && (s[0] == 'd' || s[0] == 'D') && (s[1] == 'o' || s[1] == 'O') && (s[2] == 'o'
        || s[2] == 'O') && (s[3] == 'r' || s[3] == 'R')
}

/// Whether a token names the motion type, case-insensitively.
pub open spec fn is_motion_tok(s: Seq<char>) -> bool {
    s.len() == 6 && (s[0] == 'm' || s[0] == 'M') && (s[1] == 'o' || s[1] == 'O') && (s[2] == 't'
        || s[2] == 'T') && (s[3] == 'i' || s[3] == 'I') && (s[4] == 'o' || s[4] == 'O') && (s[5]
        == 'n' || s[5] == 'N')
}

/// What a registry line means: a device identifier of one to six hex
/// digits, blank space, and a device type, with leading blanks allowed
/// and anything after the second field ignored.
pub open spec fn line_spec(s: Seq<char>) -> Result<(u32, DeviceType), DeviceError> {
    let a = skip_ws(s, 0);
    if a == s.len() {
        Err(DeviceError::MissingField)
    } else {
        let b = skip_tok(s, a);
        let t1 = s.subrange(a, b);
        if !valid_hex_id(t1) {
            Err(DeviceError::BadId)
        } else {
            let c = skip_ws(s, b);
            if c == s.len() {
                Err(DeviceError::MissingField)
            } else {
                let d = skip_tok(s, c);
                let t2 = s.subrange(c, d);
                if is_door_tok(t2) {
                    Ok((hex_str_val(t1) as u32, DeviceType::Door))
                } else if is_motion_tok(t2) {
                    Ok((hex_str_val(t1) as u32, DeviceType::Motion))
                } else {
                    Err(DeviceError::UnknownType)
                }
            }
        }
    }
}

/// "y" for a non-zero masked bit field, "n" for zero.
pub open spec fn spec_yes_no(b: u8) -> Seq<char> {
    if b == 0 {
        "n"@
    } else {
        "y"@
    }
}

/// The character for one hexadecimal digit, upper case.
pub open spec fn hex_digit(n: u8) -> Seq<char>
    recommends
        n < 16,
{
    if n == 0 {
        "0"@
    } else if n == 1 {
        "1"@
    } else if n == 2 {
        "2"@
    } else if n == 3 {
        "3"@
    } else if n == 4 {
        "4"@
    } else if n == 5 {
        "5"@
    } else if n == 6 {
        "6"@
    } else if n == 7 {
        "7"@
    } else if n == 8 {
        "8"@
    } else if n == 9 {
        "9"@
    } else if n == 10 {
        "A"@
    } else if n == 11 {
        "B"@
    } else if n == 12 {
        "C"@
    } else if n == 13 {
        "D"@
    } else if n == 14 {
        "E"@
    } else {
        "F"@
    }
}

/// A byte as two upper-case hexadecimal digits.
pub open spec fn hex_byte(b: u8) -> Seq<char> {
    hex_digit(b >> 4) + hex_digit(b & 0xF)
}

/// A byte sequence as hex byte pairs separated by single spaces.
pub open spec fn spec_ary_to_hex(s: Seq<u8>) -> Seq<char>
    decreases s.len(),
{
    if s.len() == 0 {
        Seq::empty()
    } else if s.len() == 1 {
        hex_byte(s[0])
    } else {
        spec_ary_to_hex(s.drop_last()) + " "@ + hex_byte(s.last())
    }
}

/// The JSON rendering of a status for a device of the given type.
pub open spec fn json_chars(t: DeviceType, bits: u8) -> Seq<char> {
    match t {
        DeviceType::Door => "{\"open\":\""@ + spec_yes_no(bits & 0x20) + "\",\"tog\":\""@
            + spec_yes_no(bits & 0x40) + "\",\"b\":\""@ + hex_byte(bits) + "\"}"@,
        DeviceType::Motion => "{\"motion\":\""@ + spec_yes_no(bits & 0x80) + "\",\"tog\":\""@
            + spec_yes_no(bits & 0x40) + "\",\"b\":\""@ + hex_byte(bits) + "\"}"@,
        DeviceType::Unknown => "{\"b\":\""@ + hex_byte(bits) + "\"}"@,
    }
}

/// "n" for a zero bit field, "y" otherwise.
pub fn yes_no(b: u8) -> (r: &'static str)
    ensures
        r@ == spec_yes_no(b),
{
    if b == 0 {
        "n"
    } else {
        "y"
    }
}

/// One hexadecimal digit, upper case.
fn hex_digit_str(n: u8) -> (r: &'static str)
    requires
        n < 16,
    ensures
        r@ == hex_digit(n),
{
    if n == 0 {
        "0"
    } else if n == 1 {
        "1"
    } else if n == 2 {
        "2"
    } else if n == 3 {
        "3"
    } else if n == 4 {
        "4"
    } else if n == 5 {
        "5"
    } else if n == 6 {
        "6"
    } else if n == 7 {
        "7"
    } else if n == 8 {
        "8"
    } else if n == 9 {
        "9"
    } else if n == 10 {
        "A"
    } else if n == 11 {
        "B"
    } else if n == 12 {
        "C"
    } else if n == 13 {
        "D"
    } else if n == 14 {
        "E"
    } else {
        "F"
    }
}

/// Append a byte as two upper-case hexadecimal digits.
fn push_hex_byte(out: &mut String, b: u8)
    ensures
        final(out)@ == old(out)@ + hex_byte(b),
{
    proof {
        assert(b >> 4 < 16 && b & 0xF < 16) by (bit_vector);
    }
    let hi = b >> 4;
    let lo = b & 0xF;
    out.append(hex_digit_str(hi));
    out.append(hex_digit_str(lo));
}

/// Render a byte slice as hex byte pairs separated by single spaces.
pub fn ary_to_hex(msg: &[u8]) -> (r: String)
    ensures
        r@ == spec_ary_to_hex(msg@),
{
    let mut out = String::new();
    let mut i: usize = 0;
    while i < msg.len()
        invariant
            i <= msg@.len(),
            out@ == spec_ary_to_hex(msg@.take(i as int)),
        decreases msg@.len() - i,
    {
        if i > 0 {
            out.append(" ");
        }
        push_hex_byte(&mut out, msg[i]);
        proof {
            assert(msg@.take(i as int + 1).drop_last() =~= msg@.take(i as int));
        }
        i = i + 1;
    }
    proof {
        assert(msg@.take(msg@.len() as int) =~= msg@);
    }
    out
}

/// The registered type of a device, `Unknown` when it is not listed.
pub open spec fn device_type_of(m: Map<u32, DeviceType>, id: u32) -> DeviceType {
    if m.contains_key(id) {
        m[id]
    } else {
        DeviceType::Unknown
    }
}

/// The registry of known devices, keyed by 24-bit identifier.
pub struct DeviceStore(HashMap<u32, DeviceType>);

impl DeviceStore {
    /// The registry's contents.
    pub closed spec fn view(&self) -> Map<u32, DeviceType> {
        self.0@
    }

    /// An empty registry.
    pub fn new() -> (r: Self)
        ensures
            r@ == Map::<u32, DeviceType>::empty(),
    {
        DeviceStore(HashMap::new())
    }

    /// Register a device.
    pub fn insert(&mut self, id: u32, ty: DeviceType)
        ensures
            final(self)@ == old(self)@.insert(id, ty),
    {
        self.0.insert(id, ty);
    }

    /// Parse one registry line and, if it is well-formed, register the
    /// device it names.
    pub fn load_line(&mut self, line: &str) -> (r: Result<(), DeviceError>)
        ensures
            match line_spec(line@) {
                Ok((id, ty)) => r == Ok::<(), DeviceError>(()) && final(self)@ == old(
                    self,
                )@.insert(id, ty),
                Err(e) => r == Err::<(), DeviceError>(e) && final(self)@ == old(self)@,
            },
    {
        match parse_device_line(line) {
            Ok((id, ty)) => {
                self.insert(id, ty);
                Ok(())
            },
            Err(e) => Err(e),
        }
    }

    /// The JSON rendering of a status: door and motion devices name their
    /// active bit, every rendering carries the full status byte as two
    /// upper-case hex digits.
    pub fn as_json(&self, status: &HW5800Status) -> (r: String)
        ensures
            r@ == json_chars(device_type_of(self@, status.spec_id()), status.spec_bits()),
    {
        let id = status.id();
        let ty = match self.0.get(&id) {
            Some(t) => *t,
            None => DeviceType::Unknown,
        };
        let bits = status.bits();
        let mut out = String::new();
        match ty {
            DeviceType::Door => {
                out.append("{\"open\":\"");
                out.append(yes_no(bits & 0x20));
                out.append("\",\"tog\":\"");
                out.append(yes_no(bits & 0x40));
                out.append("\",\"b\":\"");
                push_hex_byte(&mut out, bits);
                out.append("\"}");
            },
            DeviceType::Motion => {
                out.append("{\"motion\":\"");
                out.append(yes_no(bits & 0x80));
                out.append("\",\"tog\":\"");
                out.append(yes_no(bits & 0x40));
                out.append("\",\"b\":\"");
                push_hex_byte(&mut out, bits);
                out.append("\"}");
            },
            DeviceType::Unknown => {
                out.append("{\"b\":\"");
                push_hex_byte(&mut out, bits);
                out.append("\"}");
            },
        }
        out
    }
}

/// Parse a device type name, as the registry loader does.
impl std::str::FromStr for DeviceType {
    type Err = DeviceError;

    fn from_str(s: &str) -> (r: Result<Self, DeviceError>)
        ensures
            is_door_tok(s@) ==> r == Ok::<DeviceType, DeviceError>(DeviceType::Door),
            is_motion_tok(s@) ==> r == Ok::<DeviceType, DeviceError>(DeviceType::Motion),
            !is_door_tok(s@) && !is_motion_tok(s@) ==> r == Err::<DeviceType, DeviceError>(
                DeviceError::UnknownType,
            ),
    {
        match parse_device_type(s) {
            Some(t) => Ok(t),
            None => Err(DeviceError::UnknownType),
        }
    }
}

/// Find the first non-space position at or after `i`.
fn find_non_space(s: &str, i: usize) -> (r: usize)
    requires
        i <= s@.len(),
    ensures
        r == skip_ws(s@, i as int),
        i <= r <= s@.len(),
        r < s@.len() ==> !is_space(s@[r as int]),
{
    let n = s.unicode_len();
    let mut j = i;
    while j < n && is_space_char(s.get_char(j))
        invariant
            i <= j <= n,
            n == s@.len(),
            skip_ws(s@, i as int) == skip_ws(s@, j as int),
        decreases n - j,
    {
        j = j + 1;
    }
    j
}

/// Find the first space position at or after `i`, or the end.
fn find_space(s: &str, i: usize) -> (r: usize)
    requires
        i <= s@.len(),
    ensures
        r == skip_tok(s@, i as int),
        i <= r <= s@.len(),
{
    let n = s.unicode_len();
    let mut j = i;
    while j < n && !is_space_char(s.get_char(j))
        invariant
            i <= j <= n,
            n == s@.len(),
            skip_tok(s@, i as int) == skip_tok(s@, j as int),
        decreases n - j,
    {
        j = j + 1;
    }
    j
}

/// Whether a character is blank space between fields.
fn is_space_char(c: char) -> (r: bool)
    ensures
        r == is_space(c),
{
    c == ' ' || c == '\t' || c == '\r'
}

/// Parse a device identifier token: one to six hexadecimal digits,
/// base 16.
fn parse_hex_id(s: &str) -> (r: Option<u32>)
    ensures
        valid_hex_id(s@) ==> r == Some((hex_str_val(s@) as u32)),
        !valid_hex_id(s@) ==> r == None::<u32>,
{
    let n = s.unicode_len();
    if n < 1 || n > 6 {
        return None;
    }
    let mut acc: u32 = 0;
    let mut i: usize = 0;
    while i < n
        invariant
            i <= n,
            n == s@.len(),
            1 <= n <= 6,
            forall|t: int| 0 <= t < i ==> is_hex_digit(#[trigger] s@[t]),
            acc == hex_str_val(s@.take(i as int)),
            i == 0 ==> acc == 0,
            i == 1 ==> acc < 0x10,
            i == 2 ==> acc < 0x100,
            i == 3 ==> acc < 0x1000,
            i == 4 ==> acc < 0x10000,
            i == 5 ==> acc < 0x100000,
            i == 6 ==> acc < 0x1000000,
        decreases n - i,
    {
        let c = s.get_char(i);
        let d: u32 = if '0' <= c && c <= '9' {
            c as u32 - '0' as u32
        } else if 'a' <= c && c <= 'f' {
            c as u32 - 'a' as u32 + 10
        } else if 'A' <= c && c <= 'F' {
            c as u32 - 'A' as u32 + 10
        } else {
            return None;
        };
        proof {
            assert(s@.take(i as int + 1).drop_last() =~= s@.take(i as int));
        }
        acc = acc * 16 + d;
        i = i + 1;
    }
    proof {
        assert(s@.take(n as int) =~= s@);
    }
    Some(acc)
}

/// Parse a device type token, case-insensitively.
fn parse_device_type(s: &str) -> (r: Option<DeviceType>)
    ensures
        is_door_tok(s@) ==> r == Some(DeviceType::Door),
        is_motion_tok(s@) ==> r == Some(DeviceType::Motion),
        !is_door_tok(s@) && !is_motion_tok(s@) ==> r == None::<DeviceType>,
{
    let n = s.unicode_len();
    if n == 4 {
        let c0 = s.get_char(0);
        let c1 = s.get_char(1);
        let c2 = s.get_char(2);
        let c3 = s.get_char(3);
        if (c0 == 'd' || c0 == 'D') && (c1 == 'o' || c1 == 'O') && (c2 == 'o' || c2 == 'O') && (c3
            == 'r' || c3 == 'R') {
            return Some(DeviceType::Door);
        }
        None
    } else if n == 6 {
        let c0 = s.get_char(0);
        let c1 = s.get_char(1);
        let c2 = s.get_char(2);
        let c3 = s.get_char(3);
        let c4 = s.get_char(4);
        let c5 = s.get_char(5);
        if (c0 == 'm' || c0 == 'M') && (c1 == 'o' || c1 == 'O') && (c2 == 't' || c2 == 'T') && (c3
            == 'i' || c3 == 'I') && (c4 == 'o' || c4 == 'O') && (c5 == 'n' || c5 == 'N') {
            return Some(DeviceType::Motion);
        }
        None
    } else {
        None
    }
}

/// Parse one registry line: a hex device identifier, blank space, and a
/// device type; anything after the second field is ignored.
pub fn parse_device_line(line: &str) -> (r: Result<(u32, DeviceType), DeviceError>)
    ensures
        r == line_spec(line@),
{
    let a = find_non_space(line, 0);
    let n = line.unicode_len();
    if a == n {
        return Err(DeviceError::MissingField);
    }
    let b = find_space(line, a);
    let t1 = line.substring_char(a, b);
    proof {
        assert(t1@ == line@.subrange(a as int, b as int));
    }
    let id = match parse_hex_id(t1) {
        Some(v) => v,
        None => {
            return Err(DeviceError::BadId);
        },
    };
    let c = find_non_space(line, b);
    if c == n {
        return Err(DeviceError::MissingField);
    }
    let d = find_space(line, c);
    let t2 = line.substring_char(c, d);
    match parse_device_type(t2) {
        Some(ty) => Ok((id, ty)),
        None => Err(DeviceError::UnknownType),
    }
}

} // verus!
