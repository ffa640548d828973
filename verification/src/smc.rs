//! The system management controller: its keys, how their values are laid out in
//! bytes, and the order in which they are asked for and written.
use std::collections::HashMap;
use vstd::prelude::*;

use crate::text::chars_of;
use crate::text::concat_assoc;
use crate::text::dec;
use crate::text::push_dec;
use crate::text::char_range;
pub use crate::values::Value;

verus! {

// ── Errors ───────────────────────────────────────────────────────────────────

/// A number as it is written in decimal.
pub open spec fn signed_dec(n: int) -> Seq<char> {
    if n < 0 {
        "-"@ + dec((-n) as nat)
    } else {
        dec(n as nat)
    }
}

/// Appends a number in decimal.
fn push_signed(out: &mut String, n: i32)
    ensures
        final(out)@ == old(out)@ + signed_dec(n as int),
{
    broadcast use concat_assoc;

    if n < 0 {
        out.append("-");
        push_dec(out, (-(n as i64)) as u64);
    } else {
        push_dec(out, n as u64);
    }
}

/// Why the controller could not be opened.
#[derive(Debug, Clone, Copy, PartialEq, Eq)]
pub enum SmcError {
    /// There is no controller service: a virtual machine, a container.
    ServiceNotFound,
    /// Opening the service failed with this kernel code.
    OpenFailed(i32),
}

impl SmcError {
    /// The error in words.
    pub open spec fn words(self) -> Seq<char> {
        match self {
            SmcError::ServiceNotFound => "AppleSMC service not found"@,
            SmcError::OpenFailed(kr) => "IOServiceOpen failed: kern_return_t "@ + signed_dec(
                kr as int,
            ),
        }
    }

    /// The error in words.
    pub fn message(&self) -> (r: String)
        ensures
            r@ == self.words(),
    {
        match self {
            SmcError::ServiceNotFound => "AppleSMC service not found".to_string(),
            SmcError::OpenFailed(kr) => {
                let mut out: String = "IOServiceOpen failed: kern_return_t ".to_string();
                push_signed(&mut out, *kr);
                out
            },
        }
    }
}

/// Why a key could not be written.
#[derive(Debug, Clone, Copy, PartialEq, Eq)]
pub enum SmcWriteError {
    /// The key is absent here, or of a type that is not supported.
    KeyNotFound,
    /// The kernel refused the write with this code; mostly for want of root.
    IoError(i32),
}

impl SmcWriteError {
    /// The error in words.
    pub open spec fn words(self) -> Seq<char> {
        match self {
            SmcWriteError::KeyNotFound => "SMC key not found on this hardware"@,
            SmcWriteError::IoError(kr) => "SMC write failed: kern_return_t "@ + signed_dec(
                kr as int,
            ),
        }
    }

    /// The error in words.
    pub fn message(&self) -> (r: String)
        ensures
            r@ == self.words(),
    {
        match self {
            SmcWriteError::KeyNotFound => "SMC key not found on this hardware".to_string(),
            SmcWriteError::IoError(kr) => {
                let mut out: String = "SMC write failed: kern_return_t ".to_string();
                push_signed(&mut out, *kr);
                out
            },
        }
    }
}

// ── Four-character codes ─────────────────────────────────────────────────────

/// Four bytes as one number, the first one highest.
pub open spec fn big_endian(b: Seq<u8>) -> int {
    b[0] * 0x100_0000 + b[1] * 0x1_0000 + b[2] * 0x100 + b[3]
}

/// Four bytes as one number, the first one lowest.
pub open spec fn little_endian(b: Seq<u8>) -> int {
    b[0] + b[1] * 0x100 + b[2] * 0x1_0000 + b[3] * 0x100_0000
}

/// The number of a four-character code.
pub fn four_cc(s: &[u8; 4]) -> (r: u32)
    ensures
        r == big_endian(s@),
{
    s[0] as u32 * 0x100_0000 + s[1] as u32 * 0x1_0000 + s[2] as u32 * 0x100 + s[3] as u32
}

/// The four-character code of a number.
pub fn four_bytes(n: u32) -> (r: [u8; 4])
    ensures
        big_endian(r@) == n,
{
    [
        (n / 0x100_0000) as u8,
        (n / 0x1_0000 % 0x100) as u8,
        (n / 0x100 % 0x100) as u8,
        (n % 0x100) as u8,
    ]
}

/// No two four-character codes have the same number.
pub proof fn codes_are_distinct(a: Seq<u8>, b: Seq<u8>)
    requires
        a.len() == 4,
        b.len() == 4,
        big_endian(a) == big_endian(b),
    ensures
        a == b,
{
    let (a0, a1, a2, a3) = (a[0] as int, a[1] as int, a[2] as int, a[3] as int);
    let (b0, b1, b2, b3) = (b[0] as int, b[1] as int, b[2] as int, b[3] as int);
    lemma_low_byte(a0 * 0x1_0000 + a1 * 0x100 + a2, a3, b0 * 0x1_0000 + b1 * 0x100 + b2, b3);
    lemma_low_byte(a0 * 0x100 + a1, a2, b0 * 0x100 + b1, b2);
    lemma_low_byte(a0, a1, b0, b1);
    assert(a =~= b);
}

proof fn lemma_low_byte(a: int, x: int, b: int, y: int)
    requires
        0 <= x < 0x100,
        0 <= y < 0x100,
        a * 0x100 + x == b * 0x100 + y,
    ensures
        a == b,
        x == y,
{
}

/// The number of the code that is written this way, 0 for what is not four ASCII
/// characters.
pub open spec fn name_code(name: Seq<char>) -> u32 {
    if name.len() == 4 && '\x7f' >= name[0] && '\x7f' >= name[1] && '\x7f' >= name[2] && '\x7f'
        >= name[3] {
        big_endian(
            seq![name[0] as u8, name[1] as u8, name[2] as u8, name[3] as u8],
        ) as u32
    } else {
        0
    }
}

/// The number of the code that is written this way.
pub fn code_of(name: &str) -> (r: u32)
    ensures
        r == name_code(name@),
{
    let v: Vec<char> = chars_of(name);
    if v.len() == 4 && '\x7f' >= v[0] && '\x7f' >= v[1] && '\x7f' >= v[2] && '\x7f' >= v[3] {
        four_cc(&[v[0] as u8, v[1] as u8, v[2] as u8, v[3] as u8])
    } else {
        0
    }
}

// ── Layouts ──────────────────────────────────────────────────────────────────

/// How a value is laid out. The fractional types have their lowest byte first, the
/// integer types their highest.
#[derive(Debug, Clone, Copy, PartialEq, Eq)]
pub enum Decoder {
    /// Floating point, four bytes (`flt `).
    Flt,
    /// Signed, eight bits of them fraction, two bytes (`sp78`).
    Sp78,
    /// Unsigned, sixteen bits of them fraction, four bytes (`ioft`).
    Ioft,
    /// Unsigned, one byte (`ui8 `).
    Ui8,
    /// Unsigned, two bytes (`ui16`).
    Ui16,
    /// Signed, two bytes (`si16`).
    Si16,
    /// Unsigned, four bytes (`ui32`).
    Ui32,
}

/// Sixteen bits, read as a signed number.
pub open spec fn as_signed(n: int) -> int {
    if n < 0x8000 {
        n
    } else {
        n - 0x1_0000
    }
}

impl Decoder {
    /// The layout of a data type.
    pub open spec fn named(data_type: u32) -> Option<Decoder> {
        if data_type == name_code("flt "@) {
            Some(Decoder::Flt)
        } else if data_type == name_code("sp78"@) {
            Some(Decoder::Sp78)
        } else if data_type == name_code("ioft"@) {
            Some(Decoder::Ioft)
        } else if data_type == name_code("ui8 "@) {
            Some(Decoder::Ui8)
        } else if data_type == name_code("ui16"@) {
            Some(Decoder::Ui16)
        } else if data_type == name_code("si16"@) {
            Some(Decoder::Si16)
        } else if data_type == name_code("ui32"@) {
            Some(Decoder::Ui32)
        } else {
            None
        }
    }

    /// How many bytes a value takes.
    pub open spec fn width(self) -> int {
        match self {
            Decoder::Ui8 => 1,
            Decoder::Sp78 | Decoder::Ui16 | Decoder::Si16 => 2,
            _ => 4,
        }
    }

    /// How many bits of a value are fraction.
    pub open spec fn fraction(self) -> u8 {
        match self {
            Decoder::Sp78 => 8,
            Decoder::Ioft => 16,
            _ => 0,
        }
    }

    /// The value in these bytes.
    pub open spec fn decoded(self, b: Seq<u8>) -> Value {
        match self {
            Decoder::Flt => Value::Float(little_endian(b) as u32),
            Decoder::Sp78 => Value::Fixed {
                mantissa: as_signed(b[0] + b[1] * 0x100) as i64,
                fraction: 8,
            },
            Decoder::Ioft => Value::Fixed { mantissa: little_endian(b) as i64, fraction: 16 },
            Decoder::Ui8 => Value::Fixed { mantissa: b[0] as i64, fraction: 0 },
            Decoder::Ui16 => Value::Fixed {
                mantissa: (b[0] * 0x100 + b[1]) as i64,
                fraction: 0,
            },
            Decoder::Si16 => Value::Fixed {
                mantissa: as_signed(b[0] * 0x100 + b[1]) as i64,
                fraction: 0,
            },
            Decoder::Ui32 => Value::Fixed { mantissa: big_endian(b) as i64, fraction: 0 },
        }
    }

    /// Whether a value can be laid out this way.
    pub open spec fn holds(self, value: Value) -> bool {
        match (self, value) {
            (Decoder::Flt, Value::Float(_)) => true,
            (_, Value::Float(_)) => false,
            (Decoder::Flt, Value::Fixed { .. }) => false,
            (_, Value::Fixed { mantissa, fraction }) => fraction == self.fraction() && (
            match self {
                Decoder::Sp78 | Decoder::Si16 => -0x8000 <= mantissa < 0x8000,
                Decoder::Ui8 => 0 <= mantissa < 0x100,
                Decoder::Ui16 => 0 <= mantissa < 0x1_0000,
                _ => 0 <= mantissa < 0x1_0000_0000,
            }),
        }
    }

    /// The layout of a data type, if it is supported.
    pub fn of_type(data_type: u32) -> (r: Option<Decoder>)
        ensures
            r == Decoder::named(data_type),
    {
        if data_type == code_of("flt ") {
            Some(Decoder::Flt)
        } else if data_type == code_of("sp78") {
            Some(Decoder::Sp78)
        } else if data_type == code_of("ioft") {
            Some(Decoder::Ioft)
        } else if data_type == code_of("ui8 ") {
            Some(Decoder::Ui8)
        } else if data_type == code_of("ui16") {
            Some(Decoder::Ui16)
        } else if data_type == code_of("si16") {
            Some(Decoder::Si16)
        } else if data_type == code_of("ui32") {
            Some(Decoder::Ui32)
        } else {
            None
        }
    }

    /// The value in these bytes.
    pub fn decode(self, bytes: &[u8; 32]) -> (r: Value)
        ensures
            r == self.decoded(bytes@),
    {
        let low: i64 = bytes[0] as i64 + bytes[1] as i64 * 0x100;
        let high: i64 = bytes[0] as i64 * 0x100 + bytes[1] as i64;
        match self {
            Decoder::Flt => Value::Float(
                (low + bytes[2] as i64 * 0x1_0000 + bytes[3] as i64 * 0x100_0000) as u32,
            ),
            Decoder::Sp78 => Value::Fixed {
                mantissa: if low < 0x8000 {
                    low
                } else {
                    low - 0x1_0000
                },
                fraction: 8,
            },
            Decoder::Ioft => Value::Fixed {
                mantissa: low + bytes[2] as i64 * 0x1_0000 + bytes[3] as i64 * 0x100_0000,
                fraction: 16,
            },
            Decoder::Ui8 => Value::Fixed { mantissa: bytes[0] as i64, fraction: 0 },
            Decoder::Ui16 => Value::Fixed { mantissa: high, fraction: 0 },
            Decoder::Si16 => Value::Fixed {
                mantissa: if high < 0x8000 {
                    high
                } else {
                    high - 0x1_0000
                },
                fraction: 0,
            },
            Decoder::Ui32 => Value::Fixed {
                mantissa: high * 0x1_0000 + bytes[2] as i64 * 0x100 + bytes[3] as i64,
                fraction: 0,
            },
        }
    }

    /// Lays a value out in the first bytes, and leaves the others as they are: what
    /// is read back is the value.
    pub fn encode(self, value: Value, bytes: &mut [u8; 32])
        requires
            self.holds(value),
        ensures
            self.decoded(final(bytes)@) == value,
            forall|i: int| self.width() <= i < 32 ==> #[trigger] final(bytes)@[i] == old(bytes)@[i],
    {
        let n: u32 = match value {
            Value::Float(bits) => bits,
            Value::Fixed { mantissa, .. } => if mantissa < 0 {
                (mantissa + 0x1_0000) as u32
            } else {
                mantissa as u32
            },
        };
        let w: [u8; 4] = four_bytes(n);
        match self {
            Decoder::Ui8 => {
                bytes.set(0, w[3]);
            },
            Decoder::Sp78 => {
                bytes.set(0, w[3]);
                bytes.set(1, w[2]);
            },
            Decoder::Ui16 | Decoder::Si16 => {
                bytes.set(0, w[2]);
                bytes.set(1, w[3]);
            },
            Decoder::Flt | Decoder::Ioft => {
                bytes.set(0, w[3]);
                bytes.set(1, w[2]);
                bytes.set(2, w[1]);
                bytes.set(3, w[0]);
            },
            Decoder::Ui32 => {
                bytes.set(0, w[0]);
                bytes.set(1, w[1]);
                bytes.set(2, w[2]);
                bytes.set(3, w[3]);
            },
        }
    }
}

/// What is read is a value that could have been written.
pub proof fn read_values_can_be_written(decoder: Decoder, bytes: Seq<u8>)
    requires
        bytes.len() == 32,
    ensures
        decoder.holds(decoder.decoded(bytes)),
{
}

/// A value has one layout: bytes that read as the same value agree in all that the
/// value takes.
pub proof fn values_have_one_layout(decoder: Decoder, a: Seq<u8>, b: Seq<u8>, i: int)
    requires
        a.len() == 32,
        b.len() == 32,
        decoder.decoded(a) == decoder.decoded(b),
        0 <= i < decoder.width(),
    ensures
        a[i] == b[i],
{
    let (a0, a1, a2, a3) = (a[0] as int, a[1] as int, a[2] as int, a[3] as int);
    let (b0, b1, b2, b3) = (b[0] as int, b[1] as int, b[2] as int, b[3] as int);
    match decoder {
        Decoder::Ui8 => {},
        Decoder::Sp78 => {
            assert(as_signed(a0 + a1 * 0x100) == as_signed(b0 + b1 * 0x100));
            lemma_low_byte(a1, a0, b1, b0);
        },
        Decoder::Ui16 => {
            lemma_low_byte(a0, a1, b0, b1);
        },
        Decoder::Si16 => {
            assert(as_signed(a0 * 0x100 + a1) == as_signed(b0 * 0x100 + b1));
            lemma_low_byte(a0, a1, b0, b1);
        },
        Decoder::Flt | Decoder::Ioft => {
            assert(little_endian(a) == little_endian(b));
            codes_are_distinct(seq![a[3], a[2], a[1], a[0]], seq![b[3], b[2], b[1], b[0]]);
            assert(seq![a[3], a[2], a[1], a[0]][3 - i] == seq![b[3], b[2], b[1], b[0]][3 - i]);
        },
        Decoder::Ui32 => {
            assert(big_endian(a) == big_endian(b));
            codes_are_distinct(seq![a[0], a[1], a[2], a[3]], seq![b[0], b[1], b[2], b[3]]);
            assert(seq![a[0], a[1], a[2], a[3]][i] == seq![b[0], b[1], b[2], b[3]][i]);
        },
    }
}

// ── Keys ─────────────────────────────────────────────────────────────────────

/// How many keys are read by their place in the lists below.
pub const KEY_COUNT: usize = 41;

/// The place of the number of fans.
pub const K_FNUM: usize = 20;

/// The place of the greatest speed of the first fan.
pub const K_F0MX: usize = 24;

/// The place of the greatest speed of the second fan.
pub const K_F1MX: usize = 28;

/// How many keys are looked for when the controller is opened.
pub const PROBES: usize = 61;

/// Power rails.
pub open spec fn power_codes() -> Seq<u32> {
    seq![
        name_code("PSTR"@), name_code("PPBR"@), name_code("PHPC"@), name_code("PDTR"@),
        name_code("PCPT"@), name_code("PGTR"@), name_code("PANT"@), name_code("PSDC"@),
        name_code("PBUS"@),
    ]
}

fn power_keys() -> (r: Vec<u32>)
    ensures
        r@ == power_codes(),
{
    vec![
        code_of("PSTR"), code_of("PPBR"), code_of("PHPC"), code_of("PDTR"), code_of("PCPT"),
        code_of("PGTR"), code_of("PANT"), code_of("PSDC"), code_of("PBUS"),
    ]
}

/// Temperatures.
pub open spec fn thermal_codes() -> Seq<u32> {
    seq![
        name_code("Tp04"@), name_code("Tp0a"@), name_code("Tg0d"@), name_code("TW0P"@),
        name_code("TA0P"@), name_code("Ts0S"@), name_code("Tb0P"@), name_code("TC0P"@),
        name_code("Tg0a"@), name_code("TG0P"@), name_code("Tm0a"@),
    ]
}

fn thermal_keys() -> (r: Vec<u32>)
    ensures
        r@ == thermal_codes(),
{
    vec![
        code_of("Tp04"), code_of("Tp0a"), code_of("Tg0d"), code_of("TW0P"), code_of("TA0P"),
        code_of("Ts0S"), code_of("Tb0P"), code_of("TC0P"), code_of("Tg0a"), code_of("TG0P"),
        code_of("Tm0a"),
    ]
}

/// Fans: their number, and of each its actual, target, least and greatest speed.
pub open spec fn fan_codes() -> Seq<u32> {
    seq![
        name_code("FNum"@), name_code("F0Ac"@), name_code("F0Tg"@), name_code("F0Mn"@),
        name_code("F0Mx"@), name_code("F1Ac"@), name_code("F1Tg"@), name_code("F1Mn"@),
        name_code("F1Mx"@),
    ]
}

fn fan_keys() -> (r: Vec<u32>)
    ensures
        r@ == fan_codes(),
{
    vec![
        code_of("FNum"), code_of("F0Ac"), code_of("F0Tg"), code_of("F0Mn"), code_of("F0Mx"),
        code_of("F1Ac"), code_of("F1Tg"), code_of("F1Mn"), code_of("F1Mx"),
    ]
}

/// Voltages.
pub open spec fn voltage_codes() -> Seq<u32> {
    seq![
        name_code("VP0R"@), name_code("VD0R"@), name_code("VC0C"@), name_code("VG0C"@),
    ]
}

fn voltage_keys() -> (r: Vec<u32>)
    ensures
        r@ == voltage_codes(),
{
    vec![
        code_of("VP0R"), code_of("VD0R"), code_of("VC0C"), code_of("VG0C"),
    ]
}

/// Currents.
pub open spec fn current_codes() -> Seq<u32> {
    seq![
        name_code("ID0R"@), name_code("IC0C"@), name_code("IG0C"@),
    ]
}

fn current_keys() -> (r: Vec<u32>)
    ensures
        r@ == current_codes(),
{
    vec![
        code_of("ID0R"), code_of("IC0C"), code_of("IG0C"),
    ]
}

/// Battery: voltage, current, power, remaining and full charge.
pub open spec fn battery_codes() -> Seq<u32> {
    seq![
        name_code("B0AV"@), name_code("B0DC"@), name_code("B0AP"@), name_code("B0RM"@),
        name_code("B0FC"@),
    ]
}

fn battery_keys() -> (r: Vec<u32>)
    ensures
        r@ == battery_codes(),
{
    vec![
        code_of("B0AV"), code_of("B0DC"), code_of("B0AP"), code_of("B0RM"), code_of("B0FC"),
    ]
}

/// Temperatures of the processor cores.
pub open spec fn cpu_temp_codes() -> Seq<u32> {
    seq![
        name_code("Tp01"@), name_code("Tp02"@), name_code("Tp03"@), name_code("Tp04"@),
        name_code("Tp05"@), name_code("Tp06"@), name_code("Tp07"@), name_code("Tp08"@),
        name_code("Tp09"@), name_code("Tp0a"@), name_code("Tp0b"@), name_code("Tp0c"@),
        name_code("Tp0d"@), name_code("Tp0e"@), name_code("Tp0f"@),
    ]
}

fn cpu_temp_keys() -> (r: Vec<u32>)
    ensures
        r@ == cpu_temp_codes(),
{
    vec![
        code_of("Tp01"), code_of("Tp02"), code_of("Tp03"), code_of("Tp04"), code_of("Tp05"),
        code_of("Tp06"), code_of("Tp07"), code_of("Tp08"), code_of("Tp09"), code_of("Tp0a"),
        code_of("Tp0b"), code_of("Tp0c"), code_of("Tp0d"), code_of("Tp0e"), code_of("Tp0f"),
    ]
}

/// Temperatures of the graphics dies.
pub open spec fn gpu_temp_codes() -> Seq<u32> {
    seq![
        name_code("Tg0a"@), name_code("Tg0b"@), name_code("Tg0c"@), name_code("Tg0d"@),
        name_code("Tg0f"@),
    ]
}

fn gpu_temp_keys() -> (r: Vec<u32>)
    ensures
        r@ == gpu_temp_codes(),
{
    vec![
        code_of("Tg0a"), code_of("Tg0b"), code_of("Tg0c"), code_of("Tg0d"), code_of("Tg0f"),
    ]
}

/// The keys that are read by their place.
pub open spec fn all_codes() -> Seq<u32> {
    power_codes() + thermal_codes() + fan_codes() + voltage_codes() + current_codes()
        + battery_codes()
}

/// The keys that are looked for when the controller is opened.
pub open spec fn probe_codes() -> Seq<u32> {
    all_codes() + cpu_temp_codes() + gpu_temp_codes()
}

/// The keys that are looked for when the controller is opened, in their order.
pub fn probe_keys() -> (r: Vec<u32>)
    ensures
        r@ == probe_codes(),
        r@.len() == PROBES,
{
    broadcast use concat_assoc;

    let mut r: Vec<u32> = power_keys();
    r.append(&mut thermal_keys());
    r.append(&mut fan_keys());
    r.append(&mut voltage_keys());
    r.append(&mut current_keys());
    r.append(&mut battery_keys());
    r.append(&mut cpu_temp_keys());
    r.append(&mut gpu_temp_keys());
    r
}

/// What the controller tells of a key.
#[derive(Debug, Clone, Copy, PartialEq, Eq)]
pub struct KeyInfo {
    pub data_size: u32,
    pub data_type: u32,
    pub attributes: u8,
}

/// A key that is present and can be read.
#[derive(Debug, Clone, Copy, PartialEq, Eq)]
pub struct ResolvedKey {
    pub key: u32,
    pub data_size: u32,
    pub data_type: u32,
    pub decoder: Decoder,
}

/// What is known of a key by what the controller tells of it: nothing where it
/// tells nothing, where the key is empty, and where its type is not supported.
pub open spec fn resolution(key: u32, info: Option<KeyInfo>) -> Option<ResolvedKey> {
    match info {
        Some(i) => if i.data_size == 0 {
            None
        } else {
            match Decoder::named(i.data_type) {
                Some(decoder) => Some(
                    ResolvedKey {
                        key,
                        data_size: i.data_size,
                        data_type: i.data_type,
                        decoder,
                    },
                ),
                None => None,
            }
        },
        None => None,
    }
}

/// What is known of a key by what the controller tells of it.
pub fn resolve_key(key: u32, info: Option<KeyInfo>) -> (r: Option<ResolvedKey>)
    ensures
        r == resolution(key, info),
{
    let i: KeyInfo = info?;
    if i.data_size == 0 {
        return None;
    }
    let decoder: Decoder = Decoder::of_type(i.data_type)?;
    Some(ResolvedKey { key, data_size: i.data_size, data_type: i.data_type, decoder })
}

// ── Requests ─────────────────────────────────────────────────────────────────

/// What a request asks for.
#[derive(Debug, Clone, Copy, PartialEq, Eq)]
pub enum Ask {
    ReadBytes,
    WriteBytes,
    KeyFromIndex,
    KeyInfo,
}

impl Ask {
    /// The number that the controller knows it by.
    pub fn command(&self) -> (r: u8)
        ensures
            r == match *self {
                Ask::ReadBytes => 5u8,
                Ask::WriteBytes => 6u8,
                Ask::KeyFromIndex => 8u8,
                Ask::KeyInfo => 9u8,
            },
    {
        match self {
            Ask::ReadBytes => 5,
            Ask::WriteBytes => 6,
            Ask::KeyFromIndex => 8,
            Ask::KeyInfo => 9,
        }
    }
}

/// A request to the controller; all that it does not name is zero.
#[derive(Debug, Clone, Copy, PartialEq, Eq)]
pub struct Request {
    pub ask: Ask,
    pub key: u32,
    pub index: u32,
    pub data_size: u32,
    pub data_type: u32,
    pub bytes: [u8; 32],
}

/// No bytes.
pub open spec fn zeros() -> Seq<u8> {
    Seq::new(32, |i: int| 0u8)
}

/// Asks what a key is.
pub fn info_request(key: u32) -> (r: Request)
    ensures
        r.ask == Ask::KeyInfo && r.key == key && r.index == 0,
        r.data_size == 0 && r.data_type == 0,
        r.bytes@ == zeros(),
{
    Request { ask: Ask::KeyInfo, key, index: 0, data_size: 0, data_type: 0, bytes: [0; 32] }
}

/// Asks which key stands at a place in the controller's own list.
pub fn index_request(index: u32) -> (r: Request)
    ensures
        r.ask == Ask::KeyFromIndex && r.key == 0 && r.index == index,
        r.data_size == 0 && r.data_type == 0,
        r.bytes@ == zeros(),
{
    Request { ask: Ask::KeyFromIndex, key: 0, index, data_size: 0, data_type: 0, bytes: [0; 32] }
}

/// Asks for the value of a key.
pub fn read_request(rk: &ResolvedKey) -> (r: Request)
    ensures
        r.ask == Ask::ReadBytes && r.key == rk.key && r.index == 0,
        r.data_size == rk.data_size && r.data_type == 0,
        r.bytes@ == zeros(),
{
    Request {
        ask: Ask::ReadBytes,
        key: rk.key,
        index: 0,
        data_size: rk.data_size,
        data_type: 0,
        bytes: [0; 32],
    }
}

/// Asks to write a value to a key.
pub fn write_request(rk: &ResolvedKey, value: Value) -> (r: Request)
    requires
        rk.decoder.holds(value),
    ensures
        r.ask == Ask::WriteBytes && r.key == rk.key && r.index == 0,
        r.data_size == rk.data_size && r.data_type == rk.data_type,
        rk.decoder.decoded(r.bytes@) == value,
        forall|i: int| rk.decoder.width() <= i < 32 ==> #[trigger] r.bytes@[i] == 0,
{
    let mut bytes: [u8; 32] = [0; 32];
    rk.decoder.encode(value, &mut bytes);
    Request {
        ask: Ask::WriteBytes,
        key: rk.key,
        index: 0,
        data_size: rk.data_size,
        data_type: rk.data_type,
        bytes,
    }
}

// ── The controller ───────────────────────────────────────────────────────────

/// What is known of the keys of an open controller.
pub struct Smc {
    keys: Vec<Option<ResolvedKey>>,
    cache: HashMap<u32, Option<ResolvedKey>>,
    cpu_temp_keys: Vec<ResolvedKey>,
    gpu_temp_keys: Vec<ResolvedKey>,
}

/// The keys of a list that are present.
pub open spec fn present(codes: Seq<u32>, infos: Seq<Option<KeyInfo>>) -> Seq<ResolvedKey>
    decreases codes.len(),
{
    if codes.len() == 0 {
        seq![]
    } else {
        let before = present(codes.drop_last(), infos);
        match resolution(codes.last(), infos[codes.len() - 1]) {
            Some(rk) => before.push(rk),
            None => before,
        }
    }
}

/// What comes next in reading or writing a key.
#[derive(Debug, Clone, Copy, PartialEq, Eq)]
pub enum Access {
    /// Ask the controller what the key is.
    Resolve(u32),
    /// Read or write the key.
    Proceed(ResolvedKey),
    /// There is no such key.
    Absent,
}

/// What comes next once it is known whether a key is there.
pub open spec fn with_key(rk: Option<ResolvedKey>) -> Access {
    match rk {
        Some(rk) => Access::Proceed(rk),
        None => Access::Absent,
    }
}

/// How reading or writing a key begins, by what is known of the keys.
pub open spec fn first_step(known: Map<u32, Option<ResolvedKey>>, code: u32) -> Access {
    if known.contains_key(code) {
        with_key(known[code])
    } else {
        Access::Resolve(code)
    }
}

/// What is known of the keys after the controller told of some, in this order.
pub open spec fn learned(
    known: Map<u32, Option<ResolvedKey>>,
    told: Seq<(u32, Option<KeyInfo>)>,
) -> Map<u32, Option<ResolvedKey>>
    decreases told.len(),
{
    if told.len() == 0 {
        known
    } else {
        let (key, info) = told.last();
        learned(known, told.drop_last()).insert(key, resolution(key, info))
    }
}

/// A key is asked for once: after the controller told of it, present or absent, no
/// later access asks again; and a key of which it did not tell is asked for.
pub proof fn keys_are_asked_for_once(told: Seq<(u32, Option<KeyInfo>)>, code: u32)
    ensures
        (first_step(learned(Map::empty(), told), code) is Resolve) == (forall|i: int|
            0 <= i < told.len() ==> (#[trigger] told[i]).0 != code),
    decreases told.len(),
{
    if told.len() > 0 {
        keys_are_asked_for_once(told.drop_last(), code);
        let rest = told.drop_last();
        if told.last().0 == code {
            assert(told[told.len() - 1].0 == code);
        } else {
            assert forall|i: int| 0 <= i < told.len() && told[i].0 == code implies exists|k: int|
                0 <= k < rest.len() && (#[trigger] rest[k]).0 == code by {
                assert(rest[i].0 == code);
            }
            assert(forall|i: int| 0 <= i < rest.len() ==> (#[trigger] rest[i]) == told[i]);
        }
    }
}

impl Smc {
    /// The keys that are read by their place.
    pub closed spec fn by_place(&self) -> Seq<Option<ResolvedKey>> {
        self.keys@
    }

    /// The keys that were asked for by name, and what was found.
    pub closed spec fn known(&self) -> Map<u32, Option<ResolvedKey>> {
        self.cache@
    }

    /// The processor temperatures that are present.
    pub closed spec fn cpu_temps(&self) -> Seq<ResolvedKey> {
        self.cpu_temp_keys@
    }

    /// The graphics temperatures that are present.
    pub closed spec fn gpu_temps(&self) -> Seq<ResolvedKey> {
        self.gpu_temp_keys@
    }

    /// All keys that are read by their place have one.
    pub closed spec fn wf(&self) -> bool {
        self.keys@.len() == KEY_COUNT
    }

    /// Opens the controller. `found` tells whether there is a service, `kr` is what
    /// opening it returned, `infos` what it tells of the probed keys in their order.
    pub fn open(found: bool, kr: i32, infos: &Vec<Option<KeyInfo>>) -> (r: Result<Smc, SmcError>)
        requires
            found && kr == 0 ==> infos@.len() == PROBES,
        ensures
            match r {
                Err(e) => if !found {
                    e == SmcError::ServiceNotFound
                } else {
                    kr != 0 && e == SmcError::OpenFailed(kr)
                },
                Ok(smc) => {
                    &&& found && kr == 0
                    &&& smc.wf()
                    &&& smc.by_place() == Seq::new(
                        KEY_COUNT as nat,
                        |i: int| resolution(all_codes()[i], infos@[i]),
                    )
                    &&& smc.cpu_temps() == present(cpu_temp_codes(), infos@.subrange(41, 56))
                    &&& smc.gpu_temps() == present(gpu_temp_codes(), infos@.subrange(56, 61))
                    &&& smc.known() == Map::<u32, Option<ResolvedKey>>::empty()
                },
            },
    {
        if !found {
            return Err(SmcError::ServiceNotFound);
        }
        if kr != 0 {
            return Err(SmcError::OpenFailed(kr));
        }
        let codes: Vec<u32> = probe_keys();
        let mut keys: Vec<Option<ResolvedKey>> = Vec::new();
        let mut i: usize = 0;
        while i < KEY_COUNT
            invariant
                i <= KEY_COUNT,
                codes@ == probe_codes(),
                codes@.len() == PROBES,
                infos@.len() == PROBES,
                keys@.len() == i,
                forall|k: int|
                    0 <= k < i ==> #[trigger] keys@[k] == resolution(codes@[k], infos@[k]),
            decreases KEY_COUNT - i,
        {
            keys.push(resolve_key(codes[i], infos[i]));
            i = i + 1;
        }
        let cpu_temp_keys: Vec<ResolvedKey> = Smc::present_keys(&codes, infos, 41, 56);
        let gpu_temp_keys: Vec<ResolvedKey> = Smc::present_keys(&codes, infos, 56, 61);
        proof {
            assert(probe_codes().subrange(41, 56) == cpu_temp_codes());
            assert(probe_codes().subrange(56, 61) == gpu_temp_codes());
            assert(keys@ == Seq::new(
                KEY_COUNT as nat,
                |i: int| resolution(all_codes()[i], infos@[i]),
            )) by {
                assert forall|k: int| 0 <= k < KEY_COUNT implies probe_codes()[k]
                    == all_codes()[k] by {}
            }
        }
        Ok(Smc { keys, cache: HashMap::new(), cpu_temp_keys, gpu_temp_keys })
    }

    fn present_keys(codes: &Vec<u32>, infos: &Vec<Option<KeyInfo>>, from: usize, to: usize) -> (r:
        Vec<ResolvedKey>)
        requires
            from <= to <= codes@.len(),
            codes@.len() == infos@.len(),
        ensures
            r@ == present(
                codes@.subrange(from as int, to as int),
                infos@.subrange(from as int, to as int),
            ),
    {
        let ghost all = infos@.subrange(from as int, to as int);
        let mut r: Vec<ResolvedKey> = Vec::new();
        let mut i: usize = from;
        while i < to
            invariant
                from <= i <= to <= codes@.len(),
                codes@.len() == infos@.len(),
                all == infos@.subrange(from as int, to as int),
                r@ == present(codes@.subrange(from as int, i as int), all),
            decreases to - i,
        {
            proof {
                let next = codes@.subrange(from as int, i + 1);
                assert(next.drop_last() == codes@.subrange(from as int, i as int));
                assert(all[next.len() - 1] == infos@[i as int]);
            }
            if let Some(rk) = resolve_key(codes[i], infos[i]) {
                r.push(rk);
            }
            i = i + 1;
        }
        r
    }

    /// The key at a place, if it is present.
    pub fn read(&self, idx: usize) -> (r: Option<ResolvedKey>)
        requires
            self.wf(),
            idx < KEY_COUNT,
        ensures
            r == self.by_place()[idx as int],
    {
        self.keys[idx]
    }

    /// The value in the bytes that were read, nothing where reading failed.
    pub fn read_resolved(rk: &ResolvedKey, bytes: Option<[u8; 32]>) -> (r: Option<Value>)
        ensures
            r == match bytes {
                Some(b) => Some(rk.decoder.decoded(b@)),
                None => None,
            },
    {
        match bytes {
            Some(b) => Some(rk.decoder.decode(&b)),
            None => None,
        }
    }

    /// Begins to read or write a key: whether it is there is asked only where it was
    /// not asked before.
    pub fn access(&self, key: &[u8; 4]) -> (r: Access)
        ensures
            r == first_step(self.known(), big_endian(key@) as u32),
    {
        broadcast use vstd::std_specs::hash::group_hash_axioms;

        let code: u32 = four_cc(key);
        match self.cache.get(&code) {
            Some(Some(rk)) => Access::Proceed(*rk),
            Some(None) => Access::Absent,
            None => Access::Resolve(code),
        }
    }

    /// Goes on with a key once the controller told what it is; that is remembered,
    /// for an absent key too.
    pub fn resolved(&mut self, key: u32, info: Option<KeyInfo>) -> (r: Access)
        ensures
            r == with_key(resolution(key, info)),
            final(self).known() == old(self).known().insert(key, resolution(key, info)),
            final(self).by_place() == old(self).by_place(),
            final(self).cpu_temps() == old(self).cpu_temps(),
            final(self).gpu_temps() == old(self).gpu_temps(),
            final(self).wf() == old(self).wf(),
    {
        broadcast use vstd::std_specs::hash::group_hash_axioms;

        let found: Option<ResolvedKey> = resolve_key(key, info);
        self.cache.insert(key, found);
        match found {
            Some(rk) => Access::Proceed(rk),
            None => Access::Absent,
        }
    }
}

impl Smc {
    /// What reading a key returns: its value, nothing where it is absent or where
    /// reading it failed.
    pub fn read_f32(access: &Access, bytes: Option<[u8; 32]>) -> (r: Option<Value>)
        requires
            !(access is Resolve),
        ensures
            r == match (*access, bytes) {
                (Access::Proceed(rk), Some(b)) => Some(rk.decoder.decoded(b@)),
                _ => None,
            },
    {
        match access {
            Access::Proceed(rk) => Smc::read_resolved(rk, bytes),
            _ => None,
        }
    }

    /// What writing a key returns, where `kr` is what the kernel returned.
    pub fn write_f32(access: &Access, kr: i32) -> (r: Result<(), SmcWriteError>)
        requires
            !(access is Resolve),
        ensures
            r == (if !(access is Proceed) {
                Err::<(), SmcWriteError>(SmcWriteError::KeyNotFound)
            } else if kr != 0 {
                Err::<(), SmcWriteError>(SmcWriteError::IoError(kr))
            } else {
                Ok::<(), SmcWriteError>(())
            }),
    {
        match access {
            Access::Proceed(_) => if kr != 0 {
                Err(SmcWriteError::IoError(kr))
            } else {
                Ok(())
            },
            _ => Err(SmcWriteError::KeyNotFound),
        }
    }

    /// How many keys the controller has: the value of `#KEY`, 0 where it cannot be
    /// read.
    pub fn key_count(value: Option<Value>) -> (r: u32)
        ensures
            r == match value {
                Some(v) => v.whole_part(),
                None => 0int,
            },
    {
        match value {
            Some(v) => v.whole(),
            None => 0,
        }
    }

    /// The key at a place in the controller's list, nothing where asking failed or
    /// the answer is empty.
    pub fn key_at_index(reply: Option<u32>) -> (r: Option<[u8; 4]>)
        ensures
            r is Some == (reply is Some && reply->0 != 0),
            r is Some ==> big_endian(r->0@) == reply->0,
    {
        match reply {
            Some(key) => if key == 0 {
                None
            } else {
                Some(four_bytes(key))
            },
            None => None,
        }
    }

    /// The keys among the replies.
    pub open spec fn listed(replies: Seq<Option<u32>>) -> Seq<u32>
        decreases replies.len(),
    {
        if replies.len() == 0 {
            seq![]
        } else {
            let before = Smc::listed(replies.drop_last());
            match replies.last() {
                Some(key) => if key == 0 {
                    before
                } else {
                    before.push(key)
                },
                None => before,
            }
        }
    }

    /// All keys of the controller, by its replies for every place in its list.
    pub fn all_keys(replies: &Vec<Option<u32>>) -> (r: Vec<[u8; 4]>)
        ensures
            r@.len() == Smc::listed(replies@).len(),
            forall|i: int|
                0 <= i < r@.len() ==> big_endian((#[trigger] r@[i])@) == Smc::listed(replies@)[i],
    {
        let mut r: Vec<[u8; 4]> = Vec::new();
        let mut i: usize = 0;
        while i < replies.len()
            invariant
                i <= replies@.len(),
                r@.len() == Smc::listed(replies@.take(i as int)).len(),
                forall|k: int|
                    0 <= k < r@.len() ==> big_endian((#[trigger] r@[k])@) == Smc::listed(
                        replies@.take(i as int),
                    )[k],
            decreases replies@.len() - i,
        {
            proof {
                assert(replies@.take(i + 1).drop_last() == replies@.take(i as int));
            }
            if let Some(key) = Smc::key_at_index(replies[i]) {
                r.push(key);
            }
            i = i + 1;
        }
        assert(replies@.take(i as int) == replies@);
        r
    }

    /// What the controller tells of a key: its size, its type and its attributes;
    /// nothing where asking failed or the key is empty.
    pub fn key_info(info: Option<KeyInfo>) -> (r: Option<(u32, [u8; 4], u8)>)
        ensures
            r is Some == (info is Some && info->0.data_size != 0),
            r is Some ==> (r->0).0 == info->0.data_size && big_endian((r->0).1@) == info->0.data_type
                && (r->0).2 == info->0.attributes,
    {
        match info {
            Some(i) => if i.data_size == 0 {
                None
            } else {
                Some((i.data_size, four_bytes(i.data_type), i.attributes))
            },
            None => None,
        }
    }

    /// The processor temperatures that are present.
    pub fn cpu_temp_keys(&self) -> (r: &Vec<ResolvedKey>)
        ensures
            r@ == self.cpu_temps(),
    {
        &self.cpu_temp_keys
    }

    /// The graphics temperatures that are present.
    pub fn gpu_temp_keys(&self) -> (r: &Vec<ResolvedKey>)
        ensures
            r@ == self.gpu_temps(),
    {
        &self.gpu_temp_keys
    }

    /// The temperature of each processor core, by what was read of its key: `zero`
    /// where reading failed.
    pub fn read_per_core_cpu_temps<F: Copy>(&self, reads: &Vec<Option<F>>, zero: F) -> (r: Vec<F>)
        requires
            reads@.len() == self.cpu_temps().len(),
        ensures
            r@ == Seq::new(
                self.cpu_temps().len(),
                |i: int|
                    match reads@[i] {
                        Some(x) => x,
                        None => zero,
                    },
            ),
    {
        let mut r: Vec<F> = Vec::new();
        let mut i: usize = 0;
        while i < reads.len()
            invariant
                i <= reads@.len(),
                r@ == Seq::new(
                    i as nat,
                    |i: int|
                        match reads@[i] {
                            Some(x) => x,
                            None => zero,
                        },
                ),
            decreases reads@.len() - i,
        {
            r.push(
                match reads[i] {
                    Some(x) => x,
                    None => zero,
                },
            );
            i = i + 1;
        }
        r
    }

    /// How many fans there are, by the value of `FNum`: at most two, none where the
    /// value cannot be read or is no finite number.
    pub open spec fn fans_in(value: Option<Value>) -> int {
        match value {
            Some(v) => if !v.finite() {
                0
            } else if v.whole_part() < 2 {
                v.whole_part()
            } else {
                2
            },
            None => 0,
        }
    }

    /// How many fans there are, by the value of `FNum`.
    pub fn fan_count(value: Option<Value>) -> (r: u8)
        ensures
            r == Smc::fans_in(value),
            r <= 2,
    {
        match value {
            Some(v) => if v.is_finite() {
                let n: u32 = v.whole();
                if n < 2 {
                    n as u8
                } else {
                    2
                }
            } else {
                0
            },
            None => 0,
        }
    }

    /// The place of the key for the greatest speed of a fan.
    pub fn fan_max_rpm(fan: u8) -> (r: Option<usize>)
        ensures
            r == (if fan == 0 {
                Some(K_F0MX)
            } else if fan == 1 {
                Some(K_F1MX)
            } else {
                None::<usize>
            }),
    {
        match fan {
            0 => Some(K_F0MX),
            1 => Some(K_F1MX),
            _ => None,
        }
    }
}

/// The groups stand one after the other in the list of keys, and the places that
/// have a name are those of their keys.
pub proof fn groups_stand_in_order()
    ensures
        all_codes().len() == KEY_COUNT,
        all_codes().subrange(0, 9) == power_codes(),
        all_codes().subrange(9, 20) == thermal_codes(),
        all_codes().subrange(20, 29) == fan_codes(),
        all_codes().subrange(29, 33) == voltage_codes(),
        all_codes().subrange(33, 36) == current_codes(),
        all_codes().subrange(36, 41) == battery_codes(),
        all_codes()[K_FNUM as int] == name_code("FNum"@),
        all_codes()[K_F0MX as int] == name_code("F0Mx"@),
        all_codes()[K_F1MX as int] == name_code("F1Mx"@),
{
}

/// A code of four ASCII characters is the number of their bytes, the first one highest.
pub proof fn codes_are_spelled(name: Seq<char>)
    requires
        name.len() == 4,
        forall|k: int| 0 <= k < 4 ==> '\x7f' >= #[trigger] name[k],
    ensures
        name_code(name) / 0x100_0000 == name[0] as u32,
        name_code(name) / 0x1_0000 % 0x100 == name[1] as u32,
        name_code(name) / 0x100 % 0x100 == name[2] as u32,
        name_code(name) % 0x100 == name[3] as u32,
{
    let b = seq![name[0] as u8, name[1] as u8, name[2] as u8, name[3] as u8];
    assert(b[0] == name[0] as u8 && b[1] == name[1] as u8 && b[2] == name[2] as u8 && b[3]
        == name[3] as u8);
    assert('\x7f' >= name[0] && '\x7f' >= name[1] && '\x7f' >= name[2] && '\x7f' >= name[3]);
    char_range(name[0]);
    char_range(name[1]);
    char_range(name[2]);
    char_range(name[3]);
    assert(name[0] as u8 == name[0] as u32 && name[1] as u8 == name[1] as u32 && name[2] as u8
        == name[2] as u32 && name[3] as u8 == name[3] as u32);
    let (c0, c1, c2, c3) = (b[0] as int, b[1] as int, b[2] as int, b[3] as int);
    let n = c0 * 0x100_0000 + c1 * 0x1_0000 + c2 * 0x100 + c3;
    assert(name_code(name) == n);
    assert(n / 0x100_0000 == c0 && n / 0x1_0000 % 0x100 == c1 && n / 0x100 % 0x100 == c2 && n % 0x100
        == c3);
}

proof fn lemma_power_codes()
    ensures
        name_code("PSTR"@) == 0x5053_5452,
        name_code("PPBR"@) == 0x5050_4252,
        name_code("PHPC"@) == 0x5048_5043,
        name_code("PDTR"@) == 0x5044_5452,
        name_code("PCPT"@) == 0x5043_5054,
        name_code("PGTR"@) == 0x5047_5452,
        name_code("PANT"@) == 0x5041_4e54,
        name_code("PSDC"@) == 0x5053_4443,
        name_code("PBUS"@) == 0x5042_5553,
{
    reveal_strlit("PSTR");
    reveal_strlit("PPBR");
    reveal_strlit("PHPC");
    reveal_strlit("PDTR");
    reveal_strlit("PCPT");
    reveal_strlit("PGTR");
    reveal_strlit("PANT");
    reveal_strlit("PSDC");
    reveal_strlit("PBUS");
}

proof fn lemma_thermal_codes()
    ensures
        name_code("Tp04"@) == 0x5470_3034,
        name_code("Tp0a"@) == 0x5470_3061,
        name_code("Tg0d"@) == 0x5467_3064,
        name_code("TW0P"@) == 0x5457_3050,
        name_code("TA0P"@) == 0x5441_3050,
        name_code("Ts0S"@) == 0x5473_3053,
        name_code("Tb0P"@) == 0x5462_3050,
        name_code("TC0P"@) == 0x5443_3050,
        name_code("Tg0a"@) == 0x5467_3061,
        name_code("TG0P"@) == 0x5447_3050,
        name_code("Tm0a"@) == 0x546d_3061,
{
    reveal_strlit("Tp04");
    reveal_strlit("Tp0a");
    reveal_strlit("Tg0d");
    reveal_strlit("TW0P");
    reveal_strlit("TA0P");
    reveal_strlit("Ts0S");
    reveal_strlit("Tb0P");
    reveal_strlit("TC0P");
    reveal_strlit("Tg0a");
    reveal_strlit("TG0P");
    reveal_strlit("Tm0a");
}

proof fn lemma_fan_codes()
    ensures
        name_code("FNum"@) == 0x464e_756d,
        name_code("F0Ac"@) == 0x4630_4163,
        name_code("F0Tg"@) == 0x4630_5467,
        name_code("F0Mn"@) == 0x4630_4d6e,
        name_code("F0Mx"@) == 0x4630_4d78,
        name_code("F1Ac"@) == 0x4631_4163,
        name_code("F1Tg"@) == 0x4631_5467,
        name_code("F1Mn"@) == 0x4631_4d6e,
        name_code("F1Mx"@) == 0x4631_4d78,
{
    reveal_strlit("FNum");
    reveal_strlit("F0Ac");
    reveal_strlit("F0Tg");
    reveal_strlit("F0Mn");
    reveal_strlit("F0Mx");
    reveal_strlit("F1Ac");
    reveal_strlit("F1Tg");
    reveal_strlit("F1Mn");
    reveal_strlit("F1Mx");
}

proof fn lemma_electric_codes()
    ensures
        name_code("VP0R"@) == 0x5650_3052,
        name_code("VD0R"@) == 0x5644_3052,
        name_code("VC0C"@) == 0x5643_3043,
        name_code("VG0C"@) == 0x5647_3043,
        name_code("ID0R"@) == 0x4944_3052,
        name_code("IC0C"@) == 0x4943_3043,
        name_code("IG0C"@) == 0x4947_3043,
        name_code("B0AV"@) == 0x4230_4156,
        name_code("B0DC"@) == 0x4230_4443,
        name_code("B0AP"@) == 0x4230_4150,
        name_code("B0RM"@) == 0x4230_524d,
        name_code("B0FC"@) == 0x4230_4643,
{
    reveal_strlit("VP0R");
    reveal_strlit("VD0R");
    reveal_strlit("VC0C");
    reveal_strlit("VG0C");
    reveal_strlit("ID0R");
    reveal_strlit("IC0C");
    reveal_strlit("IG0C");
    reveal_strlit("B0AV");
    reveal_strlit("B0DC");
    reveal_strlit("B0AP");
    reveal_strlit("B0RM");
    reveal_strlit("B0FC");
}

/// The place of a code in the list of keys.
spec fn place_of(code: u32) -> int {
    if code == 0x5053_5452 {
        0
    } else if code == 0x5050_4252 {
        1
    } else if code == 0x5048_5043 {
        2
    } else if code == 0x5044_5452 {
        3
    } else if code == 0x5043_5054 {
        4
    } else if code == 0x5047_5452 {
        5
    } else if code == 0x5041_4e54 {
        6
    } else if code == 0x5053_4443 {
        7
    } else if code == 0x5042_5553 {
        8
    } else if code == 0x5470_3034 {
        9
    } else if code == 0x5470_3061 {
        10
    } else if code == 0x5467_3064 {
        11
    } else if code == 0x5457_3050 {
        12
    } else if code == 0x5441_3050 {
        13
    } else if code == 0x5473_3053 {
        14
    } else if code == 0x5462_3050 {
        15
    } else if code == 0x5443_3050 {
        16
    } else if code == 0x5467_3061 {
        17
    } else if code == 0x5447_3050 {
        18
    } else if code == 0x546d_3061 {
        19
    } else if code == 0x464e_756d {
        20
    } else if code == 0x4630_4163 {
        21
    } else if code == 0x4630_5467 {
        22
    } else if code == 0x4630_4d6e {
        23
    } else if code == 0x4630_4d78 {
        24
    } else if code == 0x4631_4163 {
        25
    } else if code == 0x4631_5467 {
        26
    } else if code == 0x4631_4d6e {
        27
    } else if code == 0x4631_4d78 {
        28
    } else if code == 0x5650_3052 {
        29
    } else if code == 0x5644_3052 {
        30
    } else if code == 0x5643_3043 {
        31
    } else if code == 0x5647_3043 {
        32
    } else if code == 0x4944_3052 {
        33
    } else if code == 0x4943_3043 {
        34
    } else if code == 0x4947_3043 {
        35
    } else if code == 0x4230_4156 {
        36
    } else if code == 0x4230_4443 {
        37
    } else if code == 0x4230_4150 {
        38
    } else if code == 0x4230_524d {
        39
    } else if code == 0x4230_4643 {
        40
    } else {
        -1
    }
}

/// No key stands in the list twice.
pub proof fn keys_stand_once(i: int, j: int)
    requires
        0 <= i < KEY_COUNT,
        0 <= j < KEY_COUNT,
        all_codes()[i] == all_codes()[j],
    ensures
        i == j,
{
    lemma_places(i);
    lemma_places(j);
}

proof fn lemma_places(i: int)
    requires
        0 <= i < KEY_COUNT,
    ensures
        place_of(all_codes()[i]) == i,
{
    groups_stand_in_order();
    let all = all_codes();
    if i < 9 {
        lemma_power_codes();
        assert(all[i] == all.subrange(0, 9)[i]);
    } else if i < 20 {
        lemma_thermal_codes();
        assert(all[i] == all.subrange(9, 20)[i - 9]);
    } else if i < 29 {
        lemma_fan_codes();
        assert(all[i] == all.subrange(20, 29)[i - 20]);
    } else if i < 33 {
        lemma_electric_codes();
        assert(all[i] == all.subrange(29, 33)[i - 29]);
    } else if i < 36 {
        lemma_electric_codes();
        assert(all[i] == all.subrange(33, 36)[i - 33]);
    } else {
        lemma_electric_codes();
        assert(all[i] == all.subrange(36, 41)[i - 36]);
    }
}

/// The keys of the processor cores are numbered from 1 to 15 in one hexadecimal digit,
/// and those of the graphics dies lettered from a to d, and f.
pub proof fn core_and_die_keys_are_lettered()
    ensures
        cpu_temp_codes().len() == 15,
        forall|k: int|
            0 <= k < 15 ==> #[trigger] cpu_temp_codes()[k] == name_code(
                "Tp0"@.push("123456789abcdef"@[k]),
            ),
        gpu_temp_codes().len() == 5,
        forall|k: int|
            0 <= k < 5 ==> #[trigger] gpu_temp_codes()[k] == name_code("Tg0"@.push("abcdf"@[k])),
{
    reveal_strlit("Tp0");
    reveal_strlit("123456789abcdef");
    reveal_strlit("Tg0");
    reveal_strlit("abcdf");
    reveal_strlit("Tp01");
    assert("Tp01"@ == "Tp0"@.push("123456789abcdef"@[0]));
    reveal_strlit("Tp02");
    assert("Tp02"@ == "Tp0"@.push("123456789abcdef"@[1]));
    reveal_strlit("Tp03");
    assert("Tp03"@ == "Tp0"@.push("123456789abcdef"@[2]));
    reveal_strlit("Tp04");
    assert("Tp04"@ == "Tp0"@.push("123456789abcdef"@[3]));
    reveal_strlit("Tp05");
    assert("Tp05"@ == "Tp0"@.push("123456789abcdef"@[4]));
    reveal_strlit("Tp06");
    assert("Tp06"@ == "Tp0"@.push("123456789abcdef"@[5]));
    reveal_strlit("Tp07");
    assert("Tp07"@ == "Tp0"@.push("123456789abcdef"@[6]));
    reveal_strlit("Tp08");
    assert("Tp08"@ == "Tp0"@.push("123456789abcdef"@[7]));
    reveal_strlit("Tp09");
    assert("Tp09"@ == "Tp0"@.push("123456789abcdef"@[8]));
    reveal_strlit("Tp0a");
    assert("Tp0a"@ == "Tp0"@.push("123456789abcdef"@[9]));
    reveal_strlit("Tp0b");
    assert("Tp0b"@ == "Tp0"@.push("123456789abcdef"@[10]));
    reveal_strlit("Tp0c");
    assert("Tp0c"@ == "Tp0"@.push("123456789abcdef"@[11]));
    reveal_strlit("Tp0d");
    assert("Tp0d"@ == "Tp0"@.push("123456789abcdef"@[12]));
    reveal_strlit("Tp0e");
    assert("Tp0e"@ == "Tp0"@.push("123456789abcdef"@[13]));
    reveal_strlit("Tp0f");
    assert("Tp0f"@ == "Tp0"@.push("123456789abcdef"@[14]));
    reveal_strlit("Tg0a");
    assert("Tg0a"@ == "Tg0"@.push("abcdf"@[0]));
    reveal_strlit("Tg0b");
    assert("Tg0b"@ == "Tg0"@.push("abcdf"@[1]));
    reveal_strlit("Tg0c");
    assert("Tg0c"@ == "Tg0"@.push("abcdf"@[2]));
    reveal_strlit("Tg0d");
    assert("Tg0d"@ == "Tg0"@.push("abcdf"@[3]));
    reveal_strlit("Tg0f");
    assert("Tg0f"@ == "Tg0"@.push("abcdf"@[4]));
}

proof fn lemma_type_codes()
    ensures
        name_code("flt "@) == 0x666c_7420,
        name_code("sp78"@) == 0x7370_3738,
        name_code("ioft"@) == 0x696f_6674,
        name_code("ui8 "@) == 0x7569_3820,
        name_code("ui16"@) == 0x7569_3136,
        name_code("si16"@) == 0x7369_3136,
        name_code("ui32"@) == 0x7569_3332,
{
    reveal_strlit("flt ");
    reveal_strlit("sp78");
    reveal_strlit("ioft");
    reveal_strlit("ui8 ");
    reveal_strlit("ui16");
    reveal_strlit("si16");
    reveal_strlit("ui32");
}

/// Each data type that is supported has the layout that is named after it, and no other
/// type has one.
pub proof fn types_have_their_layouts(data_type: u32)
    ensures
        Decoder::named(name_code("flt "@)) == Some(Decoder::Flt),
        Decoder::named(name_code("sp78"@)) == Some(Decoder::Sp78),
        Decoder::named(name_code("ioft"@)) == Some(Decoder::Ioft),
        Decoder::named(name_code("ui8 "@)) == Some(Decoder::Ui8),
        Decoder::named(name_code("ui16"@)) == Some(Decoder::Ui16),
        Decoder::named(name_code("si16"@)) == Some(Decoder::Si16),
        Decoder::named(name_code("ui32"@)) == Some(Decoder::Ui32),
        Decoder::named(data_type) is Some ==> data_type == name_code("flt "@) || data_type == name_code("sp78"@) || data_type == name_code("ioft"@) || data_type == name_code("ui8 "@) || data_type == name_code("ui16"@) || data_type == name_code("si16"@) || data_type == name_code("ui32"@),
{
    lemma_type_codes();
}

/// A key is known where the controller tells of it, it is not empty, and its type is one
/// of the seven; it is then read as it was told.
pub proof fn keys_are_known_by_their_type(key: u32, info: KeyInfo)
    ensures
        resolution(key, None) is None,
        info.data_size == 0 ==> resolution(key, Some(info)) is None,
        info.data_size > 0 ==> (resolution(key, Some(info)) is Some <==> info.data_type == name_code("flt "@) || info.data_type == name_code("sp78"@) || info.data_type == name_code("ioft"@) || info.data_type == name_code("ui8 "@) || info.data_type == name_code("ui16"@) || info.data_type == name_code("si16"@) || info.data_type == name_code("ui32"@)),
        resolution(key, Some(info)) matches Some(rk) ==> rk.key == key && rk.data_size
            == info.data_size && rk.data_type == info.data_type && Decoder::named(info.data_type)
            == Some(rk.decoder),
{
    types_have_their_layouts(info.data_type);
}

proof fn lemma_four_digits(c0: int, c1: int, c2: int, c3: int)
    requires
        0 <= c0 < 0x100,
        0 <= c1 < 0x100,
        0 <= c2 < 0x100,
        0 <= c3 < 0x100,
    ensures
        ({
            let n = c0 * 0x100_0000 + c1 * 0x1_0000 + c2 * 0x100 + c3;
            n / 0x100_0000 == c0 && n / 0x1_0000 % 0x100 == c1 && n / 0x100 % 0x100 == c2 && n % 0x100
                == c3
        }),
{
    let n = c0 * 0x100_0000 + c1 * 0x1_0000 + c2 * 0x100 + c3;
    assert(n / 0x100 == c0 * 0x1_0000 + c1 * 0x100 + c2);
    assert(n / 0x1_0000 == c0 * 0x100 + c1);
}

proof fn lemma_two_byte_digits(hi: int, lo: int, m: int)
    requires
        0 <= hi < 0x100,
        0 <= lo < 0x100,
        m == hi * 0x100 + lo || m == hi * 0x100 + lo - 0x1_0000,
    ensures
        m % 0x1_0000 / 0x100 == hi,
        m % 0x100 == lo,
{
    assert(m % 0x1_0000 == hi * 0x100 + lo);
}

/// The bytes of a value are the digits of its mantissa to the base 256: the highest first
/// for the integer types, the lowest first for the others; and the fraction of a type has
/// as many bits as its name tells.
pub proof fn bytes_are_the_digits_of_the_value(b: Seq<u8>)
    requires
        b.len() == 32,
    ensures
        Decoder::Ui8.decoded(b) matches Value::Fixed { mantissa: m, fraction: f } && f == 0 && m
            == b[0],
        Decoder::Ui16.decoded(b) matches Value::Fixed { mantissa: m, fraction: f } && f == 0 && 0 <= m
            < 0x1_0000 && m / 0x100 == b[0] && m % 0x100 == b[1],
        Decoder::Si16.decoded(b) matches Value::Fixed { mantissa: m, fraction: f } && f == 0
            && -0x8000 <= m < 0x8000 && m % 0x1_0000 / 0x100 == b[0] && m % 0x100 == b[1],
        Decoder::Sp78.decoded(b) matches Value::Fixed { mantissa: m, fraction: f } && f == 8
            && -0x8000 <= m < 0x8000 && m % 0x1_0000 / 0x100 == b[1] && m % 0x100 == b[0],
        Decoder::Ui32.decoded(b) matches Value::Fixed { mantissa: m, fraction: f } && f == 0 && m
            / 0x100_0000 == b[0] && m / 0x1_0000 % 0x100 == b[1] && m / 0x100 % 0x100 == b[2] && m
            % 0x100 == b[3],
        Decoder::Ioft.decoded(b) matches Value::Fixed { mantissa: m, fraction: f } && f == 16 && m
            / 0x100_0000 == b[3] && m / 0x1_0000 % 0x100 == b[2] && m / 0x100 % 0x100 == b[1] && m
            % 0x100 == b[0],
        Decoder::Flt.decoded(b) matches Value::Float(n) && n / 0x100_0000 == b[3] && n / 0x1_0000
            % 0x100 == b[2] && n / 0x100 % 0x100 == b[1] && n % 0x100 == b[0],
{
    let (c0, c1, c2, c3) = (b[0] as int, b[1] as int, b[2] as int, b[3] as int);
    lemma_four_digits(c0, c1, c2, c3);
    lemma_four_digits(c3, c2, c1, c0);
    assert(big_endian(b) == c0 * 0x100_0000 + c1 * 0x1_0000 + c2 * 0x100 + c3);
    assert(little_endian(b) == c3 * 0x100_0000 + c2 * 0x1_0000 + c1 * 0x100 + c0);
    lemma_two_byte_digits(c0, c1, as_signed(c0 * 0x100 + c1));
    lemma_two_byte_digits(c1, c0, as_signed(c0 + c1 * 0x100));
}

/// As many fans are told as the controller counts, but no more than two.
pub proof fn fans_are_counted_up_to_two(n: i64)
    ensures
        Smc::fans_in(Some(Value::Fixed { mantissa: n, fraction: 0 })) == if n <= 0 {
            0
        } else if n == 1 {
            1
        } else {
            2int
        },
        Smc::fans_in(None) == 0,
{
    vstd::arithmetic::power2::lemma2_to64();
    assert(n >= 0 ==> n as int / 1 == n);
}

/// The keys that the controller lists are those that it names, in their order; a place
/// without a key and one with the code zero give none.
pub proof fn keys_are_listed_in_order(replies: Seq<Option<u32>>, key: u32)
    ensures
        Smc::listed(replies.push(None)) == Smc::listed(replies),
        Smc::listed(replies.push(Some(0))) == Smc::listed(replies),
        key != 0 ==> Smc::listed(replies.push(Some(key))) == Smc::listed(replies).push(key),
        Smc::listed(Seq::empty()).len() == 0,
{
    assert(replies.push(None).drop_last() =~= replies);
    assert(replies.push(Some(0u32)).drop_last() =~= replies);
    assert(replies.push(Some(key)).drop_last() =~= replies);
}

/// Of a list of keys those stay, in their order, that the controller knows.
pub proof fn known_keys_stay_in_order(
    codes: Seq<u32>,
    infos: Seq<Option<KeyInfo>>,
    code: u32,
    info: Option<KeyInfo>,
)
    requires
        codes.len() == infos.len(),
    ensures
        present(codes.push(code), infos.push(info)) == match resolution(code, info) {
            Some(rk) => present(codes, infos).push(rk),
            None => present(codes, infos),
        },
        present(Seq::empty(), Seq::empty()).len() == 0,
{
    assert(codes.push(code).drop_last() =~= codes);
    lemma_present_front(codes, infos.push(info), infos);
}

proof fn lemma_present_front(codes: Seq<u32>, a: Seq<Option<KeyInfo>>, b: Seq<Option<KeyInfo>>)
    requires
        codes.len() <= a.len(),
        codes.len() <= b.len(),
        forall|k: int| 0 <= k < codes.len() ==> a[k] == b[k],
    ensures
        present(codes, a) == present(codes, b),
    decreases codes.len(),
{
    if codes.len() > 0 {
        lemma_present_front(codes.drop_last(), a, b);
    }
}

/// What the controller told last of a key is what is gone by: a key that it knows is read
/// as it told, and one that it does not know is absent. Other keys are not touched by it.
pub proof fn the_latest_word_counts(
    known: Map<u32, Option<ResolvedKey>>,
    told: Seq<(u32, Option<KeyInfo>)>,
    key: u32,
    info: Option<KeyInfo>,
    other: u32,
)
    requires
        other != key,
    ensures
        resolution(key, info) matches Some(rk) ==> first_step(
            learned(known, told.push((key, info))),
            key,
        ) == Access::Proceed(rk),
        resolution(key, info) is None ==> first_step(learned(known, told.push((key, info))), key)
            == Access::Absent,
        first_step(learned(known, told.push((key, info))), other) == first_step(
            learned(known, told),
            other,
        ),
{
    assert(told.push((key, info)).drop_last() =~= told);
}

} // verus!
