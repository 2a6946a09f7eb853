//! The Arduino-style helpers: integer math, bit and byte access, character
//! classes, interrupt bookkeeping, random numbers, the bit order of shift
//! registers and the state machine behind `pulseIn`.
//!
//! The helpers that talk to a board (`digitalWrite`, `shiftOut`, ...) run
//! the I/O themselves and use what is here for every decision.
#![allow(non_snake_case)]

use crate::backend::{mode_label, mode_name, obj1, obj2, obj3, opt_u64_json, opt_uint, owned_text};
use crate::command::CommandResult;
use crate::error::CmdError;
use crate::json::{obj_get, value_bool, value_u64, Json, JsonNumber, JsonValue};
use crate::order::{text_lt, text_order};
use crate::remote_exec::{blank, dispatch, exchange_after, lemma_not_blank, sent_as, Backend, BoardLink, Exchange};
use crate::text::{
    chars_contain, chars_of, chars_view, contains_seq, is_ws, lemma_split_nonempty, lines, lines_of,
    lower_chars, lower_seq, parse_i32, parse_i32_chars, split, split_chars, string_of, strings_view, trim,
    trim_chars,
};
use crate::types::PinMode;
use std::collections::HashMap;
use vstd::prelude::*;

verus! {

/// The order in which a shift register takes or gives its bits.
#[derive(Debug, Clone, Copy, PartialEq, Eq, Structural)]
pub enum BitOrder {
    LsbFirst,
    MsbFirst,
}

/// The reference voltage of the analog inputs.
#[derive(Debug, Clone)]
pub enum AnalogReference {
    Default,
    Internal,
    External,
    Custom(String),
}

/// A network seen by a Wi-Fi scan.
#[derive(Debug, Clone)]
pub struct WiFiNetwork {
    pub ssid: String,
    pub signal_dbm: Option<i32>,
    pub security: Option<String>,
}

pub open spec fn reference_label(r: AnalogReference) -> Seq<char> {
    match r {
        AnalogReference::Default => "default"@,
        AnalogReference::Internal => "internal"@,
        AnalogReference::External => "external"@,
        AnalogReference::Custom(s) => s@,
    }
}

/// The name under which a reference is sent to the board.
pub fn reference_name(reference: AnalogReference) -> (s: String)
    ensures
        s@ == reference_label(reference),
{
    match reference {
        AnalogReference::Default => String::from_str("default"),
        AnalogReference::Internal => String::from_str("internal"),
        AnalogReference::External => String::from_str("external"),
        AnalogReference::Custom(s) => s,
    }
}

// ----- integer math -----
/// The absolute value (`i64::MIN` has none).
pub fn abs(x: i64) -> (r: i64)
    requires
        x != i64::MIN,
    ensures
        r == (if x < 0 {
            -x
        } else {
            x as int
        }),
{
    if x < 0 {
        -x
    } else {
        x
    }
}

/// `x` held within `low..=high`; below `low` gives `low`, above `high`
/// gives `high` (`low` wins when the bounds cross).
pub fn constrain(x: i64, low: i64, high: i64) -> (r: i64)
    ensures
        r == (if x < low {
            low
        } else if x > high {
            high
        } else {
            x
        }),
        low <= high ==> low <= r <= high,
{
    if x < low {
        low
    } else if x > high {
        high
    } else {
        x
    }
}

/// Rust's integer division: the quotient rounded toward zero.
pub open spec fn trunc_div(a: int, b: int) -> int {
    if a >= 0 {
        if b > 0 {
            a / b
        } else {
            -(a / (-b))
        }
    } else {
        if b > 0 {
            -((-a) / b)
        } else {
            (-a) / (-b)
        }
    }
}

/// What `map` computes, with every intermediate value in range.
pub open spec fn map_fits(value: int, from_low: int, from_high: int, to_low: int, to_high: int) -> bool {
    let span = value - from_low;
    let range = to_high - to_low;
    let width = from_high - from_low;
    &&& i64::MIN <= span <= i64::MAX
    &&& i64::MIN <= range <= i64::MAX
    &&& i64::MIN <= span * range <= i64::MAX
    &&& i64::MIN <= width <= i64::MAX
    &&& !(span * range == i64::MIN && width == -1)
    &&& i64::MIN <= trunc_div(span * range, width) + to_low <= i64::MAX
}

pub open spec fn map_value(value: int, from_low: int, from_high: int, to_low: int, to_high: int) -> int {
    if from_high == from_low {
        to_low
    } else {
        trunc_div((value - from_low) * (to_high - to_low), from_high - from_low) + to_low
    }
}

/// Quotient rounded toward zero, through the magnitudes.
fn quotient_toward_zero(a: i64, b: i64) -> (q: i64)
    requires
        b != 0,
        !(a == i64::MIN && b == -1),
    ensures
        q == trunc_div(a as int, b as int),
{
    let ai = a as i128;
    let bi = b as i128;
    let ua: u128 = if ai < 0 {
        (0 - ai) as u128
    } else {
        ai as u128
    };
    let ub: u128 = if bi < 0 {
        (0 - bi) as u128
    } else {
        bi as u128
    };
    let uq: u128 = ua / ub;
    proof {
        assert(uq <= ua) by (nonlinear_arith)
            requires
                uq == ua / ub,
                ub >= 1,
        ;
        if a == i64::MIN && b < 0 {
            assert(uq <= ua / 2) by (nonlinear_arith)
                requires
                    uq == ua / ub,
                    ub >= 2,
            ;
        }
    }
    if (a < 0) != (b < 0) {
        (0 - uq as i128) as i64
    } else {
        uq as i64
    }
}

/// Re-maps `value` from one range onto another, as Arduino's `map`: the
/// quotient is rounded toward zero, and an empty source range gives
/// `to_low`.
pub fn map(value: i64, from_low: i64, from_high: i64, to_low: i64, to_high: i64) -> (r: i64)
    requires
        from_high != from_low ==> map_fits(value as int, from_low as int, from_high as int, to_low as int, to_high as int),
    ensures
        r == map_value(value as int, from_low as int, from_high as int, to_low as int, to_high as int),
{
    if from_high == from_low {
        return to_low;
    }
    let span = value - from_low;
    let range = to_high - to_low;
    let scaled = span * range;
    let q = quotient_toward_zero(scaled, from_high - from_low);
    q + to_low
}

pub fn max(a: i64, b: i64) -> (r: i64)
    ensures
        r == (if a >= b {
            a
        } else {
            b
        }),
{
    if a >= b {
        a
    } else {
        b
    }
}

pub fn min(a: i64, b: i64) -> (r: i64)
    ensures
        r == (if a <= b {
            a
        } else {
            b
        }),
{
    if a <= b {
        a
    } else {
        b
    }
}

/// The square.
pub fn sq(x: i64) -> (r: i64)
    requires
        x * x <= i64::MAX,
    ensures
        r == x * x,
{
    assert(0 <= x * x) by (nonlinear_arith);
    x * x
}

// ----- bits and bytes -----
/// The value with only bit `bit_index` set.
pub fn bit(bit_index: u8) -> (r: u32)
    requires
        bit_index < 32,
    ensures
        r == 1u32 << bit_index,
{
    1u32 << bit_index
}

pub fn bitClear(value: u32, bit_index: u8) -> (r: u32)
    requires
        bit_index < 32,
    ensures
        r == value & !(1u32 << bit_index),
{
    value & !(1u32 << bit_index)
}

pub fn bitRead(value: u32, bit_index: u8) -> (r: bool)
    requires
        bit_index < 32,
    ensures
        r == (value & (1u32 << bit_index) != 0),
{
    (value & (1u32 << bit_index)) != 0
}

pub fn bitSet(value: u32, bit_index: u8) -> (r: u32)
    requires
        bit_index < 32,
    ensures
        r == value | (1u32 << bit_index),
{
    value | (1u32 << bit_index)
}

pub fn bitWrite(value: u32, bit_index: u8, bit_value: bool) -> (r: u32)
    requires
        bit_index < 32,
    ensures
        r == (if bit_value {
            value | (1u32 << bit_index)
        } else {
            value & !(1u32 << bit_index)
        }),
{
    if bit_value {
        bitSet(value, bit_index)
    } else {
        bitClear(value, bit_index)
    }
}

/// The upper eight bits.
pub fn highByte(value: u16) -> (r: u8)
    ensures
        r == value / 256,
{
    let r = ((value >> 8u16) & 0xFFu16) as u8;
    assert(((value >> 8u16) & 0xFFu16) == value / 256) by (bit_vector);
    r
}

/// The lower eight bits.
pub fn lowByte(value: u16) -> (r: u8)
    ensures
        r == value % 256,
{
    let r = (value & 0xFFu16) as u8;
    assert((value & 0xFFu16) == value % 256) by (bit_vector);
    r
}

/// What `bitWrite` writes, `bitRead` reads back, and no other bit changes.
pub proof fn law_bit_write_read(value: u32, i: u32, j: u32, b: bool)
    requires
        i < 32,
        j < 32,
        i != j,
    ensures
        ((if b {
            value | (1u32 << i)
        } else {
            value & !(1u32 << i)
        }) & (1u32 << i) != 0) == b,
        ((if b {
            value | (1u32 << i)
        } else {
            value & !(1u32 << i)
        }) & (1u32 << j) != 0) == (value & (1u32 << j) != 0),
{
    assert((value | (1u32 << i)) & (1u32 << i) != 0) by (bit_vector)
        requires
            i < 32,
    ;
    assert((value & !(1u32 << i)) & (1u32 << i) == 0) by (bit_vector)
        requires
            i < 32,
    ;
    assert(((value | (1u32 << i)) & (1u32 << j) != 0) == (value & (1u32 << j) != 0)) by (bit_vector)
        requires
            i < 32,
            j < 32,
            i != j,
    ;
    assert(((value & !(1u32 << i)) & (1u32 << j) != 0) == (value & (1u32 << j) != 0)) by (bit_vector)
        requires
            i < 32,
            j < 32,
            i != j,
    ;
}

/// The two bytes give back the value.
pub proof fn law_bytes_rebuild(value: u16)
    ensures
        (value / 256) * 256 + value % 256 == value,
{
}

// ----- character classes -----
pub open spec fn ascii_upper(c: char) -> bool {
    'A' <= c <= 'Z'
}

pub open spec fn ascii_lower(c: char) -> bool {
    'a' <= c <= 'z'
}

pub open spec fn ascii_digit(c: char) -> bool {
    '0' <= c <= '9'
}

pub open spec fn ascii_graphic(c: char) -> bool {
    '!' <= c <= '~'
}

/// How the character classes relate: the letters are the 26 upper-case
/// letters and their lower-case partners 32 code points on; letters and
/// digits are graphic; punctuation is the rest of the graphic characters;
/// the printable characters are the graphic ones and the space; and the
/// graphic characters lie strictly between the space and DEL.
pub proof fn law_char_classes(c: char)
    ensures
        ascii_upper(c) ==> ascii_lower(((c as u32) + 32) as char),
        ascii_lower(c) ==> ascii_upper(((c as u32) - 32) as char),
        ascii_upper(c) <==> 65 <= (c as u32) <= 90,
        ascii_digit(c) <==> 48 <= (c as u32) <= 57,
        ascii_upper(c) || ascii_lower(c) || ascii_digit(c) ==> ascii_graphic(c),
        !(ascii_upper(c) && ascii_lower(c)) && !(ascii_upper(c) && ascii_digit(c)) && !(ascii_lower(c) && ascii_digit(c)),
        ascii_graphic(c) <==> 32 < (c as u32) < 127,
        ascii_graphic(c) ==> (c as u32) < 128 && !((c as u32) < 32 || (c as u32) == 127) && c != ' ',
{
}

pub fn isAlpha(c: char) -> (r: bool)
    ensures
        r == (ascii_upper(c) || ascii_lower(c)),
{
    ('A' <= c && c <= 'Z') || ('a' <= c && c <= 'z')
}

pub fn isAlphaNumeric(c: char) -> (r: bool)
    ensures
        r == (ascii_upper(c) || ascii_lower(c) || ascii_digit(c)),
{
    ('A' <= c && c <= 'Z') || ('a' <= c && c <= 'z') || ('0' <= c && c <= '9')
}

pub fn isAscii(c: char) -> (r: bool)
    ensures
        r == ((c as u32) < 128),
{
    (c as u32) < 128
}

pub fn isControl(c: char) -> (r: bool)
    ensures
        r == ((c as u32) < 32 || (c as u32) == 127),
{
    let u = c as u32;
    u < 32 || u == 127
}

pub fn isDigit(c: char) -> (r: bool)
    ensures
        r == ascii_digit(c),
{
    '0' <= c && c <= '9'
}

pub fn isGraph(c: char) -> (r: bool)
    ensures
        r == ascii_graphic(c),
{
    '!' <= c && c <= '~'
}

pub fn isHexadecimalDigit(c: char) -> (r: bool)
    ensures
        r == (ascii_digit(c) || ('a' <= c <= 'f') || ('A' <= c <= 'F')),
{
    ('0' <= c && c <= '9') || ('a' <= c && c <= 'f') || ('A' <= c && c <= 'F')
}

pub fn isLowerCase(c: char) -> (r: bool)
    ensures
        r == ascii_lower(c),
{
    'a' <= c && c <= 'z'
}

pub fn isPrintable(c: char) -> (r: bool)
    ensures
        r == (ascii_graphic(c) || c == ' '),
{
    ('!' <= c && c <= '~') || c == ' '
}

/// ASCII punctuation: a graphic character that is neither a letter nor a
/// digit.
pub fn isPunct(c: char) -> (r: bool)
    ensures
        r == (ascii_graphic(c) && !ascii_upper(c) && !ascii_lower(c) && !ascii_digit(c)),
{
    ('!' <= c && c <= '/') || (':' <= c && c <= '@') || ('[' <= c && c <= '`') || ('{' <= c && c
        <= '~')
}

/// Only the space character.
pub fn isSpace(c: char) -> (r: bool)
    ensures
        r == (c == ' '),
{
    c == ' '
}

pub fn isUpperCase(c: char) -> (r: bool)
    ensures
        r == ascii_upper(c),
{
    'A' <= c && c <= 'Z'
}

/// Unicode white space (`char::is_whitespace`).
pub fn isWhitespace(c: char) -> (r: bool)
    ensures
        r == is_ws(c),
{
    crate::text::is_whitespace_char(c)
}

// ----- interrupts -----
/// The interrupt number of a pin: the pin number itself.
pub fn digitalPinToInterrupt(pin: u8) -> (r: i32)
    ensures
        r == pin,
{
    pin as i32
}

/// The attached interrupt handlers and whether interrupts are enabled.
pub struct InterruptTable<C> {
    enabled: bool,
    handlers: HashMap<u8, C>,
}

impl<C> InterruptTable<C> {
    pub closed spec fn enabled_spec(&self) -> bool {
        self.enabled
    }

    pub closed spec fn handlers_spec(&self) -> Map<u8, C> {
        self.handlers@
    }

    /// Enabled, with nothing attached.
    pub fn new() -> (t: InterruptTable<C>)
        ensures
            t.enabled_spec(),
            t.handlers_spec().is_empty(),
    {
        InterruptTable { enabled: true, handlers: HashMap::new() }
    }
}

/// Attaches (or replaces) the handler of an interrupt.
pub fn attachInterrupt<C>(table: &mut InterruptTable<C>, interrupt: u8, callback: C)
    ensures
        final(table).handlers_spec() == old(table).handlers_spec().insert(interrupt, callback),
        final(table).enabled_spec() == old(table).enabled_spec(),
{
    table.handlers.insert(interrupt, callback);
}

/// Detaches the handler of an interrupt, if any.
pub fn detachInterrupt<C>(table: &mut InterruptTable<C>, interrupt: u8)
    ensures
        final(table).handlers_spec() == old(table).handlers_spec().remove(interrupt),
        final(table).enabled_spec() == old(table).enabled_spec(),
{
    table.handlers.remove(&interrupt);
}

/// The handler to run for an interrupt: none while interrupts are disabled
/// or when nothing is attached.
pub fn triggerInterrupt<C>(table: &InterruptTable<C>, interrupt: u8) -> (r: Option<&C>)
    ensures
        r is Some <==> table.enabled_spec() && table.handlers_spec().contains_key(interrupt),
        r matches Some(h) ==> *h == table.handlers_spec()[interrupt],
{
    if !table.enabled {
        return None;
    }
    table.handlers.get(&interrupt)
}

/// Enables interrupts.
pub fn interrupts<C>(table: &mut InterruptTable<C>)
    ensures
        final(table).enabled_spec(),
        final(table).handlers_spec() == old(table).handlers_spec(),
{
    table.enabled = true;
}

/// Disables interrupts; handlers stay attached.
pub fn noInterrupts<C>(table: &mut InterruptTable<C>)
    ensures
        !final(table).enabled_spec(),
        final(table).handlers_spec() == old(table).handlers_spec(),
{
    table.enabled = false;
}

pub fn interruptsEnabled<C>(table: &InterruptTable<C>) -> (r: bool)
    ensures
        r == table.enabled_spec(),
{
    table.enabled
}

// ----- random numbers -----
#[verifier::external_type_specification]
#[verifier::external_body]
pub struct ExStdRng(rand::rngs::StdRng);

/// A generator seeded with `seed` (`StdRng::seed_from_u64`).
#[verifier::external_body]
fn seeded_rng(seed: u64) -> rand::rngs::StdRng {
    <rand::rngs::StdRng as rand::SeedableRng>::seed_from_u64(seed)
}

/// A uniform draw from `lo..hi` (`Rng::gen_range`, which panics on an empty
/// range).
#[verifier::external_body]
fn draw_in(rng: &mut rand::rngs::StdRng, lo: i64, hi: i64) -> (r: i64)
    requires
        lo < hi,
    ensures
        lo <= r < hi,
{
    rand::Rng::gen_range(rng, lo..hi)
}

/// The generator the helpers start from, seeded with `0xC0DE_CAFE`.
pub fn default_rng() -> rand::rngs::StdRng {
    seeded_rng(0xC0DE_CAFE_u64)
}

/// A number in `0..max_exclusive`, or 0 when the range is empty.
pub fn random(rng: &mut rand::rngs::StdRng, max_exclusive: i64) -> (r: i64)
    ensures
        max_exclusive <= 0 ==> r == 0,
        max_exclusive > 0 ==> 0 <= r < max_exclusive,
{
    if max_exclusive <= 0 {
        return 0;
    }
    draw_in(rng, 0, max_exclusive)
}

/// A number in `min_inclusive..max_exclusive`, or `min_inclusive` when the
/// range is empty.
pub fn randomRange(rng: &mut rand::rngs::StdRng, min_inclusive: i64, max_exclusive: i64) -> (r: i64)
    ensures
        max_exclusive <= min_inclusive ==> r == min_inclusive,
        max_exclusive > min_inclusive ==> min_inclusive <= r < max_exclusive,
{
    if max_exclusive <= min_inclusive {
        return min_inclusive;
    }
    draw_in(rng, min_inclusive, max_exclusive)
}

/// Restarts the generator from `seed`.
pub fn randomSeed(rng: &mut rand::rngs::StdRng, seed: u64) {
    *rng = seeded_rng(seed);
}

// ----- shift registers -----
/// The bit of a byte that goes out `i`-th.
pub open spec fn shift_position(order: BitOrder, i: int) -> int {
    match order {
        BitOrder::LsbFirst => i,
        BitOrder::MsbFirst => 7 - i,
    }
}

pub open spec fn bit_of(value: u8, k: int) -> bool {
    (value >> (k as u8)) & 1u8 == 1u8
}

/// The level `shiftOut` writes at step `i`.
pub fn shift_out_bit(order: BitOrder, value: u8, i: u8) -> (b: bool)
    requires
        i < 8,
    ensures
        b == bit_of(value, shift_position(order, i as int)),
{
    let k: u8 = match order {
        BitOrder::LsbFirst => i,
        BitOrder::MsbFirst => 7 - i,
    };
    assert(k == shift_position(order, i as int) as u8);
    assert((((value >> k) & 0x01u8) != 0) == ((value >> k) & 1u8 == 1u8)) by (bit_vector);
    ((value >> k) & 0x01u8) != 0
}

/// The levels `shiftOut` writes, in order.
pub fn shift_out_bits(order: BitOrder, value: u8) -> (bits: Vec<bool>)
    ensures
        bits.len() == 8,
        forall|i: int| 0 <= i < 8 ==> bits[i] == bit_of(value, #[trigger] shift_position(order, i)),
{
    let mut bits: Vec<bool> = Vec::new();
    let mut i: u8 = 0;
    while i < 8
        invariant
            i <= 8,
            bits.len() == i,
            forall|k: int| 0 <= k < i ==> bits[k] == bit_of(value, #[trigger] shift_position(order, k)),
        decreases 8 - i,
    {
        bits.push(shift_out_bit(order, value, i));
        i = i + 1;
    }
    bits
}

/// The byte after the first `n` bits read by `shiftIn` were placed.
pub open spec fn shifted_in(order: BitOrder, bits: Seq<bool>, n: nat) -> u8
    decreases n,
{
    if n == 0 {
        0u8
    } else {
        let prev = shifted_in(order, bits, (n - 1) as nat);
        let k = shift_position(order, n - 1) as u8;
        if bits[n - 1] {
            prev | (1u8 << k)
        } else {
            prev
        }
    }
}

/// The byte `shiftIn` assembles from the levels it read, in order.
pub fn shift_in_value(order: BitOrder, bits: &Vec<bool>) -> (value: u8)
    requires
        bits.len() == 8,
    ensures
        value == shifted_in(order, bits@, 8),
{
    let mut value: u8 = 0;
    let mut i: u8 = 0;
    while i < 8
        invariant
            i <= 8,
            bits.len() == 8,
            value == shifted_in(order, bits@, i as nat),
        decreases 8 - i,
    {
        let k: u8 = match order {
            BitOrder::LsbFirst => i,
            BitOrder::MsbFirst => 7 - i,
        };
        if bits[i as usize] {
            value = value | (1u8 << k);
        }
        i = i + 1;
    }
    value
}

/// A byte shifted out and read back in the same order is the same byte.
pub proof fn law_shift_round_trip(order: BitOrder, value: u8, bits: Seq<bool>)
    requires
        bits.len() == 8,
        forall|i: int| 0 <= i < 8 ==> bits[i] == bit_of(value, #[trigger] shift_position(order, i)),
    ensures
        shifted_in(order, bits, 8) == value,
{
    reveal_with_fuel(shifted_in, 9);
    let b0 = bits[0];
    let b1 = bits[1];
    let b2 = bits[2];
    let b3 = bits[3];
    let b4 = bits[4];
    let b5 = bits[5];
    let b6 = bits[6];
    let b7 = bits[7];
    assert(b0 == bit_of(value, shift_position(order, 0)));
    assert(b1 == bit_of(value, shift_position(order, 1)));
    assert(b2 == bit_of(value, shift_position(order, 2)));
    assert(b3 == bit_of(value, shift_position(order, 3)));
    assert(b4 == bit_of(value, shift_position(order, 4)));
    assert(b5 == bit_of(value, shift_position(order, 5)));
    assert(b6 == bit_of(value, shift_position(order, 6)));
    assert(b7 == bit_of(value, shift_position(order, 7)));
    match order {
        BitOrder::LsbFirst => {
            lemma_lsb_round_trip(value, b0, b1, b2, b3, b4, b5, b6, b7);
        },
        BitOrder::MsbFirst => {
            lemma_msb_round_trip(value, b0, b1, b2, b3, b4, b5, b6, b7);
        },
    }
}

proof fn lemma_lsb_round_trip(value: u8, b0: bool, b1: bool, b2: bool, b3: bool, b4: bool, b5: bool, b6: bool, b7: bool)
    by (bit_vector)
    requires
        b0 == ((value >> 0u8) & 1u8 == 1u8),
        b1 == ((value >> 1u8) & 1u8 == 1u8),
        b2 == ((value >> 2u8) & 1u8 == 1u8),
        b3 == ((value >> 3u8) & 1u8 == 1u8),
        b4 == ((value >> 4u8) & 1u8 == 1u8),
        b5 == ((value >> 5u8) & 1u8 == 1u8),
        b6 == ((value >> 6u8) & 1u8 == 1u8),
        b7 == ((value >> 7u8) & 1u8 == 1u8),
    ensures
        ({
            let v0 = if b0 { 0u8 | (1u8 << 0u8) } else { 0u8 };
            let v1 = if b1 { v0 | (1u8 << 1u8) } else { v0 };
            let v2 = if b2 { v1 | (1u8 << 2u8) } else { v1 };
            let v3 = if b3 { v2 | (1u8 << 3u8) } else { v2 };
            let v4 = if b4 { v3 | (1u8 << 4u8) } else { v3 };
            let v5 = if b5 { v4 | (1u8 << 5u8) } else { v4 };
            let v6 = if b6 { v5 | (1u8 << 6u8) } else { v5 };
            let v7 = if b7 { v6 | (1u8 << 7u8) } else { v6 };
            v7 == value
        }),
{
}

proof fn lemma_msb_round_trip(value: u8, b0: bool, b1: bool, b2: bool, b3: bool, b4: bool, b5: bool, b6: bool, b7: bool)
    by (bit_vector)
    requires
        b0 == ((value >> 7u8) & 1u8 == 1u8),
        b1 == ((value >> 6u8) & 1u8 == 1u8),
        b2 == ((value >> 5u8) & 1u8 == 1u8),
        b3 == ((value >> 4u8) & 1u8 == 1u8),
        b4 == ((value >> 3u8) & 1u8 == 1u8),
        b5 == ((value >> 2u8) & 1u8 == 1u8),
        b6 == ((value >> 1u8) & 1u8 == 1u8),
        b7 == ((value >> 0u8) & 1u8 == 1u8),
    ensures
        ({
            let v0 = if b0 { 0u8 | (1u8 << 7u8) } else { 0u8 };
            let v1 = if b1 { v0 | (1u8 << 6u8) } else { v0 };
            let v2 = if b2 { v1 | (1u8 << 5u8) } else { v1 };
            let v3 = if b3 { v2 | (1u8 << 4u8) } else { v2 };
            let v4 = if b4 { v3 | (1u8 << 3u8) } else { v3 };
            let v5 = if b5 { v4 | (1u8 << 2u8) } else { v4 };
            let v6 = if b6 { v5 | (1u8 << 1u8) } else { v5 };
            let v7 = if b7 { v6 | (1u8 << 0u8) } else { v6 };
            v7 == value
        }),
{
}

// ----- pulse measurement -----
/// What `pulseIn` waits for next.
#[derive(Debug, Clone, Copy, PartialEq, Eq, Structural)]
pub enum PulsePhase {
    /// The pin has not reached the awaited level yet.
    WaitingForStart,
    /// The pulse began at this time (microseconds).
    InPulse(u64),
}

/// The outcome of one sample.
#[derive(Debug, Clone, Copy, PartialEq, Eq, Structural)]
pub enum PulseStep {
    /// Keep sampling.
    Continue,
    /// The pulse ended; its width in microseconds.
    Measured(u64),
    /// The timeout passed first (`pulseIn` answers 0).
    TimedOut,
}

/// The decisions of `pulseIn`: the caller samples the pin (level and time in
/// microseconds, times never decreasing) and hands each sample to `step`.
#[derive(Debug, Clone, Copy)]
pub struct PulseMeter {
    pub level: bool,
    pub timeout_us: u64,
    pub started_us: u64,
    pub phase: PulsePhase,
}

pub open spec fn pulse_next(m: PulseMeter, now_us: u64, level: bool) -> (PulseMeter, PulseStep) {
    match m.phase {
        PulsePhase::WaitingForStart => if level == m.level {
            (PulseMeter { phase: PulsePhase::InPulse(now_us), ..m }, PulseStep::Continue)
        } else if now_us - m.started_us >= m.timeout_us {
            (m, PulseStep::TimedOut)
        } else {
            (m, PulseStep::Continue)
        },
        PulsePhase::InPulse(s) => if level == m.level {
            if now_us - m.started_us >= m.timeout_us {
                (m, PulseStep::TimedOut)
            } else {
                (m, PulseStep::Continue)
            }
        } else {
            (m, PulseStep::Measured((now_us - s) as u64))
        },
    }
}

impl PulseMeter {
    /// A measurement of a pulse at `level`, begun at `now_us`.
    pub fn new(level: bool, timeout_us: u64, now_us: u64) -> (m: PulseMeter)
        ensures
            m.level == level,
            m.timeout_us == timeout_us,
            m.started_us == now_us,
            m.phase == PulsePhase::WaitingForStart,
    {
        PulseMeter { level, timeout_us, started_us: now_us, phase: PulsePhase::WaitingForStart }
    }

    /// Every time the meter has seen is at least its start time.
    pub open spec fn valid_at(&self, now_us: u64) -> bool {
        &&& self.started_us <= now_us
        &&& (self.phase matches PulsePhase::InPulse(s) ==> self.started_us <= s <= now_us)
    }

    /// Takes one sample.
    pub fn step(&mut self, now_us: u64, level: bool) -> (r: PulseStep)
        requires
            old(self).valid_at(now_us),
        ensures
            (*final(self), r) == pulse_next(*old(self), now_us, level),
            final(self).valid_at(now_us),
    {
        match self.phase {
            PulsePhase::WaitingForStart => {
                if level == self.level {
                    self.phase = PulsePhase::InPulse(now_us);
                    PulseStep::Continue
                } else if now_us - self.started_us >= self.timeout_us {
                    PulseStep::TimedOut
                } else {
                    PulseStep::Continue
                }
            },
            PulsePhase::InPulse(s) => {
                if level == self.level {
                    if now_us - self.started_us >= self.timeout_us {
                        PulseStep::TimedOut
                    } else {
                        PulseStep::Continue
                    }
                } else {
                    PulseStep::Measured(now_us - s)
                }
            },
        }
    }
}

/// A measured pulse is never longer than the time since the measurement
/// began.
pub proof fn law_pulse_within_elapsed(m: PulseMeter, now_us: u64, level: bool)
    requires
        m.valid_at(now_us),
    ensures
        pulse_next(m, now_us, level).1 matches PulseStep::Measured(w) ==> w <= now_us - m.started_us,
{
}

/// What `pulseInLong` answers for a finished measurement.
pub fn pulse_width_us(step: PulseStep) -> (r: u64)
    ensures
        r == (match step {
            PulseStep::Measured(w) => w,
            _ => 0,
        }),
{
    match step {
        PulseStep::Measured(w) => w,
        _ => 0,
    }
}

/// What `pulseIn` answers: the width cut to 32 bits.
pub fn pulse_width_u32(width_us: u64) -> (r: u32)
    ensures
        r == width_us as u32,
{
    width_us as u32
}

// ----- the board, through a backend -----
/// The arguments of a `digital_write` of a pin.
pub open spec fn write_json(pin: Seq<char>, value: bool) -> Json {
    Json::Obj(seq![("pin"@, Json::Str(pin)), ("level"@, Json::Str(if value { "high"@ } else { "low"@ }))])
}

/// The names of a command of the board are not blank.
proof fn names_not_blank(domain: &str, action: &str)
    requires
        domain@.len() > 0 && !crate::text::is_ws(domain@[0]),
        action@.len() > 0 && !crate::text::is_ws(action@[0]),
    ensures
        !blank(domain@),
        !blank(action@),
{
    lemma_not_blank(domain@);
    lemma_not_blank(action@);
}
/// What an answer gives back: its data when the command succeeded, else its
/// message as a backend error.
pub fn answer_data(result: CommandResult) -> (r: Result<JsonValue, CmdError>)
    ensures
        result.success ==> r == Ok::<JsonValue, CmdError>(result.data),
        !result.success ==> (r matches Err(CmdError::Backend(m)) && m@ == result.message@),
{
    if result.success {
        Ok(result.data)
    } else {
        Err(CmdError::Backend(result.message))
    }
}

/// Exactly one command, `d`/`a` with `args`, was handed to the backend.
pub open spec fn handed_one(before: Seq<Exchange>, after: Seq<Exchange>, d: Seq<char>, a: Seq<char>, args: Json) -> bool {
    &&& after.len() == before.len() + 1
    &&& after.drop_last() == before
    &&& sent_as(after.last(), d, a, args)
}

/// The answer reports success.
pub open spec fn answer_ok(ans: Result<CommandResult, CmdError>) -> bool {
    ans matches Ok(cr) && cr.success
}

/// The data of an answer.
pub open spec fn answer_body(ans: Result<CommandResult, CmdError>) -> Json {
    match ans {
        Ok(cr) => cr.data@,
        Err(_) => Json::Null,
    }
}

/// `r` carries the failure of an answer: the backend's error, or the
/// message of an unsuccessful result as a backend error.
pub open spec fn answer_failure<T>(ans: Result<CommandResult, CmdError>, r: Result<T, CmdError>) -> bool {
    match ans {
        Ok(cr) => r matches Err(CmdError::Backend(m)) && m@ == cr.message@,
        Err(e) => r == Err::<T, CmdError>(e),
    }
}

/// `r` is what an answer gives back: its data, or its failure.
pub open spec fn data_answer(ans: Result<CommandResult, CmdError>, r: Result<JsonValue, CmdError>) -> bool {
    if answer_ok(ans) {
        r matches Ok(v) && v@ == answer_body(ans)
    } else {
        answer_failure(ans, r)
    }
}

/// `r` is what an answer gives back to a command that returns nothing.
pub open spec fn unit_answer(ans: Result<CommandResult, CmdError>, r: Result<(), CmdError>) -> bool {
    if answer_ok(ans) {
        r is Ok
    } else {
        answer_failure(ans, r)
    }
}

/// `r` is the level an answer to `digital_read` gives.
pub open spec fn level_answer(ans: Result<CommandResult, CmdError>, r: Result<bool, CmdError>) -> bool {
    if answer_ok(ans) {
        r == Ok::<bool, CmdError>(member_bool(answer_body(ans), "is_high"@) == Some(true))
    } else {
        answer_failure(ans, r)
    }
}

/// Sends a command to the board and hands back the data of its answer.
pub fn command_ok<B: Backend>(backend: &mut BoardLink<B>, domain: &str, action: &str, args: JsonValue) -> (r: Result<JsonValue, CmdError>)
    ensures
        blank(domain@) ==> (r matches Err(CmdError::InvalidCommand(m)) && m@ == "domain must not be empty"@),
        !blank(domain@) && blank(action@) ==> (r matches Err(CmdError::InvalidCommand(m)) && m@
            == "action must not be empty"@),
        blank(domain@) || blank(action@) ==> final(backend).handled() == old(backend).handled(),
        !blank(domain@) && !blank(action@) ==> handed_one(old(backend).handled(), final(backend).handled(), domain@, action@, args@)
            && data_answer(final(backend).handled().last().3, r),
{
    let res = dispatch(backend, domain, action, args);
    proof {
        if !blank(domain@) && !blank(action@) {
            assert(backend.handled().drop_last() =~= old(backend).handled());
        }
    }
    match res {
        Ok(result) => answer_data(result),
        Err(e) => Err(e),
    }
}

/// The arguments of a command that names one pin.
pub fn pin_args(pin: &str) -> (a: JsonValue)
    ensures
        a@ == Json::Obj(seq![("pin"@, Json::Str(pin@))]),
{
    obj1("pin", JsonValue::text(pin))
}

/// The arguments of a command that names one numbered pin.
pub fn pin_number_args(pin: u8) -> (a: JsonValue)
    ensures
        a@ == Json::Obj(seq![("pin"@, Json::Num(JsonNumber::UInt(pin as u64)))]),
{
    obj1("pin", JsonValue::uint(pin as u64))
}

/// The arguments of `pinMode`.
pub fn pin_mode_args(pin: &str, mode: PinMode) -> (a: JsonValue)
    ensures
        a@ == Json::Obj(seq![("pin"@, Json::Str(pin@)), ("mode"@, Json::Str(mode_label(mode)))]),
{
    obj2("pin", JsonValue::text(pin), "mode", JsonValue::text(mode_name(mode)))
}

/// The arguments of `digitalWrite`.
pub fn digital_write_args(pin: &str, value: bool) -> (a: JsonValue)
    ensures
        a@ == Json::Obj(seq![("pin"@, Json::Str(pin@)), ("level"@, Json::Str(if value { "high"@ } else { "low"@ }))]),
{
    let level = if value { "high" } else { "low" };
    obj2("pin", JsonValue::text(pin), "level", JsonValue::text(level))
}

/// The member `key` of an object, when it is a non-negative integer.
pub open spec fn member_u64(data: Json, key: Seq<char>) -> Option<u64> {
    match data {
        Json::Obj(fields) => value_u64(obj_get(fields, key)),
        _ => None,
    }
}

/// The member `key` of an object, when it is a boolean.
pub open spec fn member_bool(data: Json, key: Seq<char>) -> Option<bool> {
    match data {
        Json::Obj(fields) => value_bool(obj_get(fields, key)),
        _ => None,
    }
}

/// The level in the answer to `digitalRead`: its `is_high` member, low when
/// that is missing or not a boolean.
pub fn read_level(data: &JsonValue) -> (high: bool)
    ensures
        high == (member_bool(data@, "is_high"@) == Some(true)),
{
    match data {
        JsonValue::Object(fields) => match crate::json::get_field(fields.as_slice(), "is_high") {
            Some(JsonValue::Bool(b)) => *b,
            _ => false,
        },
        _ => false,
    }
}

/// The sample in the answer to `analogRead`: its `value` member, cut to 16
/// bits; an error when that is missing or not a non-negative integer.
pub fn analog_sample(data: &JsonValue) -> (r: Result<u16, CmdError>)
    ensures
        match r {
            Ok(v) => member_u64(data@, "value"@) matches Some(n) && v == n % 0x1_0000,
            Err(e) => member_u64(data@, "value"@) is None && (e matches CmdError::Backend(m) && m@
                == "analog_read missing value"@),
        },
{
    let found = match data {
        JsonValue::Object(fields) => match crate::json::get_field(fields.as_slice(), "value") {
            Some(JsonValue::Number(JsonNumber::UInt(n))) => Some(*n),
            _ => None,
        },
        _ => None,
    };
    match found {
        Some(n) => {
            let v = (n % 0x1_0000) as u16;
            Ok(v)
        },
        None => Err(CmdError::Backend(String::from_str("analog_read missing value"))),
    }
}

/// Sets the mode of a pin.
pub fn pinMode<B: Backend>(backend: &mut BoardLink<B>, pin: &str, mode: PinMode) -> (r: Result<(), CmdError>)
    ensures
        handed_one(old(backend).handled(), final(backend).handled(), "gpio"@, "pin_mode"@, Json::Obj(
            seq![("pin"@, Json::Str(pin@)), ("mode"@, Json::Str(mode_label(mode)))],
        )),
        unit_answer(final(backend).handled().last().3, r),
{
    proof {
        reveal_strlit("gpio");
        reveal_strlit("pin_mode");
        names_not_blank("gpio", "pin_mode");
    }
    command_ok(backend, "gpio", "pin_mode", pin_mode_args(pin, mode))?;
    Ok(())
}

/// Drives a pin high or low.
pub fn digitalWrite<B: Backend>(backend: &mut BoardLink<B>, pin: &str, value: bool) -> (r: Result<(), CmdError>)
    ensures
        handed_one(old(backend).handled(), final(backend).handled(), "gpio"@, "digital_write"@, write_json(pin@, value)),
        unit_answer(final(backend).handled().last().3, r),
{
    proof {
        reveal_strlit("gpio");
        reveal_strlit("digital_write");
        names_not_blank("gpio", "digital_write");
    }
    command_ok(backend, "gpio", "digital_write", digital_write_args(pin, value))?;
    Ok(())
}

/// Reads the level of a pin.
pub fn digitalRead<B: Backend>(backend: &mut BoardLink<B>, pin: &str) -> (r: Result<bool, CmdError>)
    ensures
        handed_one(old(backend).handled(), final(backend).handled(), "gpio"@, "digital_read"@, Json::Obj(
            seq![("pin"@, Json::Str(pin@))],
        )),
        level_answer(final(backend).handled().last().3, r),
{
    proof {
        reveal_strlit("gpio");
        reveal_strlit("digital_read");
        names_not_blank("gpio", "digital_read");
    }
    let data = command_ok(backend, "gpio", "digital_read", pin_args(pin))?;
    Ok(read_level(&data))
}

/// Reads an analog input.
pub fn analogRead<B: Backend>(backend: &mut BoardLink<B>, pin: u8) -> (r: Result<u16, CmdError>)
    ensures
        handed_one(old(backend).handled(), final(backend).handled(), "analog"@, "analog_read"@, Json::Obj(
            seq![("pin"@, Json::Num(JsonNumber::UInt(pin as u64)))],
        )),
        ({
            let ans = final(backend).handled().last().3;
            if answer_ok(ans) {
                match member_u64(answer_body(ans), "value"@) {
                    Some(n) => r == Ok::<u16, CmdError>((n % 0x1_0000) as u16),
                    None => r matches Err(CmdError::Backend(m)) && m@ == "analog_read missing value"@,
                }
            } else {
                answer_failure(ans, r)
            }
        }),
{
    proof {
        reveal_strlit("analog");
        reveal_strlit("analog_read");
        names_not_blank("analog", "analog_read");
    }
    let data = command_ok(backend, "analog", "analog_read", pin_number_args(pin))?;
    analog_sample(&data)
}

/// Sets the resolution of analog reads, in bits.
pub fn analogReadResolution<B: Backend>(backend: &mut BoardLink<B>, bits: u8) -> (r: Result<(), CmdError>)
    ensures
        handed_one(old(backend).handled(), final(backend).handled(), "analog"@, "analog_read_resolution"@, Json::Obj(
            seq![("bits"@, Json::Num(JsonNumber::UInt(bits as u64)))],
        )),
        unit_answer(final(backend).handled().last().3, r),
{
    proof {
        reveal_strlit("analog");
        reveal_strlit("analog_read_resolution");
        names_not_blank("analog", "analog_read_resolution");
    }
    command_ok(backend, "analog", "analog_read_resolution", obj1("bits", JsonValue::uint(bits as u64)))?;
    Ok(())
}

/// Sets the reference voltage of analog reads.
pub fn analogReference<B: Backend>(backend: &mut BoardLink<B>, reference: AnalogReference) -> (r: Result<(), CmdError>)
    ensures
        handed_one(old(backend).handled(), final(backend).handled(), "analog"@, "analog_reference"@, Json::Obj(
            seq![("reference"@, Json::Str(reference_label(reference)))],
        )),
        unit_answer(final(backend).handled().last().3, r),
{
    proof {
        reveal_strlit("analog");
        reveal_strlit("analog_reference");
        names_not_blank("analog", "analog_reference");
    }
    let label = reference_name(reference);
    command_ok(backend, "analog", "analog_reference", obj1("reference", owned_text(label)))?;
    Ok(())
}

/// Writes an analog (PWM) value to a pin.
pub fn analogWrite<B: Backend>(backend: &mut BoardLink<B>, pin: u8, value: u16) -> (r: Result<(), CmdError>)
    ensures
        handed_one(old(backend).handled(), final(backend).handled(), "analog"@, "analog_write"@, Json::Obj(
            seq![
                ("pin"@, Json::Num(JsonNumber::UInt(pin as u64))),
                ("value"@, Json::Num(JsonNumber::UInt(value as u64))),
            ],
        )),
        unit_answer(final(backend).handled().last().3, r),
{
    proof {
        reveal_strlit("analog");
        reveal_strlit("analog_write");
        names_not_blank("analog", "analog_write");
    }
    let args = obj2("pin", JsonValue::uint(pin as u64), "value", JsonValue::uint(value as u64));
    command_ok(backend, "analog", "analog_write", args)?;
    Ok(())
}

/// Sets the resolution of analog writes, in bits.
pub fn analogWriteResolution<B: Backend>(backend: &mut BoardLink<B>, bits: u8) -> (r: Result<(), CmdError>)
    ensures
        handed_one(old(backend).handled(), final(backend).handled(), "analog"@, "analog_write_resolution"@, Json::Obj(
            seq![("bits"@, Json::Num(JsonNumber::UInt(bits as u64)))],
        )),
        unit_answer(final(backend).handled().last().3, r),
{
    proof {
        reveal_strlit("analog");
        reveal_strlit("analog_write_resolution");
        names_not_blank("analog", "analog_write_resolution");
    }
    command_ok(backend, "analog", "analog_write_resolution", obj1("bits", JsonValue::uint(bits as u64)))?;
    Ok(())
}

/// Stops a tone on a pin.
pub fn noTone<B: Backend>(backend: &mut BoardLink<B>, pin: &str) -> (r: Result<(), CmdError>)
    ensures
        handed_one(old(backend).handled(), final(backend).handled(), "tone"@, "no_tone"@, Json::Obj(
            seq![("pin"@, Json::Str(pin@))],
        )),
        unit_answer(final(backend).handled().last().3, r),
{
    proof {
        reveal_strlit("tone");
        reveal_strlit("no_tone");
        names_not_blank("tone", "no_tone");
    }
    command_ok(backend, "tone", "no_tone", pin_args(pin))?;
    Ok(())
}

/// The arguments of `tone`: the duration is `null` when the tone lasts.
pub fn tone_args(pin: &str, frequency_hz: u32, duration_ms: Option<u64>) -> (a: JsonValue)
    ensures
        a@ == Json::Obj(
            seq![
                ("pin"@, Json::Str(pin@)),
                ("frequency_hz"@, Json::Num(JsonNumber::UInt(frequency_hz as u64))),
                ("duration_ms"@, opt_u64_json(duration_ms)),
            ],
        ),
{
    obj3("pin", JsonValue::text(pin), "frequency_hz", JsonValue::uint(frequency_hz as u64), "duration_ms", opt_uint(duration_ms))
}

/// Starts a tone on a pin. Ending it after `duration_ms` is the caller's
/// part (the board is told the duration too).
pub fn tone<B: Backend>(backend: &mut BoardLink<B>, pin: &str, frequency_hz: u32, duration_ms: Option<u64>) -> (r: Result<(), CmdError>)
    ensures
        handed_one(old(backend).handled(), final(backend).handled(), "tone"@, "tone"@, Json::Obj(
            seq![
                ("pin"@, Json::Str(pin@)),
                ("frequency_hz"@, Json::Num(JsonNumber::UInt(frequency_hz as u64))),
                ("duration_ms"@, opt_u64_json(duration_ms)),
            ],
        )),
        unit_answer(final(backend).handled().last().3, r),
{
    proof {
        reveal_strlit("tone");
        reveal_strlit("tone");
        names_not_blank("tone", "tone");
    }
    command_ok(backend, "tone", "tone", tone_args(pin, frequency_hz, duration_ms))?;
    Ok(())
}

/// After `before`, exactly `n` GPIO commands were handed, the `k`-th being
/// `plan(k)` (an action and its arguments), each answered with success.
pub open spec fn gpio_done(before: Seq<Exchange>, after: Seq<Exchange>, n: int, plan: spec_fn(int) -> (Seq<char>, Json)) -> bool {
    &&& 0 <= n
    &&& after.len() == before.len() + n
    &&& after.subrange(0, before.len() as int) == before
    &&& forall|k: int|
        0 <= k < n ==> sent_as(#[trigger] exchange_after(before, after, k), "gpio"@, plan(k).0, plan(k).1) && answer_ok(
            exchange_after(before, after, k).3,
        )
}

/// How a run of `total` GPIO commands ended: all handed and answered with
/// success (`r` is `Ok`), or stopped at the first that failed, whose failure
/// `r` carries.
pub open spec fn gpio_run<T>(before: Seq<Exchange>, after: Seq<Exchange>, total: int, plan: spec_fn(int) -> (Seq<char>, Json), r: Result<T, CmdError>) -> bool {
    match r {
        Ok(_) => gpio_done(before, after, total, plan),
        Err(_) => {
            let n = after.len() - before.len() - 1;
            &&& after.len() > before.len()
            &&& n < total
            &&& gpio_done(before, after.drop_last(), n, plan)
            &&& sent_as(after.last(), "gpio"@, plan(n).0, plan(n).1)
            &&& !answer_ok(after.last().3)
            &&& answer_failure(after.last().3, r)
        },
    }
}

proof fn lemma_gpio_step(before: Seq<Exchange>, h: Seq<Exchange>, h2: Seq<Exchange>, n: int, plan: spec_fn(int) -> (Seq<char>, Json))
    requires
        gpio_done(before, h, n, plan),
        h2.len() == h.len() + 1,
        h2.drop_last() == h,
        sent_as(h2.last(), "gpio"@, plan(n).0, plan(n).1),
    ensures
        answer_ok(h2.last().3) ==> gpio_done(before, h2, n + 1, plan),
        gpio_done(before, h2.drop_last(), n, plan),
{
    assert(h2.subrange(0, before.len() as int) =~= h.subrange(0, before.len() as int)) by {
        assert forall|k: int| 0 <= k < before.len() implies h2[k] == h[k] by {
            assert(h2.drop_last()[k] == h2[k]);
        }
    }
    assert forall|k: int| 0 <= k < n implies #[trigger] exchange_after(before, h2, k) == exchange_after(before, h, k) by {
        assert(h2.drop_last()[before.len() + k] == h2[before.len() + k]);
    }
    assert(exchange_after(before, h2, n) == h2.last());
}

/// The `k`-th command `shiftOut` sends: for each bit, the data line set to
/// it, then the clock high, then the clock low.
pub open spec fn shift_out_plan(data_pin: Seq<char>, clock_pin: Seq<char>, order: BitOrder, value: u8) -> spec_fn(int) -> (Seq<char>, Json) {
    |k: int|
        (
            "digital_write"@,
            if k % 3 == 0 {
                write_json(data_pin, bit_of(value, shift_position(order, k / 3)))
            } else if k % 3 == 1 {
                write_json(clock_pin, true)
            } else {
                write_json(clock_pin, false)
            },
        )
}

/// Clocks a byte into a shift register, one bit per clock pulse, in the
/// given order; the first command that fails stops it.
pub fn shiftOut<B: Backend>(backend: &mut BoardLink<B>, data_pin: &str, clock_pin: &str, order: BitOrder, value: u8) -> (r: Result<(), CmdError>)
    ensures
        gpio_run(old(backend).handled(), final(backend).handled(), 24, shift_out_plan(data_pin@, clock_pin@, order, value), r),
{
    let ghost before = backend.handled();
    let ghost plan = shift_out_plan(data_pin@, clock_pin@, order, value);
    assert(backend.handled().subrange(0, before.len() as int) =~= before);
    let mut i: u8 = 0;
    while i < 8
        invariant
            i <= 8,
            before == old(backend).handled(),
            plan == shift_out_plan(data_pin@, clock_pin@, order, value),
            gpio_done(before, backend.handled(), 3 * i, plan),
        decreases 8 - i,
    {
        let bit_is_set = shift_out_bit(order, value, i);
        let ghost h0 = backend.handled();
        let r0 = digitalWrite(backend, data_pin, bit_is_set);
        proof {
            assert((3 * i as int) % 3 == 0 && (3 * i as int) / 3 == i);
            lemma_gpio_step(before, h0, backend.handled(), 3 * i, plan);
        }
        match r0 {
            Ok(()) => {},
            Err(e) => {
                return Err(e);
            },
        }
        let ghost h1 = backend.handled();
        let r1 = digitalWrite(backend, clock_pin, true);
        proof {
            assert((3 * i + 1) % 3 == 1);
            lemma_gpio_step(before, h1, backend.handled(), 3 * i + 1, plan);
        }
        match r1 {
            Ok(()) => {},
            Err(e) => {
                return Err(e);
            },
        }
        let ghost h2 = backend.handled();
        let r2 = digitalWrite(backend, clock_pin, false);
        proof {
            assert((3 * i + 2) % 3 == 2);
            lemma_gpio_step(before, h2, backend.handled(), 3 * i + 2, plan);
        }
        match r2 {
            Ok(()) => {},
            Err(e) => {
                return Err(e);
            },
        }
        i = i + 1;
    }
    Ok(())
}

/// The `k`-th command `shiftIn` sends: for each bit, the clock high, the
/// data line read, then the clock low.
pub open spec fn shift_in_plan(data_pin: Seq<char>, clock_pin: Seq<char>) -> spec_fn(int) -> (Seq<char>, Json) {
    |k: int|
        if k % 3 == 0 {
            ("digital_write"@, write_json(clock_pin, true))
        } else if k % 3 == 1 {
            ("digital_read"@, Json::Obj(seq![("pin"@, Json::Str(data_pin))]))
        } else {
            ("digital_write"@, write_json(clock_pin, false))
        }
}

/// The levels the reads of `shiftIn` answered, in order.
pub open spec fn shift_in_levels(before: Seq<Exchange>, after: Seq<Exchange>) -> Seq<bool> {
    Seq::new(8, |i: int| member_bool(answer_body(exchange_after(before, after, 3 * i + 1).3), "is_high"@) == Some(true))
}

/// Clocks a byte out of a shift register, one bit per clock pulse, placed
/// in the given order; the first command that fails stops it.
pub fn shiftIn<B: Backend>(backend: &mut BoardLink<B>, data_pin: &str, clock_pin: &str, order: BitOrder) -> (r: Result<u8, CmdError>)
    ensures
        gpio_run(old(backend).handled(), final(backend).handled(), 24, shift_in_plan(data_pin@, clock_pin@), r),
        r matches Ok(v) ==> v == shifted_in(order, shift_in_levels(old(backend).handled(), final(backend).handled()), 8),
{
    let ghost before = backend.handled();
    let ghost plan = shift_in_plan(data_pin@, clock_pin@);
    assert(backend.handled().subrange(0, before.len() as int) =~= before);
    let mut bits: Vec<bool> = Vec::new();
    let mut i: u8 = 0;
    while i < 8
        invariant
            i <= 8,
            bits.len() == i,
            before == old(backend).handled(),
            plan == shift_in_plan(data_pin@, clock_pin@),
            gpio_done(before, backend.handled(), 3 * i, plan),
            forall|q: int| 0 <= q < i ==> bits@[q] == (member_bool(
                answer_body(#[trigger] exchange_after(before, backend.handled(), 3 * q + 1).3),
                "is_high"@,
            ) == Some(true)),
        decreases 8 - i,
    {
        let ghost h0 = backend.handled();
        let r0 = digitalWrite(backend, clock_pin, true);
        proof {
            assert((3 * i as int) % 3 == 0);
            lemma_gpio_step(before, h0, backend.handled(), 3 * i, plan);
        }
        match r0 {
            Ok(()) => {},
            Err(e) => {
                return Err(e);
            },
        }
        let ghost h1 = backend.handled();
        let r1 = digitalRead(backend, data_pin);
        proof {
            assert((3 * i + 1) % 3 == 1);
            lemma_gpio_step(before, h1, backend.handled(), 3 * i + 1, plan);
        }
        let bit = match r1 {
            Ok(b) => b,
            Err(e) => {
                return Err(e);
            },
        };
        let ghost h2 = backend.handled();
        let r2 = digitalWrite(backend, clock_pin, false);
        proof {
            assert((3 * i + 2) % 3 == 2);
            lemma_gpio_step(before, h2, backend.handled(), 3 * i + 2, plan);
        }
        match r2 {
            Ok(()) => {},
            Err(e) => {
                return Err(e);
            },
        }
        let ghost old_bits = bits@;
        bits.push(bit);
        proof {
            let h3 = backend.handled();
            assert(exchange_after(before, h3, 3 * i + 1) == h2.last());
            assert forall|q: int| 0 <= q < i + 1 implies bits@[q] == (member_bool(
                answer_body(#[trigger] exchange_after(before, h3, 3 * q + 1).3),
                "is_high"@,
            ) == Some(true)) by {
                if q < i {
                    assert(exchange_after(before, h3, 3 * q + 1) == exchange_after(before, h0, 3 * q + 1)) by {
                        assert(h3.drop_last() == h2);
                        assert(h2.drop_last() == h1);
                        assert(h1.drop_last() == h0);
                        assert(h3[before.len() + 3 * q + 1] == h2[before.len() + 3 * q + 1]);
                        assert(h2[before.len() + 3 * q + 1] == h1[before.len() + 3 * q + 1]);
                        assert(h1[before.len() + 3 * q + 1] == h0[before.len() + 3 * q + 1]);
                    }
                    assert(bits@[q] == old_bits[q]);
                }
            }
        }
        i = i + 1;
    }
    let v = shift_in_value(order, &bits);
    proof {
        assert(bits@ =~= shift_in_levels(before, backend.handled()));
    }
    Ok(v)
}

// ----- Wi-Fi scan -----
/// A network as text: its name, its signal (when the field is an integer),
/// and its security (when the field is not blank, trimmed).
pub open spec fn network_view(n: WiFiNetwork) -> (Seq<char>, Option<int>, Option<Seq<char>>) {
    (
        n.ssid@,
        match n.signal_dbm {
            Some(v) => Some(v as int),
            None => None,
        },
        match n.security {
            Some(t) => Some(t@),
            None => None,
        },
    )
}

/// What one line of `nmcli -t -f SSID,SIGNAL,SECURITY dev wifi list` says:
/// the fields between colons, in that order.
pub open spec fn scan_line(line: Seq<char>) -> (Seq<char>, Option<int>, Option<Seq<char>>) {
    let parts = split(line, ':');
    (
        parts[0],
        if parts.len() > 1 { parse_i32(parts[1]) } else { None },
        if parts.len() > 2 && trim(parts[2]).len() > 0 { Some(trim(parts[2])) } else { None },
    )
}

/// The networks of a scan listing, one per line, leaving out lines without
/// a name.
pub open spec fn scanned(ls: Seq<Seq<char>>) -> Seq<(Seq<char>, Option<int>, Option<Seq<char>>)>
    decreases ls.len(),
{
    if ls.len() == 0 {
        Seq::empty()
    } else {
        let rest = scanned(ls.drop_last());
        let n = scan_line(ls.last());
        if n.0.len() > 0 { rest.push(n) } else { rest }
    }
}

/// Reads the networks out of the text that a Wi-Fi scan printed.
pub fn scan_networks(output: &str) -> (networks: Vec<WiFiNetwork>)
    ensures
        networks@.map_values(|n: WiFiNetwork| network_view(n)) == scanned(lines(output@)),
{
    let text = chars_of(output);
    let ls = lines_of(text.as_slice());
    let ghost all = lines(output@);
    let mut networks: Vec<WiFiNetwork> = Vec::new();
    let mut i: usize = 0;
    while i < ls.len()
        invariant
            i <= ls@.len(),
            chars_view(ls@) == all,
            all == lines(output@),
            networks@.map_values(|n: WiFiNetwork| network_view(n)) == scanned(all.take(i as int)),
        decreases ls@.len() - i,
    {
        let line = &ls[i];
        assert(line@ == all[i as int]);
        let parts = split_chars(line.as_slice(), ':');
        proof {
            lemma_split_nonempty(line@, ':');
            assert(chars_view(parts@)[0] == parts@[0]@);
        }
        let named = parts[0].len() > 0;
        let ssid = string_of(parts[0].as_slice());
        let signal_dbm = if parts.len() > 1 {
            assert(chars_view(parts@)[1] == parts@[1]@);
            parse_i32_chars(parts[1].as_slice())
        } else {
            None
        };
        let security = if parts.len() > 2 {
            assert(chars_view(parts@)[2] == parts@[2]@);
            let t = trim_chars(parts[2].as_slice());
            if t.len() > 0 {
                Some(string_of(t.as_slice()))
            } else {
                None
            }
        } else {
            None
        };
        let ghost before = networks@;
        let ghost n = scan_line(all[i as int]);
        proof {
            assert(all.take(i + 1).drop_last() =~= all.take(i as int));
            assert(all.take(i + 1).last() == all[i as int]);
        }
        if named {
            let net = WiFiNetwork { ssid, signal_dbm, security };
            assert(network_view(net) == n);
            networks.push(net);
            proof {
                assert(networks@.map_values(|m: WiFiNetwork| network_view(m)) =~= before.map_values(
                    |m: WiFiNetwork| network_view(m),
                ).push(n));
            }
        } else {
            assert(n.0.len() == 0);
        }
        i = i + 1;
    }
    proof {
        assert(all.take(ls@.len() as int) =~= all);
    }
    networks
}

// ----- devices -----
/// USB devices, as listed by the system.
pub struct USB;

/// Keyboards, as listed by the system.
pub struct Keyboard;

/// Mice, as listed by the system.
pub struct Mouse;

/// `ord` puts `0..n` in some order.
pub open spec fn is_permutation(ord: Seq<int>, n: nat) -> bool {
    &&& ord.len() == n
    &&& ord.no_duplicates()
    &&& forall|i: int| 0 <= i < ord.len() ==> 0 <= #[trigger] ord[i] < n
}

/// The texts in increasing order (`sort`), equal ones kept.
pub fn sort_texts(v: &Vec<String>) -> (r: Vec<String>)
    ensures
        r@.len() == v@.len(),
        forall|a: int, b: int| 0 <= a < b < r@.len() ==> !text_lt(#[trigger] r@[b]@, #[trigger] r@[a]@),
        exists|ord: Seq<int>| is_permutation(ord, v@.len()) && forall|k: int| 0 <= k < r@.len() ==> #[trigger] r@[k]@
            == v@[ord[k]]@,
{
    let n = v.len();
    let order = text_order(v);
    let ghost ord = order@.map_values(|k: usize| k as int);
    let mut r: Vec<String> = Vec::new();
    let mut k: usize = 0;
    while k < n
        invariant
            k <= n,
            n == v@.len(),
            order@.len() == n,
            forall|q: int| 0 <= q < n ==> order@[q] < n,
            r@.len() == k,
            forall|q: int| 0 <= q < k ==> #[trigger] r@[q]@ == v@[order@[q] as int]@,
        decreases n - k,
    {
        let idx = order[k];
        r.push(v[idx].clone());
        k = k + 1;
    }
    proof {
        assert(is_permutation(ord, v@.len()));
        assert forall|q: int| 0 <= q < r@.len() implies #[trigger] r@[q]@ == v@[ord[q]]@ by {
            assert(ord[q] == order@[q] as int);
        }
    }
    r
}

/// The paths of the entries whose name, in lower case, contains `keyword`,
/// in the order of the entries.
pub open spec fn matching_paths(entries: Seq<(String, String)>, keyword: Seq<char>) -> Seq<Seq<char>>
    decreases entries.len(),
{
    if entries.len() == 0 {
        Seq::empty()
    } else {
        let rest = matching_paths(entries.drop_last(), keyword);
        let (name, path) = entries.last();
        if contains_seq(lower_seq(name@), keyword) {
            rest.push(path@)
        } else {
            rest
        }
    }
}

/// The paths of the input devices, given as (file name, path), whose file
/// name in lower case contains `keyword`; sorted.
pub fn list_input_devices_containing(entries: &Vec<(String, String)>, keyword: &str) -> (r: Vec<String>)
    ensures
        r@.len() == matching_paths(entries@, keyword@).len(),
        forall|a: int, b: int| 0 <= a < b < r@.len() ==> !text_lt(#[trigger] r@[b]@, #[trigger] r@[a]@),
        exists|ord: Seq<int>| is_permutation(ord, r@.len()) && forall|k: int| 0 <= k < r@.len() ==> #[trigger] r@[k]@
            == matching_paths(entries@, keyword@)[ord[k]],
{
    let kw = chars_of(keyword);
    let mut found: Vec<String> = Vec::new();
    let mut i: usize = 0;
    while i < entries.len()
        invariant
            i <= entries@.len(),
            kw@ == keyword@,
            strings_view(found@) == matching_paths(entries@.take(i as int), keyword@),
        decreases entries@.len() - i,
    {
        let ghost before = found@;
        proof {
            assert(entries@.take(i + 1).drop_last() =~= entries@.take(i as int));
            assert(entries@.take(i + 1).last() == entries@[i as int]);
        }
        let lowered = lower_chars(chars_of(entries[i].0.as_str()).as_slice());
        if chars_contain(lowered.as_slice(), kw.as_slice()) {
            found.push(entries[i].1.clone());
            assert(strings_view(found@) =~= strings_view(before).push(entries@[i as int].1@));
        }
        i = i + 1;
    }
    assert(entries@.take(entries@.len() as int) =~= entries@);
    let r = sort_texts(&found);
    proof {
        let ord = choose|ord: Seq<int>| is_permutation(ord, found@.len()) && forall|k: int| 0 <= k < r@.len() ==> #[trigger] r@[k]@
            == found@[ord[k]]@;
        assert forall|k: int| 0 <= k < r@.len() implies #[trigger] r@[k]@ == matching_paths(entries@, keyword@)[ord[k]] by {
            assert(strings_view(found@)[ord[k]] == found@[ord[k]]@);
        }
    }
    r
}

impl USB {
    /// The USB devices, given the entry names under `/sys/bus/usb/devices`:
    /// sorted.
    pub fn list_devices(names: &Vec<String>) -> (r: Vec<String>)
        ensures
            r@.len() == names@.len(),
            forall|a: int, b: int| 0 <= a < b < r@.len() ==> !text_lt(#[trigger] r@[b]@, #[trigger] r@[a]@),
            exists|ord: Seq<int>| is_permutation(ord, names@.len()) && forall|k: int| 0 <= k < r@.len() ==> #[trigger] r@[k]@
                == names@[ord[k]]@,
    {
        sort_texts(names)
    }
}

impl Keyboard {
    /// The keyboards among the input devices, given as (file name, path)
    /// from `/dev/input/by-id`: those named with `kbd`, sorted.
    pub fn list_devices(entries: &Vec<(String, String)>) -> (r: Vec<String>)
        ensures
            r@.len() == matching_paths(entries@, "kbd"@).len(),
            forall|a: int, b: int| 0 <= a < b < r@.len() ==> !text_lt(#[trigger] r@[b]@, #[trigger] r@[a]@),
            exists|ord: Seq<int>| is_permutation(ord, r@.len()) && forall|k: int| 0 <= k < r@.len() ==> #[trigger] r@[k]@
                == matching_paths(entries@, "kbd"@)[ord[k]],
    {
        list_input_devices_containing(entries, "kbd")
    }
}

impl Mouse {
    /// The mice among the input devices, given as (file name, path) from
    /// `/dev/input/by-id`: those named with `mouse`, sorted.
    pub fn list_devices(entries: &Vec<(String, String)>) -> (r: Vec<String>)
        ensures
            r@.len() == matching_paths(entries@, "mouse"@).len(),
            forall|a: int, b: int| 0 <= a < b < r@.len() ==> !text_lt(#[trigger] r@[b]@, #[trigger] r@[a]@),
            exists|ord: Seq<int>| is_permutation(ord, r@.len()) && forall|k: int| 0 <= k < r@.len() ==> #[trigger] r@[k]@
                == matching_paths(entries@, "mouse"@)[ord[k]],
    {
        list_input_devices_containing(entries, "mouse")
    }
}

// ----- output streams -----
/// Something text can be printed to (a serial port, a log, ...).
pub trait Print {
    fn print(&mut self, text: &str) -> Result<(), CmdError>;

    /// Prints the text, then, when that succeeded, a line break.
    fn println(&mut self, text: &str) -> Result<(), CmdError> {
        self.print(text)?;
        self.print("\n")
    }
}

/// Something bytes can be read from and written to.
pub trait Stream {
    fn read_bytes(&mut self, len: usize) -> Result<Vec<u8>, CmdError>;

    fn write_bytes(&mut self, data: &[u8]) -> Result<usize, CmdError>;
}

} // verus!
