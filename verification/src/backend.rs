//! The simulated backend: every command changes an in-memory model of the
//! board (pins, analog channels, PWM profiles, tones, motors, UART ports, a
//! game-pad and the safety latch) and answers as a real board would.
//!
//! Two commands need a double's arithmetic, which the library leaves to its
//! caller: `pwm_write` (the duty is clamped to 0..=100 percent) and the motor
//! commands (the value becomes a double). For them `execute` does every check
//! and gives back the number to convert; `finish_pwm_write` and
//! `finish_motor` take the converted value and complete the command.
use crate::command::{CommandEnvelope, CommandResult};
use crate::error::CmdError;
use crate::json::{
    arg_string, arg_string_any, arg_u16, arg_u32_any, arg_u8, args_of, command_args, fields_view,
    find_number_any, find_u64_any, first_number, first_str, first_u64, get_field, invalid_argument,
    keys_view, lemma_fields_view, obj_get, value_bool, value_str, value_u64, Json, JsonNumber,
    JsonValue,
};
use crate::table::Table;
use crate::text::{strings_view, chars_eq, chars_of, concat_str, lower_chars, lower_seq, string_of};
use crate::types::{ControllerState, Level, PinMode, SafetyState};
use std::collections::HashMap;
use vstd::arithmetic::power2::pow2;
use vstd::prelude::*;

verus! {

#[derive(Debug, Clone, Copy, PartialEq, Eq, Structural)]
pub struct PinState {
    pub mode: PinMode,
    pub level: Level,
}

#[derive(Debug, Clone, Copy, PartialEq, Eq, Structural)]
pub struct ToneState {
    pub frequency_hz: u32,
    pub duration_ms: Option<u64>,
}

/// A PWM channel; `duty_percent` is a double kept as its bit pattern.
#[derive(Debug, Clone, Copy, PartialEq, Eq, Structural)]
pub struct PwmProfile {
    pub frequency_hz: u32,
    pub duty_percent: u64,
    pub enabled: bool,
}

#[derive(Debug)]
pub struct UartState {
    pub baud: u32,
    pub tx_log: Vec<String>,
    pub rx_queue: Vec<String>,
}

pub struct UartModel {
    pub baud: u32,
    pub tx_log: Seq<Seq<char>>,
    pub rx_queue: Seq<Seq<char>>,
}

pub open spec fn uart_model(u: UartState) -> UartModel {
    UartModel { baud: u.baud, tx_log: strings_view(u.tx_log@), rx_queue: strings_view(u.rx_queue@) }
}

/// What a command is, as far as the history records it.
pub struct CommandView {
    pub id: u128,
    pub issued_at_ms: u64,
    pub domain: Seq<char>,
    pub action: Seq<char>,
    pub args: Json,
}

pub open spec fn command_view(c: CommandEnvelope) -> CommandView {
    CommandView {
        id: c.id,
        issued_at_ms: c.issued_at_ms,
        domain: c.domain@,
        action: c.action@,
        args: c.args@,
    }
}

/// The state of the simulated board.
pub struct SimModel {
    pub pins: Map<Seq<char>, PinState>,
    pub analog_inputs: Map<u8, u16>,
    pub analog_outputs: Map<u8, u16>,
    pub analog_read_resolution: u8,
    pub analog_write_resolution: u8,
    pub analog_reference: Seq<char>,
    pub tones: Map<Seq<char>, ToneState>,
    pub pwm_profiles: Map<u8, PwmProfile>,
    pub motors: Map<Seq<char>, JsonNumber>,
    pub uart_ports: Map<Seq<char>, UartModel>,
    pub controller: ControllerState,
    pub safety_latched: bool,
    pub history: Seq<CommandView>,
}

/// A command's outcome: complete, or waiting for a double to be computed.
#[derive(Debug)]
pub enum SimStep {
    Done(CommandResult),
    /// `pwm_write`: clamp `duty` to 0..=100 and call `finish_pwm_write`.
    PwmDuty { id: u128, pin: u8, duty: JsonNumber },
    /// A motor command: turn `value` (zero when absent) into a double and
    /// call `finish_motor`.
    MotorValue { id: u128, motor: String, action: String, value: Option<JsonNumber> },
}

pub struct SimBackend {
    pins: Table<PinState>,
    analog_inputs: HashMap<u8, u16>,
    analog_outputs: HashMap<u8, u16>,
    analog_read_resolution: u8,
    analog_write_resolution: u8,
    analog_reference: String,
    tones: Table<ToneState>,
    pwm_profiles: HashMap<u8, PwmProfile>,
    motors: Table<JsonNumber>,
    uart_ports: Table<UartState>,
    controller: ControllerState,
    safety_latched: bool,
    history: Vec<CommandEnvelope>,
}

// ----- labels and small specifications -----
pub open spec fn mode_label(m: PinMode) -> Seq<char> {
    match m {
        PinMode::Input => "input"@,
        PinMode::Output => "output"@,
        PinMode::Pwm => "pwm"@,
        PinMode::Analog => "analog"@,
        PinMode::Interrupt => "interrupt"@,
    }
}

pub open spec fn level_label(l: Level) -> Seq<char> {
    match l {
        Level::Low => "low"@,
        Level::High => "high"@,
    }
}

pub open spec fn safety_label(s: SafetyState) -> Seq<char> {
    match s {
        SafetyState::Normal => "normal"@,
        SafetyState::EmergencyStopped => "emergency_stopped"@,
    }
}

/// Commands that move an actuator and are refused while the stop is latched.
pub open spec fn blocked_in_stop(domain: Seq<char>, action: Seq<char>) -> bool {
    ||| domain == "motor"@
    ||| domain == "pwm"@
    ||| domain == "servo"@
    ||| (domain == "gpio"@ && (action == "digital_write"@ || action == "digital_toggle"@
        || action == "digital_pulse"@))
}

pub open spec fn drives_level(m: PinMode) -> bool {
    m == PinMode::Output || m == PinMode::Pwm
}

pub open spec fn mode_of(s: Seq<char>) -> Option<PinMode> {
    let l = lower_seq(s);
    if l == "input"@ {
        Some(PinMode::Input)
    } else if l == "output"@ {
        Some(PinMode::Output)
    } else if l == "pwm"@ {
        Some(PinMode::Pwm)
    } else if l == "analog"@ {
        Some(PinMode::Analog)
    } else if l == "interrupt"@ {
        Some(PinMode::Interrupt)
    } else {
        None
    }
}

/// The result of reading a pin mode from a member.
pub open spec fn pin_mode_from(v: Option<Json>) -> Result<PinMode, (Seq<char>, Seq<char>)> {
    match value_str(v) {
        None => Err(("mode"@, "missing string"@)),
        Some(s) => match mode_of(s) {
            Some(m) => Ok(m),
            None => Err(("mode"@, "unknown mode `"@ + lower_seq(s) + "`"@)),
        },
    }
}

pub open spec fn level_word(s: Seq<char>) -> Option<Level> {
    let l = lower_seq(s);
    if l == "high"@ || l == "1"@ || l == "true"@ {
        Some(Level::High)
    } else if l == "low"@ || l == "0"@ || l == "false"@ {
        Some(Level::Low)
    } else {
        None
    }
}

/// The result of reading a level from a member.
pub open spec fn level_from(v: Option<Json>) -> Result<Level, (Seq<char>, Seq<char>)> {
    match v {
        None => Err(("level"@, "missing value"@)),
        Some(Json::Bool(b)) => Ok(
            if b {
                Level::High
            } else {
                Level::Low
            },
        ),
        Some(Json::Str(s)) => match level_word(s) {
            Some(l) => Ok(l),
            None => Err(("level"@, "unknown level `"@ + lower_seq(s) + "`"@)),
        },
        Some(_) => Err(("level"@, "expected bool or string"@)),
    }
}

/// The largest sample for a resolution (16 bits at most).
pub open spec fn resolution_max(bits: u8) -> int {
    pow2(if bits > 16 {
        16nat
    } else {
        bits as nat
    }) - 1
}

pub open spec fn min_int(a: int, b: int) -> int {
    if a <= b {
        a
    } else {
        b
    }
}

pub open spec fn utf8_width(c: char) -> nat {
    if (c as u32) < 0x80 {
        1
    } else if (c as u32) < 0x800 {
        2
    } else if (c as u32) < 0x10000 {
        3
    } else {
        4
    }
}

/// The length in bytes of the UTF-8 encoding.
pub open spec fn utf8_len(s: Seq<char>) -> nat
    decreases s.len(),
{
    if s.len() == 0 {
        0
    } else {
        utf8_len(s.drop_last()) + utf8_width(s.last())
    }
}

pub open spec fn default_profile() -> PwmProfile {
    PwmProfile { frequency_hz: 25_000, duty_percent: 0, enabled: false }
}

pub open spec fn ok_step(r: Result<SimStep, CmdError>, id: u128, message: Seq<char>, data: Json) -> bool {
    r matches Ok(SimStep::Done(res)) && res.id == id && res.success && res.message@ == message
        && res.data@ == data
}

pub open spec fn arg_error(r: Result<SimStep, CmdError>, key: Seq<char>, reason: Seq<char>) -> bool {
    r matches Err(e) && invalid_argument(key, reason, e)
}

pub open spec fn jstr(s: Seq<char>) -> Json {
    Json::Str(s)
}

pub open spec fn juint(n: int) -> Json {
    Json::Num(JsonNumber::UInt(n as u64))
}

pub open spec fn ctrl_axis(c: ControllerState, name: Seq<char>) -> Option<u32> {
    if name == "lx"@ {
        Some(c.lx)
    } else if name == "ly"@ {
        Some(c.ly)
    } else if name == "rx"@ {
        Some(c.rx)
    } else if name == "ry"@ {
        Some(c.ry)
    } else if name == "lt"@ {
        Some(c.lt)
    } else if name == "rt"@ {
        Some(c.rt)
    } else {
        None
    }
}

pub open spec fn ctrl_button(c: ControllerState, name: Seq<char>) -> Option<bool> {
    if name == "a"@ {
        Some(c.a)
    } else if name == "b"@ {
        Some(c.b)
    } else if name == "x"@ {
        Some(c.x)
    } else if name == "y"@ {
        Some(c.y)
    } else if name == "lb"@ {
        Some(c.lb)
    } else if name == "rb"@ {
        Some(c.rb)
    } else if name == "start"@ {
        Some(c.start)
    } else if name == "select"@ {
        Some(c.select)
    } else {
        None
    }
}

pub open spec fn controller_json(c: ControllerState) -> Json {
    Json::Obj(
        seq![
            ("connected"@, Json::Bool(c.connected)),
            ("lx"@, Json::Num(JsonNumber::Single(c.lx))),
            ("ly"@, Json::Num(JsonNumber::Single(c.ly))),
            ("rx"@, Json::Num(JsonNumber::Single(c.rx))),
            ("ry"@, Json::Num(JsonNumber::Single(c.ry))),
            ("lt"@, Json::Num(JsonNumber::Single(c.lt))),
            ("rt"@, Json::Num(JsonNumber::Single(c.rt))),
            ("a"@, Json::Bool(c.a)),
            ("b"@, Json::Bool(c.b)),
            ("x"@, Json::Bool(c.x)),
            ("y"@, Json::Bool(c.y)),
            ("lb"@, Json::Bool(c.lb)),
            ("rb"@, Json::Bool(c.rb)),
            ("start"@, Json::Bool(c.start)),
            ("select"@, Json::Bool(c.select)),
        ],
    )
}

pub open spec fn opt_u64_json(o: Option<u64>) -> Json {
    match o {
        Some(v) => Json::Num(JsonNumber::UInt(v)),
        None => Json::Null,
    }
}

pub open spec fn opt_u32_json(o: Option<u32>) -> Json {
    match o {
        Some(v) => Json::Num(JsonNumber::UInt(v as u64)),
        None => Json::Null,
    }
}

// ----- small executable helpers -----
/// Appends one member to an object under construction.
pub(crate) fn member(fields: &mut Vec<(String, JsonValue)>, key: &str, value: JsonValue)
    ensures
        fields_view(final(fields)@) == fields_view(old(fields)@).push((key@, value@)),
{
    let ghost before = fields@;
    fields.push((String::from_str(key), value));
    assert(fields@.drop_last() == before);
}

pub(crate) fn obj1(k1: &str, v1: JsonValue) -> (r: JsonValue)
    ensures
        r@ == Json::Obj(seq![(k1@, v1@)]),
{
    let mut d: Vec<(String, JsonValue)> = Vec::new();
    member(&mut d, k1, v1);
    assert(fields_view(d@) =~= seq![(k1@, v1@)]);
    JsonValue::Object(d)
}

pub(crate) fn obj2(k1: &str, v1: JsonValue, k2: &str, v2: JsonValue) -> (r: JsonValue)
    ensures
        r@ == Json::Obj(seq![(k1@, v1@), (k2@, v2@)]),
{
    let mut d: Vec<(String, JsonValue)> = Vec::new();
    let ghost g1 = v1@;
    let ghost g2 = v2@;
    member(&mut d, k1, v1);
    member(&mut d, k2, v2);
    assert(fields_view(d@) =~= seq![(k1@, g1), (k2@, g2)]);
    JsonValue::Object(d)
}

pub(crate) fn obj3(k1: &str, v1: JsonValue, k2: &str, v2: JsonValue, k3: &str, v3: JsonValue) -> (r: JsonValue)
    ensures
        r@ == Json::Obj(seq![(k1@, v1@), (k2@, v2@), (k3@, v3@)]),
{
    let mut d: Vec<(String, JsonValue)> = Vec::new();
    let ghost g1 = v1@;
    let ghost g2 = v2@;
    let ghost g3 = v3@;
    member(&mut d, k1, v1);
    member(&mut d, k2, v2);
    member(&mut d, k3, v3);
    assert(fields_view(d@) =~= seq![(k1@, g1), (k2@, g2), (k3@, g3)]);
    JsonValue::Object(d)
}

fn obj4(k1: &str, v1: JsonValue, k2: &str, v2: JsonValue, k3: &str, v3: JsonValue, k4: &str, v4: JsonValue) -> (r: JsonValue)
    ensures
        r@ == Json::Obj(seq![(k1@, v1@), (k2@, v2@), (k3@, v3@), (k4@, v4@)]),
{
    let mut d: Vec<(String, JsonValue)> = Vec::new();
    let ghost g1 = v1@;
    let ghost g2 = v2@;
    let ghost g3 = v3@;
    let ghost g4 = v4@;
    member(&mut d, k1, v1);
    member(&mut d, k2, v2);
    member(&mut d, k3, v3);
    member(&mut d, k4, v4);
    assert(fields_view(d@) =~= seq![(k1@, g1), (k2@, g2), (k3@, g3), (k4@, g4)]);
    JsonValue::Object(d)
}

fn text(s: &str) -> (r: JsonValue)
    ensures
        r@ == Json::Str(s@),
{
    JsonValue::Str(String::from_str(s))
}

pub(crate) fn owned_text(s: String) -> (r: JsonValue)
    ensures
        r@ == Json::Str(s@),
{
    JsonValue::Str(s)
}

fn uint(n: u64) -> (r: JsonValue)
    ensures
        r@ == Json::Num(JsonNumber::UInt(n)),
{
    JsonValue::Number(JsonNumber::UInt(n))
}

pub(crate) fn opt_uint(o: Option<u64>) -> (r: JsonValue)
    ensures
        r@ == opt_u64_json(o),
{
    match o {
        Some(n) => JsonValue::Number(JsonNumber::UInt(n)),
        None => JsonValue::Null,
    }
}

fn boolean(b: bool) -> (r: JsonValue)
    ensures
        r@ == Json::Bool(b),
{
    JsonValue::Bool(b)
}

pub fn mode_name(m: PinMode) -> (s: &'static str)
    ensures
        s@ == mode_label(m),
{
    match m {
        PinMode::Input => "input",
        PinMode::Output => "output",
        PinMode::Pwm => "pwm",
        PinMode::Analog => "analog",
        PinMode::Interrupt => "interrupt",
    }
}

pub fn level_name(l: Level) -> (s: &'static str)
    ensures
        s@ == level_label(l),
{
    match l {
        Level::Low => "low",
        Level::High => "high",
    }
}

/// Whether a command moves an actuator (and so waits while the stop is latched).
pub fn is_blocked_in_stop(domain: &str, action: &str) -> (r: bool)
    ensures
        r == blocked_in_stop(domain@, action@),
{
    if crate::json::str_eq(domain, "motor") || crate::json::str_eq(domain, "pwm")
        || crate::json::str_eq(domain, "servo") {
        return true;
    }
    crate::json::str_eq(domain, "gpio") && (crate::json::str_eq(action, "digital_write")
        || crate::json::str_eq(action, "digital_toggle") || crate::json::str_eq(
        action,
        "digital_pulse",
    ))
}

fn word_is(l: &Vec<char>, w: &str) -> (r: bool)
    ensures
        r == (l@ == w@),
{
    let wc = chars_of(w);
    chars_eq(l.as_slice(), wc.as_slice())
}

fn backquoted(prefix: &str, word: &[char]) -> (s: String)
    ensures
        s@ == prefix@ + word@ + "`"@,
{
    let mut s = String::from_str(prefix);
    let w = string_of(word);
    s.append(w.as_str());
    s.append("`");
    s
}

/// Reads a pin mode from a member (case-insensitive word).
pub fn parse_pin_mode(value: Option<&JsonValue>) -> (r: Result<PinMode, CmdError>)
    ensures
        match r {
            Ok(m) => pin_mode_from(match value {
                Some(v) => Some(v@),
                None => None,
            }) == Ok::<PinMode, (Seq<char>, Seq<char>)>(m),
            Err(e) => pin_mode_from(match value {
                Some(v) => Some(v@),
                None => None,
            }) matches Err(p) && invalid_argument(p.0, p.1, e),
        },
{
    let raw = match value {
        Some(JsonValue::Str(s)) => s,
        _ => {
            return Err(
                CmdError::InvalidArgument {
                    key: String::from_str("mode"),
                    reason: String::from_str("missing string"),
                },
            );
        },
    };
    let chars = chars_of(raw.as_str());
    let l = lower_chars(chars.as_slice());
    if word_is(&l, "input") {
        Ok(PinMode::Input)
    } else if word_is(&l, "output") {
        Ok(PinMode::Output)
    } else if word_is(&l, "pwm") {
        Ok(PinMode::Pwm)
    } else if word_is(&l, "analog") {
        Ok(PinMode::Analog)
    } else if word_is(&l, "interrupt") {
        Ok(PinMode::Interrupt)
    } else {
        Err(
            CmdError::InvalidArgument {
                key: String::from_str("mode"),
                reason: backquoted("unknown mode `", l.as_slice()),
            },
        )
    }
}

/// Reads a level from a member: a boolean, or one of the words
/// high/1/true and low/0/false in any case.
pub fn parse_level(value: Option<&JsonValue>) -> (r: Result<Level, CmdError>)
    ensures
        match r {
            Ok(l) => level_from(match value {
                Some(v) => Some(v@),
                None => None,
            }) == Ok::<Level, (Seq<char>, Seq<char>)>(l),
            Err(e) => level_from(match value {
                Some(v) => Some(v@),
                None => None,
            }) matches Err(p) && invalid_argument(p.0, p.1, e),
        },
{
    match value {
        None => Err(
            CmdError::InvalidArgument {
                key: String::from_str("level"),
                reason: String::from_str("missing value"),
            },
        ),
        Some(JsonValue::Bool(b)) => Ok(
            if *b {
                Level::High
            } else {
                Level::Low
            },
        ),
        Some(JsonValue::Str(s)) => {
            let chars = chars_of(s.as_str());
            let l = lower_chars(chars.as_slice());
            if word_is(&l, "high") || word_is(&l, "1") || word_is(&l, "true") {
                Ok(Level::High)
            } else if word_is(&l, "low") || word_is(&l, "0") || word_is(&l, "false") {
                Ok(Level::Low)
            } else {
                Err(
                    CmdError::InvalidArgument {
                        key: String::from_str("level"),
                        reason: backquoted("unknown level `", l.as_slice()),
                    },
                )
            }
        },
        Some(_) => Err(
            CmdError::InvalidArgument {
                key: String::from_str("level"),
                reason: String::from_str("expected bool or string"),
            },
        ),
    }
}

/// `(1 << bits.min(16)) - 1`: the largest sample at a resolution.
pub fn max_sample(bits: u8) -> (m: u16)
    ensures
        m as int == resolution_max(bits),
{
    let b: u8 = if bits > 16 { 16 } else { bits };
    let mut v: u32 = 1;
    let mut i: u8 = 0;
    proof {
        vstd::arithmetic::power2::lemma2_to64();
    }
    while i < b
        invariant
            i <= b <= 16,
            v as int == pow2(i as nat),
        decreases b - i,
    {
        proof {
            vstd::arithmetic::power2::lemma_pow2_unfold((i + 1) as nat);
            vstd::arithmetic::power2::lemma_pow2_strictly_increases(i as nat, 16);
            vstd::arithmetic::power2::lemma2_to64();
        }
        v = v * 2;
        i = i + 1;
    }
    proof {
        vstd::arithmetic::power2::lemma2_to64();
        if b < 16 {
            vstd::arithmetic::power2::lemma_pow2_strictly_increases(b as nat, 16);
        }
    }
    (v - 1) as u16
}

/// Number of bytes of the UTF-8 encoding of `s` (`str::len`), which in
/// practice never reaches `u64::MAX`.
pub fn utf8_byte_len(s: &str) -> (n: u64)
    ensures
        n == min_int(utf8_len(s@) as int, u64::MAX as int),
{
    let cs = chars_of(s);
    let mut n: u64 = 0;
    let mut i: usize = 0;
    while i < cs.len()
        invariant
            i <= cs@.len(),
            n == min_int(utf8_len(cs@.subrange(0, i as int)) as int, u64::MAX as int),
        decreases cs.len() - i,
    {
        let c = cs[i];
        let w: u64 = if (c as u32) < 0x80 {
            1
        } else if (c as u32) < 0x800 {
            2
        } else if (c as u32) < 0x10000 {
            3
        } else {
            4
        };
        assert(cs@.subrange(0, i + 1).drop_last() == cs@.subrange(0, i as int));
        if n > u64::MAX - w {
            n = u64::MAX;
        } else {
            n = n + w;
        }
        i = i + 1;
    }
    assert(cs@.subrange(0, cs@.len() as int) == cs@);
    n
}


// ----- the specification of one command -----
pub open spec fn with_pins(m: SimModel, pins: Map<Seq<char>, PinState>) -> SimModel {
    SimModel { pins, ..m }
}

/// `pin_mode`: the pin takes the mode; a driving mode starts low.
pub open spec fn spec_pin_mode(pre: SimModel, args: Seq<(Seq<char>, Json)>, id: u128, post: SimModel, r: Result<SimStep, CmdError>) -> bool {
    match value_str(obj_get(args, "pin"@)) {
        None => post == pre && arg_error(r, "pin"@, "missing string"@),
        Some(pin) => match pin_mode_from(obj_get(args, "mode"@)) {
            Err(p) => post == pre && arg_error(r, p.0, p.1),
            Ok(m) => {
                let level = if drives_level(m) {
                    Level::Low
                } else if pre.pins.contains_key(pin) {
                    pre.pins[pin].level
                } else {
                    Level::Low
                };
                &&& post == with_pins(pre, pre.pins.insert(pin, PinState { mode: m, level }))
                &&& ok_step(r, id, "pin mode updated"@, Json::Obj(seq![("pin"@, jstr(pin)), ("mode"@, jstr(mode_label(m)))]))
            },
        },
    }
}

/// `digital_write`: a configured driving pin takes the level.
pub open spec fn spec_digital_write(pre: SimModel, args: Seq<(Seq<char>, Json)>, id: u128, post: SimModel, r: Result<SimStep, CmdError>) -> bool {
    match value_str(obj_get(args, "pin"@)) {
        None => post == pre && arg_error(r, "pin"@, "missing string"@),
        Some(pin) => match level_from(obj_get(args, "level"@)) {
            Err(p) => post == pre && arg_error(r, p.0, p.1),
            Ok(l) => if !pre.pins.contains_key(pin) {
                post == pre && not_configured(r, pin)
            } else if !drives_level(pre.pins[pin].mode) {
                post == pre && mode_mismatch(r, pin)
            } else {
                &&& post == with_pins(pre, pre.pins.insert(pin, PinState { level: l, ..pre.pins[pin] }))
                &&& ok_step(r, id, "digital write ok"@, Json::Obj(seq![("level"@, jstr(level_label(l)))]))
            },
        },
    }
}

/// `digital_read`: the level of a configured pin.
pub open spec fn spec_digital_read(pre: SimModel, args: Seq<(Seq<char>, Json)>, id: u128, post: SimModel, r: Result<SimStep, CmdError>) -> bool {
    &&& post == pre
    &&& match value_str(obj_get(args, "pin"@)) {
        None => arg_error(r, "pin"@, "missing string"@),
        Some(pin) => if !pre.pins.contains_key(pin) {
            not_configured(r, pin)
        } else {
            let l = pre.pins[pin].level;
            ok_step(r, id, "digital read ok"@, Json::Obj(seq![("pin"@, jstr(pin)), ("level"@, jstr(level_label(l))), ("is_high"@, Json::Bool(l == Level::High))]))
        },
    }
}

pub open spec fn flip(l: Level) -> Level {
    if l == Level::High { Level::Low } else { Level::High }
}

/// `digital_toggle`: a configured driving pin flips its level.
pub open spec fn spec_digital_toggle(pre: SimModel, args: Seq<(Seq<char>, Json)>, id: u128, post: SimModel, r: Result<SimStep, CmdError>) -> bool {
    match value_str(obj_get(args, "pin"@)) {
        None => post == pre && arg_error(r, "pin"@, "missing string"@),
        Some(pin) => if !pre.pins.contains_key(pin) {
            post == pre && not_configured(r, pin)
        } else if !drives_level(pre.pins[pin].mode) {
            post == pre && mode_mismatch(r, pin)
        } else {
            let l = flip(pre.pins[pin].level);
            &&& post == with_pins(pre, pre.pins.insert(pin, PinState { level: l, ..pre.pins[pin] }))
            &&& ok_step(r, id, "digital toggle ok"@, Json::Obj(seq![("level"@, jstr(level_label(l)))]))
        },
    }
}

/// `analog_read`: the sample of a channel (half scale until one is set),
/// bounded by the current resolution.
pub open spec fn spec_analog_read(pre: SimModel, args: Seq<(Seq<char>, Json)>, id: u128, post: SimModel, r: Result<SimStep, CmdError>) -> bool {
    match value_u64(obj_get(args, "pin"@)) {
        None => post == pre && arg_error(r, "pin"@, "missing unsigned integer"@),
        Some(u) => {
            let pin = u as u8;
            let max = resolution_max(pre.analog_read_resolution);
            let value: int = if pre.analog_inputs.contains_key(pin) { pre.analog_inputs[pin] as int } else { max / 2 };
            &&& post == (if pre.analog_inputs.contains_key(pin) { pre } else { SimModel { analog_inputs: pre.analog_inputs.insert(pin, (max / 2) as u16), ..pre } })
            &&& ok_step(r, id, "analog read ok"@, Json::Obj(seq![
                ("pin"@, juint(pin as int)),
                ("value"@, juint(min_int(value, max))),
                ("resolution"@, juint(pre.analog_read_resolution as int)),
                ("reference"@, jstr(pre.analog_reference)),
            ]))
        },
    }
}

/// `analog_read_resolution` and `analog_write_resolution`: 1..=16 bits.
pub open spec fn spec_resolution(pre: SimModel, args: Seq<(Seq<char>, Json)>, id: u128, post: SimModel, r: Result<SimStep, CmdError>, write: bool) -> bool {
    match value_u64(obj_get(args, "bits"@)) {
        None => post == pre && arg_error(r, "bits"@, "missing unsigned integer"@),
        Some(u) => {
            let bits = u as u8;
            if bits == 0 || bits > 16 {
                post == pre && arg_error(r, "bits"@, if write { "analog write resolution must be 1..=16"@ } else { "analog read resolution must be 1..=16"@ })
            } else {
                &&& post == (if write { SimModel { analog_write_resolution: bits, ..pre } } else { SimModel { analog_read_resolution: bits, ..pre } })
                &&& ok_step(r, id, if write { "analog write resolution updated"@ } else { "analog read resolution updated"@ }, Json::Obj(seq![("bits"@, juint(bits as int))]))
            }
        },
    }
}

/// `analog_reference`: any reference name is kept.
pub open spec fn spec_analog_reference(pre: SimModel, args: Seq<(Seq<char>, Json)>, id: u128, post: SimModel, r: Result<SimStep, CmdError>) -> bool {
    match value_str(obj_get(args, "reference"@)) {
        None => post == pre && arg_error(r, "reference"@, "missing string"@),
        Some(rf) => {
            &&& post == SimModel { analog_reference: rf, ..pre }
            &&& ok_step(r, id, "analog reference updated"@, Json::Obj(seq![("reference"@, jstr(rf))]))
        },
    }
}

/// `analog_write`: the value, bounded by the resolution, is stored.
pub open spec fn spec_analog_write(pre: SimModel, args: Seq<(Seq<char>, Json)>, id: u128, post: SimModel, r: Result<SimStep, CmdError>) -> bool {
    match value_u64(obj_get(args, "pin"@)) {
        None => post == pre && arg_error(r, "pin"@, "missing unsigned integer"@),
        Some(u) => match value_u64(obj_get(args, "value"@)) {
            None => post == pre && arg_error(r, "value"@, "missing unsigned integer"@),
            Some(w) => {
                let pin = u as u8;
                let max = resolution_max(pre.analog_write_resolution);
                let v = min_int((w as u16) as int, max);
                &&& post == SimModel { analog_outputs: pre.analog_outputs.insert(pin, v as u16), ..pre }
                &&& ok_step(r, id, "analog write ok"@, Json::Obj(seq![
                    ("pin"@, juint(pin as int)),
                    ("value"@, juint(v)),
                    ("resolution"@, juint(pre.analog_write_resolution as int)),
                ]))
            },
        },
    }
}

pub open spec fn profile_of(m: SimModel, pin: u8) -> PwmProfile {
    if m.pwm_profiles.contains_key(pin) { m.pwm_profiles[pin] } else { default_profile() }
}

/// `pwm_frequency`: a positive frequency is stored for the channel.
pub open spec fn spec_pwm_frequency(pre: SimModel, args: Seq<(Seq<char>, Json)>, id: u128, post: SimModel, r: Result<SimStep, CmdError>) -> bool {
    match value_u64(obj_get(args, "pin"@)) {
        None => post == pre && arg_error(r, "pin"@, "missing unsigned integer"@),
        Some(u) => match first_u64(args, seq!["frequency_hz"@, "frequency"@]) {
            None => post == pre && arg_error(r, keys_join(seq!["frequency_hz"@, "frequency"@]), "missing unsigned integer"@),
            Some(fu) => {
                let pin = u as u8;
                let f = fu as u32;
                if f == 0 {
                    post == pre && arg_error(r, "frequency_hz"@, "frequency must be greater than zero"@)
                } else {
                    let prof = profile_of(pre, pin);
                    &&& post == SimModel { pwm_profiles: pre.pwm_profiles.insert(pin, PwmProfile { frequency_hz: f, ..prof }), ..pre }
                    &&& ok_step(r, id, "pwm frequency updated"@, Json::Obj(seq![
                        ("pin"@, juint(pin as int)),
                        ("frequency_hz"@, juint(f as int)),
                        ("duty_percent"@, Json::Num(JsonNumber::Float(prof.duty_percent))),
                    ]))
                }
            },
        },
    }
}

/// `pwm_write`: the duty number is handed out to be clamped.
pub open spec fn spec_pwm_write(pre: SimModel, args: Seq<(Seq<char>, Json)>, id: u128, post: SimModel, r: Result<SimStep, CmdError>) -> bool {
    &&& post == pre
    &&& match value_u64(obj_get(args, "pin"@)) {
        None => arg_error(r, "pin"@, "missing unsigned integer"@),
        Some(u) => match first_number(args, seq!["duty_percent"@, "duty"@]) {
            None => arg_error(r, keys_join(seq!["duty_percent"@, "duty"@]), "missing number"@),
            Some(n) => r == Ok::<SimStep, CmdError>(SimStep::PwmDuty { id, pin: u as u8, duty: n }),
        },
    }
}

/// `tone`: the tone of a pin is recorded.
pub open spec fn spec_tone(pre: SimModel, args: Seq<(Seq<char>, Json)>, id: u128, post: SimModel, r: Result<SimStep, CmdError>) -> bool {
    match first_str(args, seq!["pin"@, "id"@, "name"@]) {
        None => post == pre && arg_error(r, keys_join(seq!["pin"@, "id"@, "name"@]), "missing string"@),
        Some(pin) => match first_u64(args, seq!["frequency_hz"@, "frequency"@]) {
            None => post == pre && arg_error(r, keys_join(seq!["frequency_hz"@, "frequency"@]), "missing unsigned integer"@),
            Some(fu) => {
                let f = fu as u32;
                let d = value_u64(obj_get(args, "duration_ms"@));
                &&& post == SimModel { tones: pre.tones.insert(pin, ToneState { frequency_hz: f, duration_ms: d }), ..pre }
                &&& ok_step(r, id, "tone started"@, Json::Obj(seq![
                    ("pin"@, jstr(pin)),
                    ("frequency_hz"@, juint(f as int)),
                    ("duration_ms"@, opt_u64_json(d)),
                ]))
            },
        },
    }
}

/// `no_tone`: the tone of a pin is dropped and reported.
pub open spec fn spec_no_tone(pre: SimModel, args: Seq<(Seq<char>, Json)>, id: u128, post: SimModel, r: Result<SimStep, CmdError>) -> bool {
    match first_str(args, seq!["pin"@, "id"@, "name"@]) {
        None => post == pre && arg_error(r, keys_join(seq!["pin"@, "id"@, "name"@]), "missing string"@),
        Some(pin) => {
            let had = pre.tones.contains_key(pin);
            &&& post == SimModel { tones: pre.tones.remove(pin), ..pre }
            &&& ok_step(r, id, "tone stopped"@, Json::Obj(seq![
                ("pin"@, jstr(pin)),
                ("frequency_hz"@, opt_u32_json(if had { Some(pre.tones[pin].frequency_hz) } else { None })),
                ("duration_ms"@, opt_u64_json(if had { pre.tones[pin].duration_ms } else { None })),
            ]))
        },
    }
}

pub open spec fn motor_action(a: Seq<char>) -> bool {
    ||| a == "motor_set_speed"@
    ||| a == "motor_set_duty"@
    ||| a == "motor_set_voltage"@
    ||| a == "motor_enable"@
    ||| a == "motor_disable"@
    ||| a == "motor_brake"@
    ||| a == "motor_stop"@
    ||| a == "motor_coast"@
    ||| a == "motor_ramp"@
}

/// A motor command: the motor (or `default`) and its number are handed out.
pub open spec fn spec_motor(pre: SimModel, args: Seq<(Seq<char>, Json)>, id: u128, action: Seq<char>, post: SimModel, r: Result<SimStep, CmdError>) -> bool {
    let motor = match first_str(args, seq!["motor"@, "name"@, "id"@]) {
        Some(m) => m,
        None => "default"@,
    };
    &&& post == pre
    &&& r matches Ok(SimStep::MotorValue { id: i, motor: m, action: a, value: v })
    &&& i == id && m@ == motor && a@ == action
    &&& v == first_number(args, seq!["speed"@, "duty"@, "voltage"@, "target"@])
}

/// Member names joined with `|`, as an error names them.
pub open spec fn keys_join(keys: Seq<Seq<char>>) -> Seq<char> {
    crate::text::join(keys, "|"@)
}

pub open spec fn not_configured(r: Result<SimStep, CmdError>, pin: Seq<char>) -> bool {
    r matches Err(CmdError::PinNotConfigured(p)) && p@ == pin
}

pub open spec fn mode_mismatch(r: Result<SimStep, CmdError>, pin: Seq<char>) -> bool {
    r matches Err(CmdError::PinModeMismatch(p)) && p@ == pin
}

pub open spec fn uart_key_missing(r: Result<SimStep, CmdError>, port: Seq<char>) -> bool {
    r matches Err(CmdError::ResourceNotFound(msg)) && msg@ == "uart port `"@ + port + "`"@
}

/// `uart_open`: the port starts with empty logs (115200 baud unless given).
pub open spec fn spec_uart_open(pre: SimModel, args: Seq<(Seq<char>, Json)>, id: u128, post: SimModel, r: Result<SimStep, CmdError>) -> bool {
    match first_str(args, seq!["port"@, "id"@, "name"@]) {
        None => post == pre && arg_error(r, keys_join(seq!["port"@, "id"@, "name"@]), "missing string"@),
        Some(port) => {
            let baud: u32 = match first_u64(args, seq!["baud"@, "baud_rate"@]) {
                Some(b) => b as u32,
                None => 115200,
            };
            &&& post == SimModel { uart_ports: pre.uart_ports.insert(port, UartModel { baud, tx_log: Seq::empty(), rx_queue: Seq::empty() }), ..pre }
            &&& ok_step(r, id, "uart opened"@, Json::Obj(seq![("port"@, jstr(port)), ("baud"@, juint(baud as int))]))
        },
    }
}

/// `uart_close`: the port is forgotten.
pub open spec fn spec_uart_close(pre: SimModel, args: Seq<(Seq<char>, Json)>, id: u128, post: SimModel, r: Result<SimStep, CmdError>) -> bool {
    match first_str(args, seq!["port"@, "id"@, "name"@]) {
        None => post == pre && arg_error(r, keys_join(seq!["port"@, "id"@, "name"@]), "missing string"@),
        Some(port) => {
            &&& post == SimModel { uart_ports: pre.uart_ports.remove(port), ..pre }
            &&& ok_step(r, id, "uart closed"@, Json::Obj(seq![("port"@, jstr(port))]))
        },
    }
}

/// `uart_send`: the text is appended to the port's transmit log.
pub open spec fn spec_uart_send(pre: SimModel, args: Seq<(Seq<char>, Json)>, id: u128, post: SimModel, r: Result<SimStep, CmdError>) -> bool {
    match first_str(args, seq!["port"@, "id"@, "name"@]) {
        None => post == pre && arg_error(r, keys_join(seq!["port"@, "id"@, "name"@]), "missing string"@),
        Some(port) => {
            let data = match first_str(args, seq!["data"@, "text"@, "payload"@]) {
                Some(d) => d,
                None => Seq::empty(),
            };
            if !pre.uart_ports.contains_key(port) {
                post == pre && uart_key_missing(r, port)
            } else {
                let u = pre.uart_ports[port];
                &&& post == SimModel { uart_ports: pre.uart_ports.insert(port, UartModel { tx_log: u.tx_log.push(data), ..u }), ..pre }
                &&& ok_step(r, id, "uart send ok"@, Json::Obj(seq![
                    ("port"@, jstr(port)),
                    ("bytes"@, juint(min_int(utf8_len(data) as int, u64::MAX as int))),
                ]))
            }
        },
    }
}

/// `uart_read`: the oldest received text (empty when there is none).
pub open spec fn spec_uart_read(pre: SimModel, args: Seq<(Seq<char>, Json)>, id: u128, post: SimModel, r: Result<SimStep, CmdError>) -> bool {
    match first_str(args, seq!["port"@, "id"@, "name"@]) {
        None => post == pre && arg_error(r, keys_join(seq!["port"@, "id"@, "name"@]), "missing string"@),
        Some(port) => if !pre.uart_ports.contains_key(port) {
            post == pre && uart_key_missing(r, port)
        } else {
            let u = pre.uart_ports[port];
            let (data, rest) = if u.rx_queue.len() > 0 { (u.rx_queue[0], u.rx_queue.drop_first()) } else { (Seq::<char>::empty(), u.rx_queue) };
            &&& post == SimModel { uart_ports: pre.uart_ports.insert(port, UartModel { rx_queue: rest, ..u }), ..pre }
            &&& ok_step(r, id, "uart read ok"@, Json::Obj(seq![
                ("port"@, jstr(port)),
                ("baud"@, juint(u.baud as int)),
                ("data"@, jstr(data)),
            ]))
        },
    }
}

/// `bt_axis`: a stick or trigger position.
pub open spec fn spec_bt_axis(pre: SimModel, args: Seq<(Seq<char>, Json)>, id: u128, post: SimModel, r: Result<SimStep, CmdError>) -> bool {
    &&& post == pre
    &&& match value_str(obj_get(args, "axis"@)) {
        None => arg_error(r, "axis"@, "missing string"@),
        Some(axis) => match ctrl_axis(pre.controller, axis) {
            None => arg_error(r, "axis"@, "unknown axis `"@ + axis + "`"@),
            Some(bits) => ok_step(r, id, "axis value"@, Json::Obj(seq![("axis"@, jstr(axis)), ("value"@, Json::Num(JsonNumber::Single(bits)))])),
        },
    }
}

/// `bt_button`: whether a button is pressed.
pub open spec fn spec_bt_button(pre: SimModel, args: Seq<(Seq<char>, Json)>, id: u128, post: SimModel, r: Result<SimStep, CmdError>) -> bool {
    &&& post == pre
    &&& match value_str(obj_get(args, "button"@)) {
        None => arg_error(r, "button"@, "missing string"@),
        Some(b) => match ctrl_button(pre.controller, b) {
            None => arg_error(r, "button"@, "unknown button `"@ + b + "`"@),
            Some(p) => ok_step(r, id, "button value"@, Json::Obj(seq![("button"@, jstr(b)), ("pressed"@, Json::Bool(p))])),
        },
    }
}

pub open spec fn is_cmd(d: Seq<char>, a: Seq<char>, dd: Seq<char>, aa: Seq<char>) -> bool {
    d == dd && a == aa
}

/// What one admitted command does to the board (`pre` already records it in
/// the history) and what it answers.
pub open spec fn spec_step(pre: SimModel, d: Seq<char>, a: Seq<char>, args: Seq<(Seq<char>, Json)>, id: u128, post: SimModel, r: Result<SimStep, CmdError>) -> bool {
    if is_cmd(d, a, "runtime"@, "panic_stop"@) || is_cmd(d, a, "runtime"@, "emergency_stop"@) {
        post == SimModel { safety_latched: true, ..pre } && ok_step(r, id, "safety stop latched"@, Json::Obj(seq![("safety"@, jstr(safety_label(SafetyState::EmergencyStopped)))]))
    } else if is_cmd(d, a, "runtime"@, "clear_stop"@) {
        post == SimModel { safety_latched: false, ..pre } && ok_step(r, id, "safety stop cleared"@, Json::Obj(seq![("safety"@, jstr(safety_label(SafetyState::Normal)))]))
    } else if is_cmd(d, a, "runtime"@, "status"@) {
        post == pre && ok_step(r, id, "runtime status"@, Json::Obj(seq![
            ("safety_latched"@, Json::Bool(pre.safety_latched)),
            ("pins"@, juint(pre.pins.len() as int)),
            ("motors"@, juint(pre.motors.len() as int)),
            ("uart_ports"@, juint(pre.uart_ports.len() as int)),
            ("controller_connected"@, Json::Bool(pre.controller.connected)),
            ("history_len"@, juint(pre.history.len() as int)),
        ]))
    } else if is_cmd(d, a, "runtime"@, "health_check"@) {
        post == pre && ok_step(r, id, "health check ok"@, Json::Obj(seq![("ok"@, Json::Bool(true))]))
    } else if is_cmd(d, a, "gpio"@, "pin_mode"@) {
        spec_pin_mode(pre, args, id, post, r)
    } else if is_cmd(d, a, "gpio"@, "digital_write"@) {
        spec_digital_write(pre, args, id, post, r)
    } else if is_cmd(d, a, "gpio"@, "digital_read"@) {
        spec_digital_read(pre, args, id, post, r)
    } else if is_cmd(d, a, "gpio"@, "digital_toggle"@) {
        spec_digital_toggle(pre, args, id, post, r)
    } else if is_cmd(d, a, "analog"@, "analog_read"@) {
        spec_analog_read(pre, args, id, post, r)
    } else if is_cmd(d, a, "analog"@, "analog_read_resolution"@) {
        spec_resolution(pre, args, id, post, r, false)
    } else if is_cmd(d, a, "analog"@, "analog_reference"@) {
        spec_analog_reference(pre, args, id, post, r)
    } else if is_cmd(d, a, "analog"@, "analog_write"@) {
        spec_analog_write(pre, args, id, post, r)
    } else if is_cmd(d, a, "analog"@, "analog_write_resolution"@) {
        spec_resolution(pre, args, id, post, r, true)
    } else if is_cmd(d, a, "pwm"@, "pwm_frequency"@) {
        spec_pwm_frequency(pre, args, id, post, r)
    } else if is_cmd(d, a, "pwm"@, "pwm_write"@) {
        spec_pwm_write(pre, args, id, post, r)
    } else if is_cmd(d, a, "tone"@, "tone"@) {
        spec_tone(pre, args, id, post, r)
    } else if is_cmd(d, a, "tone"@, "no_tone"@) {
        spec_no_tone(pre, args, id, post, r)
    } else if d == "motor"@ && motor_action(a) {
        spec_motor(pre, args, id, a, post, r)
    } else if is_cmd(d, a, "uart"@, "uart_open"@) {
        spec_uart_open(pre, args, id, post, r)
    } else if is_cmd(d, a, "uart"@, "uart_close"@) {
        spec_uart_close(pre, args, id, post, r)
    } else if is_cmd(d, a, "uart"@, "uart_send"@) {
        spec_uart_send(pre, args, id, post, r)
    } else if is_cmd(d, a, "uart"@, "uart_read"@) {
        spec_uart_read(pre, args, id, post, r)
    } else if is_cmd(d, a, "bt"@, "bt_connect_controller"@) {
        post == SimModel { controller: ControllerState { connected: true, ..pre.controller }, ..pre } && ok_step(r, id, "controller connected"@, Json::Null)
    } else if is_cmd(d, a, "bt"@, "bt_disconnect_controller"@) {
        post == SimModel { controller: ControllerState { connected: false, ..pre.controller }, ..pre } && ok_step(r, id, "controller disconnected"@, Json::Null)
    } else if is_cmd(d, a, "bt"@, "bt_poll_controller"@) {
        post == pre && ok_step(r, id, "controller snapshot"@, controller_json(pre.controller))
    } else if is_cmd(d, a, "bt"@, "bt_axis"@) {
        spec_bt_axis(pre, args, id, post, r)
    } else if is_cmd(d, a, "bt"@, "bt_button"@) {
        spec_bt_button(pre, args, id, post, r)
    } else {
        post == pre && ok_step(r, id, "command accepted (simulated)"@, Json::Obj(seq![
            ("domain"@, jstr(d)),
            ("action"@, jstr(a)),
            ("args"@, Json::Obj(args)),
        ]))
    }
}

pub open spec fn with_controller(m: SimModel, controller: ControllerState) -> SimModel {
    SimModel { controller, ..m }
}

/// The board after `pwm_write` completes with a clamped duty.
pub open spec fn after_pwm_write(m: SimModel, pin: u8, duty_percent: u64, enabled: bool) -> SimModel {
    SimModel {
        pwm_profiles: m.pwm_profiles.insert(pin, PwmProfile { duty_percent, enabled, ..profile_of(m, pin) }),
        ..m
    }
}

/// The board after a motor command completes.
pub open spec fn after_motor(m: SimModel, motor: Seq<char>, value: u64) -> SimModel {
    SimModel { motors: m.motors.insert(motor, JsonNumber::Float(value)), ..m }
}

pub open spec fn record(m: SimModel, c: CommandView) -> SimModel {
    SimModel { history: m.history.push(c), ..m }
}


impl SimBackend {
    pub closed spec fn model(&self) -> SimModel {
        SimModel {
            pins: self.pins@,
            analog_inputs: self.analog_inputs@,
            analog_outputs: self.analog_outputs@,
            analog_read_resolution: self.analog_read_resolution,
            analog_write_resolution: self.analog_write_resolution,
            analog_reference: self.analog_reference@,
            tones: self.tones@,
            pwm_profiles: self.pwm_profiles@,
            motors: self.motors@,
            uart_ports: self.uart_ports@.map_values(|u: UartState| uart_model(u)),
            controller: self.controller,
            safety_latched: self.safety_latched,
            history: self.history@.map_values(|c: CommandEnvelope| command_view(c)),
        }
    }

    /// A board with nothing configured: 10-bit reads, 8-bit writes, the
    /// default reference, no stop latched.
    pub fn new() -> (b: SimBackend)
        ensures
            b.model().pins.is_empty(),
            b.model().analog_inputs.is_empty(),
            b.model().analog_outputs.is_empty(),
            b.model().analog_read_resolution == 10,
            b.model().analog_write_resolution == 8,
            b.model().analog_reference == "default"@,
            b.model().tones.is_empty(),
            b.model().pwm_profiles.is_empty(),
            b.model().motors.is_empty(),
            b.model().uart_ports.is_empty(),
            b.model().controller == ControllerState::spec_new(),
            !b.model().safety_latched,
            b.model().history.len() == 0,
    {
        let b = SimBackend {
            pins: Table::new(),
            analog_inputs: HashMap::new(),
            analog_outputs: HashMap::new(),
            analog_read_resolution: 10,
            analog_write_resolution: 8,
            analog_reference: String::from_str("default"),
            tones: Table::new(),
            pwm_profiles: HashMap::new(),
            motors: Table::new(),
            uart_ports: Table::new(),
            controller: ControllerState::new(),
            safety_latched: false,
            history: Vec::new(),
        };
        assert(b.model().uart_ports =~= Map::empty());
        b
    }

    /// The same board with the given game-pad state.
    pub fn with_controller_state(self, controller: ControllerState) -> (b: SimBackend)
        ensures
            b.model() == with_controller(self.model(), controller),
    {
        let mut b = self;
        b.controller = controller;
        b
    }

    fn arm_pin_mode(&mut self, args: &[(String, JsonValue)], id: u128) -> (r: Result<SimStep, CmdError>)
        ensures
            spec_pin_mode(old(self).model(), fields_view(args@), id, final(self).model(), r),
    {
        let pin = match arg_string(args, "pin") {
            Ok(p) => p,
            Err(e) => return Err(e),
        };
        let mode = match parse_pin_mode(get_field(args, "mode")) {
            Ok(m) => m,
            Err(e) => return Err(e),
        };
        let old_level = match self.pins.get(pin.as_str()) {
            Some(st) => st.level,
            None => Level::Low,
        };
        let level = if mode == PinMode::Output || mode == PinMode::Pwm {
            Level::Low
        } else {
            old_level
        };
        self.pins.insert(pin.clone(), PinState { mode, level });
        let data = obj2("pin", owned_text(pin), "mode", text(mode_name(mode)));
        Ok(SimStep::Done(CommandResult::ok_with_data(id, "pin mode updated", data)))
    }

    fn arm_digital_write(&mut self, args: &[(String, JsonValue)], id: u128) -> (r: Result<SimStep, CmdError>)
        ensures
            spec_digital_write(old(self).model(), fields_view(args@), id, final(self).model(), r),
    {
        let pin = match arg_string(args, "pin") {
            Ok(p) => p,
            Err(e) => return Err(e),
        };
        let level = match parse_level(get_field(args, "level")) {
            Ok(l) => l,
            Err(e) => return Err(e),
        };
        let st = match self.pins.get(pin.as_str()) {
            Some(st) => *st,
            None => return Err(CmdError::PinNotConfigured(pin)),
        };
        if !(st.mode == PinMode::Output || st.mode == PinMode::Pwm) {
            return Err(CmdError::PinModeMismatch(pin));
        }
        self.pins.insert(pin, PinState { level, ..st });
        let data = obj1("level", text(level_name(level)));
        Ok(SimStep::Done(CommandResult::ok_with_data(id, "digital write ok", data)))
    }

    fn arm_digital_read(&self, args: &[(String, JsonValue)], id: u128) -> (r: Result<SimStep, CmdError>)
        ensures
            spec_digital_read(self.model(), fields_view(args@), id, self.model(), r),
    {
        let pin = match arg_string(args, "pin") {
            Ok(p) => p,
            Err(e) => return Err(e),
        };
        let st = match self.pins.get(pin.as_str()) {
            Some(st) => *st,
            None => return Err(CmdError::PinNotConfigured(pin)),
        };
        let data = obj3("pin", owned_text(pin), "level", text(level_name(st.level)), "is_high", boolean(st.level == Level::High));
        Ok(SimStep::Done(CommandResult::ok_with_data(id, "digital read ok", data)))
    }

    fn arm_digital_toggle(&mut self, args: &[(String, JsonValue)], id: u128) -> (r: Result<SimStep, CmdError>)
        ensures
            spec_digital_toggle(old(self).model(), fields_view(args@), id, final(self).model(), r),
    {
        let pin = match arg_string(args, "pin") {
            Ok(p) => p,
            Err(e) => return Err(e),
        };
        let st = match self.pins.get(pin.as_str()) {
            Some(st) => *st,
            None => return Err(CmdError::PinNotConfigured(pin)),
        };
        if !(st.mode == PinMode::Output || st.mode == PinMode::Pwm) {
            return Err(CmdError::PinModeMismatch(pin));
        }
        let level = if st.level == Level::High { Level::Low } else { Level::High };
        self.pins.insert(pin, PinState { level, ..st });
        let data = obj1("level", text(level_name(level)));
        Ok(SimStep::Done(CommandResult::ok_with_data(id, "digital toggle ok", data)))
    }

    fn arm_analog_read(&mut self, args: &[(String, JsonValue)], id: u128) -> (r: Result<SimStep, CmdError>)
        ensures
            spec_analog_read(old(self).model(), fields_view(args@), id, final(self).model(), r),
    {
        let pin = match arg_u8(args, "pin") {
            Ok(p) => p,
            Err(e) => return Err(e),
        };
        let max = max_sample(self.analog_read_resolution);
        let value = match self.analog_inputs.get(&pin) {
            Some(v) => *v,
            None => {
                self.analog_inputs.insert(pin, max / 2);
                max / 2
            },
        };
        let shown = if value < max { value } else { max };
        let data = obj4("pin", uint(pin as u64), "value", uint(shown as u64), "resolution", uint(self.analog_read_resolution as u64), "reference", owned_text(self.analog_reference.clone()));
        Ok(SimStep::Done(CommandResult::ok_with_data(id, "analog read ok", data)))
    }

    fn arm_resolution(&mut self, args: &[(String, JsonValue)], id: u128, write: bool) -> (r: Result<SimStep, CmdError>)
        ensures
            spec_resolution(old(self).model(), fields_view(args@), id, final(self).model(), r, write),
    {
        let bits = match arg_u8(args, "bits") {
            Ok(b) => b,
            Err(e) => return Err(e),
        };
        if bits == 0 || bits > 16 {
            return Err(
                CmdError::InvalidArgument {
                    key: String::from_str("bits"),
                    reason: String::from_str(
                        if write {
                            "analog write resolution must be 1..=16"
                        } else {
                            "analog read resolution must be 1..=16"
                        },
                    ),
                },
            );
        }
        if write {
            self.analog_write_resolution = bits;
        } else {
            self.analog_read_resolution = bits;
        }
        let data = obj1("bits", uint(bits as u64));
        let message = if write {
            "analog write resolution updated"
        } else {
            "analog read resolution updated"
        };
        Ok(SimStep::Done(CommandResult::ok_with_data(id, message, data)))
    }

    fn arm_analog_reference(&mut self, args: &[(String, JsonValue)], id: u128) -> (r: Result<SimStep, CmdError>)
        ensures
            spec_analog_reference(old(self).model(), fields_view(args@), id, final(self).model(), r),
    {
        let reference = match arg_string(args, "reference") {
            Ok(s) => s,
            Err(e) => return Err(e),
        };
        self.analog_reference = reference.clone();
        let data = obj1("reference", owned_text(reference));
        Ok(SimStep::Done(CommandResult::ok_with_data(id, "analog reference updated", data)))
    }

    fn arm_analog_write(&mut self, args: &[(String, JsonValue)], id: u128) -> (r: Result<SimStep, CmdError>)
        ensures
            spec_analog_write(old(self).model(), fields_view(args@), id, final(self).model(), r),
    {
        let pin = match arg_u8(args, "pin") {
            Ok(p) => p,
            Err(e) => return Err(e),
        };
        let value = match arg_u16(args, "value") {
            Ok(v) => v,
            Err(e) => return Err(e),
        };
        let max = max_sample(self.analog_write_resolution);
        let stored = if value < max { value } else { max };
        self.analog_outputs.insert(pin, stored);
        let data = obj3("pin", uint(pin as u64), "value", uint(stored as u64), "resolution", uint(self.analog_write_resolution as u64));
        Ok(SimStep::Done(CommandResult::ok_with_data(id, "analog write ok", data)))
    }

    fn profile(&self, pin: u8) -> (p: PwmProfile)
        ensures
            p == profile_of(self.model(), pin),
    {
        match self.pwm_profiles.get(&pin) {
            Some(p) => *p,
            None => PwmProfile { frequency_hz: 25_000, duty_percent: 0, enabled: false },
        }
    }

    fn arm_pwm_frequency(&mut self, args: &[(String, JsonValue)], id: u128) -> (r: Result<SimStep, CmdError>)
        ensures
            spec_pwm_frequency(old(self).model(), fields_view(args@), id, final(self).model(), r),
    {
        let pin = match arg_u8(args, "pin") {
            Ok(p) => p,
            Err(e) => return Err(e),
        };
        let keys = ["frequency_hz", "frequency"];
        assert(keys_view(keys@) == seq!["frequency_hz"@, "frequency"@]);
        let frequency_hz = match arg_u32_any(args, &keys) {
            Ok(f) => f,
            Err(e) => return Err(e),
        };
        if frequency_hz == 0 {
            return Err(
                CmdError::InvalidArgument {
                    key: String::from_str("frequency_hz"),
                    reason: String::from_str("frequency must be greater than zero"),
                },
            );
        }
        let prof = self.profile(pin);
        self.pwm_profiles.insert(pin, PwmProfile { frequency_hz, ..prof });
        let data = obj3("pin", uint(pin as u64), "frequency_hz", uint(frequency_hz as u64), "duty_percent", JsonValue::Number(JsonNumber::Float(prof.duty_percent)));
        Ok(SimStep::Done(CommandResult::ok_with_data(id, "pwm frequency updated", data)))
    }

    fn arm_pwm_write(&self, args: &[(String, JsonValue)], id: u128) -> (r: Result<SimStep, CmdError>)
        ensures
            spec_pwm_write(self.model(), fields_view(args@), id, self.model(), r),
    {
        let pin = match arg_u8(args, "pin") {
            Ok(p) => p,
            Err(e) => return Err(e),
        };
        let keys = ["duty_percent", "duty"];
        assert(keys_view(keys@) == seq!["duty_percent"@, "duty"@]);
        match find_number_any(args, &keys) {
            Some(n) => Ok(SimStep::PwmDuty { id, pin, duty: n }),
            None => Err(
                CmdError::InvalidArgument {
                    key: crate::json::join_keys(&keys),
                    reason: String::from_str("missing number"),
                },
            ),
        }
    }

    /// Completes `pwm_write` with the clamped duty (as a double's bits) and
    /// whether it is above zero.
    pub fn finish_pwm_write(&mut self, id: u128, pin: u8, duty_percent: u64, enabled: bool) -> (r: CommandResult)
        ensures
            final(self).model() == after_pwm_write(old(self).model(), pin, duty_percent, enabled),
            r.id == id,
            r.success,
            r.message@ == "pwm write ok"@,
            r.data@ == Json::Obj(seq![
                ("pin"@, juint(pin as int)),
                ("frequency_hz"@, juint(profile_of(old(self).model(), pin).frequency_hz as int)),
                ("duty_percent"@, Json::Num(JsonNumber::Float(duty_percent))),
                ("enabled"@, Json::Bool(enabled)),
            ]),
    {
        let prof = self.profile(pin);
        self.pwm_profiles.insert(pin, PwmProfile { duty_percent, enabled, ..prof });
        let data = obj4("pin", uint(pin as u64), "frequency_hz", uint(prof.frequency_hz as u64), "duty_percent", JsonValue::Number(JsonNumber::Float(duty_percent)), "enabled", boolean(enabled));
        CommandResult::ok_with_data(id, "pwm write ok", data)
    }

    fn arm_tone(&mut self, args: &[(String, JsonValue)], id: u128) -> (r: Result<SimStep, CmdError>)
        ensures
            spec_tone(old(self).model(), fields_view(args@), id, final(self).model(), r),
    {
        let pkeys = ["pin", "id", "name"];
        assert(keys_view(pkeys@) == seq!["pin"@, "id"@, "name"@]);
        let pin = match arg_string_any(args, &pkeys) {
            Ok(p) => p,
            Err(e) => return Err(e),
        };
        let fkeys = ["frequency_hz", "frequency"];
        assert(keys_view(fkeys@) == seq!["frequency_hz"@, "frequency"@]);
        let frequency_hz = match arg_u32_any(args, &fkeys) {
            Ok(f) => f,
            Err(e) => return Err(e),
        };
        let duration_ms = match get_field(args, "duration_ms") {
            Some(JsonValue::Number(JsonNumber::UInt(u))) => Some(*u),
            _ => None,
        };
        self.tones.insert(pin.clone(), ToneState { frequency_hz, duration_ms });
        let data = obj3(
            "pin",
            owned_text(pin),
            "frequency_hz",
            uint(frequency_hz as u64),
            "duration_ms",
            opt_uint(duration_ms),
        );
        Ok(SimStep::Done(CommandResult::ok_with_data(id, "tone started", data)))
    }

    fn arm_no_tone(&mut self, args: &[(String, JsonValue)], id: u128) -> (r: Result<SimStep, CmdError>)
        ensures
            spec_no_tone(old(self).model(), fields_view(args@), id, final(self).model(), r),
    {
        let pkeys = ["pin", "id", "name"];
        assert(keys_view(pkeys@) == seq!["pin"@, "id"@, "name"@]);
        let pin = match arg_string_any(args, &pkeys) {
            Ok(p) => p,
            Err(e) => return Err(e),
        };
        let removed = self.tones.remove(pin.as_str());
        let (f, d) = match removed {
            Some(t) => (opt_uint(Some(t.frequency_hz as u64)), opt_uint(t.duration_ms)),
            None => (JsonValue::Null, JsonValue::Null),
        };
        let data = obj3("pin", owned_text(pin), "frequency_hz", f, "duration_ms", d);
        Ok(SimStep::Done(CommandResult::ok_with_data(id, "tone stopped", data)))
    }

    fn arm_motor(&self, args: &[(String, JsonValue)], id: u128, action: &str) -> (r: Result<SimStep, CmdError>)
        ensures
            spec_motor(self.model(), fields_view(args@), id, action@, self.model(), r),
    {
        let mkeys = ["motor", "name", "id"];
        assert(keys_view(mkeys@) == seq!["motor"@, "name"@, "id"@]);
        let motor = match arg_string_any(args, &mkeys) {
            Ok(m) => m,
            Err(_) => String::from_str("default"),
        };
        let vkeys = ["speed", "duty", "voltage", "target"];
        assert(keys_view(vkeys@) == seq!["speed"@, "duty"@, "voltage"@, "target"@]);
        let value = find_number_any(args, &vkeys);
        Ok(SimStep::MotorValue { id, motor, action: String::from_str(action), value })
    }

    /// Completes a motor command with its value as a double's bits.
    pub fn finish_motor(&mut self, id: u128, motor: String, action: String, value: u64) -> (r: CommandResult)
        ensures
            final(self).model() == after_motor(old(self).model(), motor@, value),
            r.id == id,
            r.success,
            r.message@ == "motor command accepted"@,
            r.data@ == Json::Obj(seq![
                ("motor"@, jstr(motor@)),
                ("action"@, jstr(action@)),
                ("value"@, Json::Num(JsonNumber::Float(value))),
            ]),
    {
        self.motors.insert(motor.clone(), JsonNumber::Float(value));
        let data = obj3("motor", owned_text(motor), "action", owned_text(action), "value", JsonValue::Number(JsonNumber::Float(value)));
        CommandResult::ok_with_data(id, "motor command accepted", data)
    }
}


fn is_cmd_exec(d: &str, a: &str, dd: &str, aa: &str) -> (r: bool)
    ensures
        r == is_cmd(d@, a@, dd@, aa@),
{
    crate::json::str_eq(d, dd) && crate::json::str_eq(a, aa)
}

fn is_motor_action(a: &str) -> (r: bool)
    ensures
        r == motor_action(a@),
{
    let names = [
        "motor_set_speed",
        "motor_set_duty",
        "motor_set_voltage",
        "motor_enable",
        "motor_disable",
        "motor_brake",
        "motor_stop",
        "motor_coast",
        "motor_ramp",
    ];
    crate::json::str_eq(a, names[0]) || crate::json::str_eq(a, names[1]) || crate::json::str_eq(a, names[2])
        || crate::json::str_eq(a, names[3]) || crate::json::str_eq(a, names[4]) || crate::json::str_eq(
        a,
        names[5],
    ) || crate::json::str_eq(a, names[6]) || crate::json::str_eq(a, names[7]) || crate::json::str_eq(a, names[8])
}

/// `uart port `<port>``.
fn uart_missing(port: &str) -> (e: CmdError)
    ensures
        e matches CmdError::ResourceNotFound(msg) && msg@ == "uart port `"@ + port@ + "`"@,
{
    let cs = chars_of(port);
    CmdError::ResourceNotFound(backquoted("uart port `", cs.as_slice()))
}

proof fn lemma_uart_insert(t: Map<Seq<char>, UartState>, k: Seq<char>, u: UartState)
    ensures
        t.insert(k, u).map_values(|x: UartState| uart_model(x)) == t.map_values(
            |x: UartState| uart_model(x),
        ).insert(k, uart_model(u)),
{
    assert(t.insert(k, u).map_values(|x: UartState| uart_model(x)) =~= t.map_values(
        |x: UartState| uart_model(x),
    ).insert(k, uart_model(u)));
}

proof fn lemma_uart_remove(t: Map<Seq<char>, UartState>, k: Seq<char>)
    ensures
        t.remove(k).map_values(|x: UartState| uart_model(x)) == t.map_values(
            |x: UartState| uart_model(x),
        ).remove(k),
{
    assert(t.remove(k).map_values(|x: UartState| uart_model(x)) =~= t.map_values(
        |x: UartState| uart_model(x),
    ).remove(k));
}

impl SimBackend {
    fn arm_uart_open(&mut self, args: &[(String, JsonValue)], id: u128) -> (r: Result<SimStep, CmdError>)
        ensures
            spec_uart_open(old(self).model(), fields_view(args@), id, final(self).model(), r),
    {
        let pkeys = ["port", "id", "name"];
        assert(keys_view(pkeys@) == seq!["port"@, "id"@, "name"@]);
        let port = match arg_string_any(args, &pkeys) {
            Ok(p) => p,
            Err(e) => return Err(e),
        };
        let bkeys = ["baud", "baud_rate"];
        assert(keys_view(bkeys@) == seq!["baud"@, "baud_rate"@]);
        let baud: u32 = match find_u64_any(args, &bkeys) {
            Some(b) => b as u32,
            None => 115200,
        };
        let u = UartState { baud, tx_log: Vec::new(), rx_queue: Vec::new() };
        proof {
            lemma_uart_insert(self.uart_ports@, port@, u);
            assert(uart_model(u).tx_log =~= Seq::<Seq<char>>::empty());
            assert(uart_model(u).rx_queue =~= Seq::<Seq<char>>::empty());
        }
        self.uart_ports.insert(port.clone(), u);
        let data = obj2("port", owned_text(port), "baud", uint(baud as u64));
        Ok(SimStep::Done(CommandResult::ok_with_data(id, "uart opened", data)))
    }

    fn arm_uart_close(&mut self, args: &[(String, JsonValue)], id: u128) -> (r: Result<SimStep, CmdError>)
        ensures
            spec_uart_close(old(self).model(), fields_view(args@), id, final(self).model(), r),
    {
        let pkeys = ["port", "id", "name"];
        assert(keys_view(pkeys@) == seq!["port"@, "id"@, "name"@]);
        let port = match arg_string_any(args, &pkeys) {
            Ok(p) => p,
            Err(e) => return Err(e),
        };
        proof {
            lemma_uart_remove(self.uart_ports@, port@);
        }
        let _ = self.uart_ports.remove(port.as_str());
        let data = obj1("port", owned_text(port));
        Ok(SimStep::Done(CommandResult::ok_with_data(id, "uart closed", data)))
    }

    fn arm_uart_send(&mut self, args: &[(String, JsonValue)], id: u128) -> (r: Result<SimStep, CmdError>)
        ensures
            spec_uart_send(old(self).model(), fields_view(args@), id, final(self).model(), r),
    {
        let pkeys = ["port", "id", "name"];
        assert(keys_view(pkeys@) == seq!["port"@, "id"@, "name"@]);
        let port = match arg_string_any(args, &pkeys) {
            Ok(p) => p,
            Err(e) => return Err(e),
        };
        let dkeys = ["data", "text", "payload"];
        assert(keys_view(dkeys@) == seq!["data"@, "text"@, "payload"@]);
        let data = match arg_string_any(args, &dkeys) {
            Ok(d) => d,
            Err(_) => String::new(),
        };
        let ghost m0 = self.uart_ports@;
        let mut u = match self.uart_ports.remove(port.as_str()) {
            Some(u) => u,
            None => {
                assert(self.uart_ports@ =~= m0);
                return Err(uart_missing(port.as_str()));
            },
        };
        let bytes = utf8_byte_len(data.as_str());
        let ghost u0 = uart_model(u);
        u.tx_log.push(data.clone());
        proof {
            assert(strings_view(u.tx_log@) =~= u0.tx_log.push(data@));
            lemma_uart_insert(m0.remove(port@), port@, u);
            lemma_uart_remove(m0, port@);
            assert(m0.remove(port@).insert(port@, u) =~= m0.insert(port@, u));
            lemma_uart_insert(m0, port@, u);
        }
        self.uart_ports.insert(port.clone(), u);
        let out = obj2("port", owned_text(port), "bytes", uint(bytes));
        Ok(SimStep::Done(CommandResult::ok_with_data(id, "uart send ok", out)))
    }

    fn arm_uart_read(&mut self, args: &[(String, JsonValue)], id: u128) -> (r: Result<SimStep, CmdError>)
        ensures
            spec_uart_read(old(self).model(), fields_view(args@), id, final(self).model(), r),
    {
        let pkeys = ["port", "id", "name"];
        assert(keys_view(pkeys@) == seq!["port"@, "id"@, "name"@]);
        let port = match arg_string_any(args, &pkeys) {
            Ok(p) => p,
            Err(e) => return Err(e),
        };
        let ghost m0 = self.uart_ports@;
        let mut u = match self.uart_ports.remove(port.as_str()) {
            Some(u) => u,
            None => {
                assert(self.uart_ports@ =~= m0);
                return Err(uart_missing(port.as_str()));
            },
        };
        let ghost u0 = uart_model(u);
        let data = if u.rx_queue.len() > 0 {
            u.rx_queue.remove(0)
        } else {
            String::new()
        };
        proof {
            if u0.rx_queue.len() > 0 {
                assert(strings_view(u.rx_queue@) =~= u0.rx_queue.drop_first());
            } else {
                assert(strings_view(u.rx_queue@) =~= u0.rx_queue);
            }
            lemma_uart_insert(m0.remove(port@), port@, u);
            lemma_uart_remove(m0, port@);
            assert(m0.remove(port@).insert(port@, u) =~= m0.insert(port@, u));
            lemma_uart_insert(m0, port@, u);
        }
        let baud = u.baud;
        self.uart_ports.insert(port.clone(), u);
        let out = obj3("port", owned_text(port), "baud", uint(baud as u64), "data", owned_text(data));
        Ok(SimStep::Done(CommandResult::ok_with_data(id, "uart read ok", out)))
    }

    fn arm_bt_axis(&self, args: &[(String, JsonValue)], id: u128) -> (r: Result<SimStep, CmdError>)
        ensures
            spec_bt_axis(self.model(), fields_view(args@), id, self.model(), r),
    {
        let axis = match arg_string(args, "axis") {
            Ok(a) => a,
            Err(e) => return Err(e),
        };
        let c = &self.controller;
        let a = axis.as_str();
        let value = if crate::json::str_eq(a, "lx") {
            c.lx
        } else if crate::json::str_eq(a, "ly") {
            c.ly
        } else if crate::json::str_eq(a, "rx") {
            c.rx
        } else if crate::json::str_eq(a, "ry") {
            c.ry
        } else if crate::json::str_eq(a, "lt") {
            c.lt
        } else if crate::json::str_eq(a, "rt") {
            c.rt
        } else {
            let cs = chars_of(a);
            return Err(
                CmdError::InvalidArgument {
                    key: String::from_str("axis"),
                    reason: backquoted("unknown axis `", cs.as_slice()),
                },
            );
        };
        let data = obj2("axis", owned_text(axis), "value", JsonValue::Number(JsonNumber::Single(value)));
        Ok(SimStep::Done(CommandResult::ok_with_data(id, "axis value", data)))
    }

    fn arm_bt_button(&self, args: &[(String, JsonValue)], id: u128) -> (r: Result<SimStep, CmdError>)
        ensures
            spec_bt_button(self.model(), fields_view(args@), id, self.model(), r),
    {
        let button = match arg_string(args, "button") {
            Ok(b) => b,
            Err(e) => return Err(e),
        };
        let c = &self.controller;
        let b = button.as_str();
        let pressed = if crate::json::str_eq(b, "a") {
            c.a
        } else if crate::json::str_eq(b, "b") {
            c.b
        } else if crate::json::str_eq(b, "x") {
            c.x
        } else if crate::json::str_eq(b, "y") {
            c.y
        } else if crate::json::str_eq(b, "lb") {
            c.lb
        } else if crate::json::str_eq(b, "rb") {
            c.rb
        } else if crate::json::str_eq(b, "start") {
            c.start
        } else if crate::json::str_eq(b, "select") {
            c.select
        } else {
            let cs = chars_of(b);
            return Err(
                CmdError::InvalidArgument {
                    key: String::from_str("button"),
                    reason: backquoted("unknown button `", cs.as_slice()),
                },
            );
        };
        let data = obj2("button", owned_text(button), "pressed", boolean(pressed));
        Ok(SimStep::Done(CommandResult::ok_with_data(id, "button value", data)))
    }

    #[verifier::rlimit(30)]
    fn controller_snapshot(&self) -> (j: JsonValue)
        ensures
            j@ == controller_json(self.controller),
    {
        let c = &self.controller;
        let mut d: Vec<(String, JsonValue)> = Vec::new();
        member(&mut d, "connected", boolean(c.connected));
        member(&mut d, "lx", JsonValue::Number(JsonNumber::Single(c.lx)));
        member(&mut d, "ly", JsonValue::Number(JsonNumber::Single(c.ly)));
        member(&mut d, "rx", JsonValue::Number(JsonNumber::Single(c.rx)));
        member(&mut d, "ry", JsonValue::Number(JsonNumber::Single(c.ry)));
        member(&mut d, "lt", JsonValue::Number(JsonNumber::Single(c.lt)));
        member(&mut d, "rt", JsonValue::Number(JsonNumber::Single(c.rt)));
        member(&mut d, "a", boolean(c.a));
        member(&mut d, "b", boolean(c.b));
        member(&mut d, "x", boolean(c.x));
        member(&mut d, "y", boolean(c.y));
        member(&mut d, "lb", boolean(c.lb));
        member(&mut d, "rb", boolean(c.rb));
        member(&mut d, "start", boolean(c.start));
        member(&mut d, "select", boolean(c.select));
        proof {
            if let Json::Obj(f) = controller_json(self.controller) {
                assert(fields_view(d@) =~= f);
            }
        }
        JsonValue::Object(d)
    }

    fn arm_status(&self, id: u128) -> (r: Result<SimStep, CmdError>)
        ensures
            ok_step(r, id, "runtime status"@, Json::Obj(seq![
                ("safety_latched"@, Json::Bool(self.model().safety_latched)),
                ("pins"@, juint(self.model().pins.len() as int)),
                ("motors"@, juint(self.model().motors.len() as int)),
                ("uart_ports"@, juint(self.model().uart_ports.len() as int)),
                ("controller_connected"@, Json::Bool(self.model().controller.connected)),
                ("history_len"@, juint(self.model().history.len() as int)),
            ])),
    {
        let pins = self.pins.len();
        let motors = self.motors.len();
        let uarts = self.uart_ports.len();
        proof {
            assert(self.uart_ports@.map_values(|u: UartState| uart_model(u)).dom() =~= self.uart_ports@.dom());
        }
        let mut d: Vec<(String, JsonValue)> = Vec::new();
        member(&mut d, "safety_latched", boolean(self.safety_latched));
        member(&mut d, "pins", uint(pins as u64));
        member(&mut d, "motors", uint(motors as u64));
        member(&mut d, "uart_ports", uint(uarts as u64));
        member(&mut d, "controller_connected", boolean(self.controller.connected));
        member(&mut d, "history_len", uint(self.history.len() as u64));
        let ghost expect = seq![
            ("safety_latched"@, Json::Bool(self.model().safety_latched)),
            ("pins"@, juint(self.model().pins.len() as int)),
            ("motors"@, juint(self.model().motors.len() as int)),
            ("uart_ports"@, juint(self.model().uart_ports.len() as int)),
            ("controller_connected"@, Json::Bool(self.model().controller.connected)),
            ("history_len"@, juint(self.model().history.len() as int)),
        ];
        assert(fields_view(d@) =~= expect);
        Ok(SimStep::Done(CommandResult::ok_with_data(id, "runtime status", JsonValue::Object(d))))
    }

    /// Runs one command. A command whose arguments are not an object (or
    /// null) is refused first; while the stop is latched, actuator commands
    /// are refused; every other command is recorded in the history and then
    /// carried out as `spec_step` says.
    pub fn execute(&mut self, command: CommandEnvelope) -> (r: Result<SimStep, CmdError>)
        ensures
            args_of(command.args@) is None ==> final(self).model() == old(self).model() && arg_error(
                r,
                "args"@,
                "expected object"@,
            ),
            args_of(command.args@) is Some && old(self).model().safety_latched && blocked_in_stop(
                command.domain@,
                command.action@,
            ) ==> final(self).model() == old(self).model() && r matches Err(CmdError::SafetyStopLatched),
            admitted(old(self).model(), command) ==> spec_step(
                record(old(self).model(), command_view(command)),
                command.domain@,
                command.action@,
                args_of(command.args@).unwrap(),
                command.id,
                final(self).model(),
                r,
            ),
    {
        let args: &[(String, JsonValue)] = match command_args(&command.args) {
            Ok(a) => a,
            Err(e) => return Err(e),
        };
        let d = command.domain.as_str();
        let a = command.action.as_str();
        if self.safety_latched && is_blocked_in_stop(d, a) {
            return Err(CmdError::SafetyStopLatched);
        }
        let entry = command.duplicate();
        let ghost pre = self.model();
        self.history.push(entry);
        assert(self.model() == record(pre, command_view(command))) by {
            assert(self.history@.map_values(|c: CommandEnvelope| command_view(c)) =~= pre.history.push(
                command_view(command),
            ));
        }
        let id = command.id;
        if is_cmd_exec(d, a, "runtime", "panic_stop") || is_cmd_exec(d, a, "runtime", "emergency_stop") {
            self.safety_latched = true;
            let data = obj1("safety", text("emergency_stopped"));
            Ok(SimStep::Done(CommandResult::ok_with_data(id, "safety stop latched", data)))
        } else if is_cmd_exec(d, a, "runtime", "clear_stop") {
            self.safety_latched = false;
            let data = obj1("safety", text("normal"));
            Ok(SimStep::Done(CommandResult::ok_with_data(id, "safety stop cleared", data)))
        } else if is_cmd_exec(d, a, "runtime", "status") {
            self.arm_status(id)
        } else if is_cmd_exec(d, a, "runtime", "health_check") {
            let data = obj1("ok", boolean(true));
            Ok(SimStep::Done(CommandResult::ok_with_data(id, "health check ok", data)))
        } else if is_cmd_exec(d, a, "gpio", "pin_mode") {
            self.arm_pin_mode(args, id)
        } else if is_cmd_exec(d, a, "gpio", "digital_write") {
            self.arm_digital_write(args, id)
        } else if is_cmd_exec(d, a, "gpio", "digital_read") {
            self.arm_digital_read(args, id)
        } else if is_cmd_exec(d, a, "gpio", "digital_toggle") {
            self.arm_digital_toggle(args, id)
        } else if is_cmd_exec(d, a, "analog", "analog_read") {
            self.arm_analog_read(args, id)
        } else if is_cmd_exec(d, a, "analog", "analog_read_resolution") {
            self.arm_resolution(args, id, false)
        } else if is_cmd_exec(d, a, "analog", "analog_reference") {
            self.arm_analog_reference(args, id)
        } else if is_cmd_exec(d, a, "analog", "analog_write") {
            self.arm_analog_write(args, id)
        } else if is_cmd_exec(d, a, "analog", "analog_write_resolution") {
            self.arm_resolution(args, id, true)
        } else if is_cmd_exec(d, a, "pwm", "pwm_frequency") {
            self.arm_pwm_frequency(args, id)
        } else if is_cmd_exec(d, a, "pwm", "pwm_write") {
            self.arm_pwm_write(args, id)
        } else if is_cmd_exec(d, a, "tone", "tone") {
            self.arm_tone(args, id)
        } else if is_cmd_exec(d, a, "tone", "no_tone") {
            self.arm_no_tone(args, id)
        } else if crate::json::str_eq(d, "motor") && is_motor_action(a) {
            self.arm_motor(args, id, a)
        } else if is_cmd_exec(d, a, "uart", "uart_open") {
            self.arm_uart_open(args, id)
        } else if is_cmd_exec(d, a, "uart", "uart_close") {
            self.arm_uart_close(args, id)
        } else if is_cmd_exec(d, a, "uart", "uart_send") {
            self.arm_uart_send(args, id)
        } else if is_cmd_exec(d, a, "uart", "uart_read") {
            self.arm_uart_read(args, id)
        } else if is_cmd_exec(d, a, "bt", "bt_connect_controller") {
            self.controller.connected = true;
            Ok(SimStep::Done(CommandResult::ok(id, "controller connected")))
        } else if is_cmd_exec(d, a, "bt", "bt_disconnect_controller") {
            self.controller.connected = false;
            Ok(SimStep::Done(CommandResult::ok(id, "controller disconnected")))
        } else if is_cmd_exec(d, a, "bt", "bt_poll_controller") {
            let data = self.controller_snapshot();
            Ok(SimStep::Done(CommandResult::ok_with_data(id, "controller snapshot", data)))
        } else if is_cmd_exec(d, a, "bt", "bt_axis") {
            self.arm_bt_axis(args, id)
        } else if is_cmd_exec(d, a, "bt", "bt_button") {
            self.arm_bt_button(args, id)
        } else {
            let data = obj3(
                "domain",
                text(d),
                "action",
                text(a),
                "args",
                JsonValue::Object(crate::json::clone_fields(args)),
            );
            Ok(SimStep::Done(CommandResult::ok_with_data(id, "command accepted (simulated)", data)))
        }
    }
}

/// Whether a command gets past the argument check and the safety latch.
pub open spec fn admitted(m: SimModel, c: CommandEnvelope) -> bool {
    args_of(c.args@) is Some && !(m.safety_latched && blocked_in_stop(c.domain@, c.action@))
}

} // verus!
