//! The decisions of the hardware backend of a Raspberry Pi: which GPIO line
//! a pin name means, which pins have hardware PWM, the PWM period and duty
//! of a command, and what each command asks of the hardware.
//!
//! The GPIO character device and the PWM files in sysfs are driven by the
//! caller. `RealCore::plan` checks a command and says what to do; the
//! `finish_*` methods record what was done and give the answer.
use crate::backend::{member, mode_name, obj1, obj2, obj3, owned_text, parse_level, parse_pin_mode};
use crate::command::{CommandEnvelope, CommandResult};
use crate::error::CmdError;
use crate::json::{
    arg_string, arg_u16, arg_u32_any, arg_u8, command_args, fields_view, find_number_any, Json,
    JsonNumber, JsonValue,
};
use crate::text::{
    chars_of, chars_start_with, concat_str, decimal, decimal_string, parse_unsigned,
    parse_unsigned_chars, starts_with, string_of, sub_chars,
};
use crate::types::{Level, PinMode};
use std::collections::HashMap;
use vstd::prelude::*;

verus! {

// ----- pins, channels and periods -----
/// `s` without every leading copy of `p` (`str::trim_start_matches`).
pub open spec fn strip_leading(s: Seq<char>, p: Seq<char>) -> Seq<char>
    decreases s.len(),
{
    if p.len() > 0 && starts_with(s, p) {
        strip_leading(s.subrange(p.len() as int, s.len() as int), p)
    } else {
        s
    }
}

fn strip_leading_chars(s: Vec<char>, p: &Vec<char>) -> (r: Vec<char>)
    ensures
        r@ == strip_leading(s@, p@),
    decreases s.len(),
{
    if p.len() > 0 && chars_start_with(&s, p) {
        let rest = sub_chars(&s, p.len(), s.len());
        strip_leading_chars(rest, p)
    } else {
        s
    }
}

/// The GPIO line a pin name means: `17`, `GPIO17` or `BCM17`.
pub open spec fn line_of(pin: Seq<char>) -> Option<nat> {
    parse_unsigned(strip_leading(strip_leading(pin, "GPIO"@), "BCM"@), 4294967295)
}

pub fn bcm_to_line(bcm_pin: &str) -> (r: Result<u32, CmdError>)
    ensures
        match line_of(bcm_pin@) {
            Some(n) => r == Ok::<u32, CmdError>(n as u32),
            None => r matches Err(CmdError::InvalidArgument { key, reason }) && key@ == "pin"@ && reason@
                == "Invalid pin format: "@ + bcm_pin@ + ". Use GPIO numbers like '17' or 'GPIO17'"@,
        },
{
    let a = strip_leading_chars(chars_of(bcm_pin), &chars_of("GPIO"));
    let b = strip_leading_chars(a, &chars_of("BCM"));
    match parse_unsigned_chars(&b, 4294967295) {
        Some(v) => Ok(v as u32),
        None => {
            let head = concat_str("Invalid pin format: ", bcm_pin);
            Err(
                CmdError::InvalidArgument {
                    key: String::from_str("pin"),
                    reason: concat_str(head.as_str(), ". Use GPIO numbers like '17' or 'GPIO17'"),
                },
            )
        },
    }
}

/// The PWM chip and channel behind a pin with hardware PWM.
pub open spec fn pwm_mapping(bcm: u32) -> Option<(u32, u32)> {
    if bcm == 12 || bcm == 18 {
        Some((0u32, 0u32))
    } else if bcm == 13 || bcm == 19 {
        Some((0u32, 1u32))
    } else {
        None
    }
}

pub fn get_hardware_pwm_mapping(bcm_pin: u32) -> (r: Option<(u32, u32)>)
    ensures
        r == pwm_mapping(bcm_pin),
{
    match bcm_pin {
        12 => Some((0, 0)),
        13 => Some((0, 1)),
        18 => Some((0, 0)),
        19 => Some((0, 1)),
        _ => None,
    }
}

/// The period of a PWM frequency in nanoseconds.
pub fn pwm_period_ns(frequency_hz: u32) -> (r: Result<u64, CmdError>)
    ensures
        frequency_hz == 0 ==> (r matches Err(CmdError::InvalidArgument { key, reason }) && key@ == "frequency_hz"@
            && reason@ == "frequency must be greater than zero"@),
        frequency_hz > 1_000_000_000 ==> (r matches Err(CmdError::InvalidArgument { key, reason }) && key@
            == "frequency_hz"@ && reason@ == "frequency is too high for hardware PWM"@),
        0 < frequency_hz <= 1_000_000_000 ==> r == Ok::<u64, CmdError>((1_000_000_000int / (frequency_hz as int)) as u64),
{
    if frequency_hz == 0 {
        return Err(
            CmdError::InvalidArgument {
                key: String::from_str("frequency_hz"),
                reason: String::from_str("frequency must be greater than zero"),
            },
        );
    }
    let period_ns = 1_000_000_000u64 / frequency_hz as u64;
    assert((period_ns == 0) == (frequency_hz > 1_000_000_000)) by (nonlinear_arith)
        requires
            frequency_hz > 0,
            period_ns == 1_000_000_000u64 / (frequency_hz as u64),
    ;
    if period_ns == 0 {
        return Err(
            CmdError::InvalidArgument {
                key: String::from_str("frequency_hz"),
                reason: String::from_str("frequency is too high for hardware PWM"),
            },
        );
    }
    Ok(period_ns)
}

/// The PWM period used for analog writes: 20 ms.
pub open spec fn analog_period_ns() -> u64 {
    20_000_000
}

/// A hardware PWM channel as driven so far.
#[derive(Debug, Clone, Copy, PartialEq, Eq, Structural)]
pub struct PwmChannel {
    pub duty_ns: u64,
    pub enabled: bool,
}

/// A PWM pin's settings; the duty (a percentage) is a double kept as its
/// bit pattern.
#[derive(Debug, Clone, Copy, PartialEq, Eq, Structural)]
pub struct RealPwmProfile {
    pub frequency_hz: u32,
    pub duty_percent: u64,
    pub enabled: bool,
}

/// What a command asks of the hardware.
#[derive(Debug)]
pub enum RealStep {
    /// Nothing: the answer.
    Done(CommandResult),
    /// Release the line if held, request it as input or output, then
    /// `finish_pin_mode`.
    ConfigureLine { id: u128, pin: String, line: u32, mode: PinMode, output: bool },
    /// Set the line to 1 (high) or 0, then `finish_digital_write`.
    WriteLine { id: u128, pin: String, line: u32, level: Level },
    /// Read the line, then `finish_digital_read`.
    ReadLine { id: u128, pin: String, line: u32 },
    /// An analog write through hardware PWM: export the channel and set the
    /// period when `setup`, write `duty_ns`, switch the channel on or off
    /// when `enable` says so, then `finish_analog_write`.
    AnalogPwm {
        id: u128,
        pin: u8,
        chip: u32,
        channel: u32,
        value: u16,
        duty_ns: u64,
        period_ns: u64,
        setup: bool,
        enable: Option<bool>,
    },
    /// A new frequency: the duty in nanoseconds is the stored duty (a
    /// percentage) of `period_ns`, rounded and capped at the period; set up
    /// the channel, write the duty, switch it on when the duty is positive,
    /// then `finish_pwm`.
    PwmFrequency { id: u128, pin: u8, chip: u32, channel: u32, frequency_hz: u32, period_ns: u64, duty_percent: u64 },
    /// A new duty: clamp `duty` to 0..=100 and hand it to `set_pwm_duty`.
    PwmWrite { id: u128, pin: u8, chip: u32, channel: u32, duty: JsonNumber },
}

/// The backend's bookkeeping: which lines are requested in which mode, the
/// PWM channels and profiles, and the analog settings.
pub struct RealCore {
    lines: HashMap<u32, PinMode>,
    pwm_channels: HashMap<u32, PwmChannel>,
    pwm_profiles: HashMap<u32, RealPwmProfile>,
    analog_read_resolution: u8,
    analog_write_resolution: u8,
    analog_reference: String,
}

fn not_pwm_pin_error(pin: u8) -> (e: CmdError)
    ensures
        e matches CmdError::InvalidArgument { key, reason } && key@ == "pin"@ && reason@ == "Pin "@ + decimal(
            pin as nat,
        ) + " does not support hardware PWM. Use pins 12, 13, 18, or 19."@,
{
    let head = concat_str("Pin ", decimal_string(pin as u64).as_str());
    CmdError::InvalidArgument {
        key: String::from_str("pin"),
        reason: concat_str(head.as_str(), " does not support hardware PWM. Use pins 12, 13, 18, or 19."),
    }
}

fn not_configured_error(line: u32) -> (e: CmdError)
    ensures
        e matches CmdError::PinNotConfigured(m) && m@ == "GPIO"@ + decimal(line as nat) + " not configured. Call pinMode first."@,
{
    let head = concat_str("GPIO", decimal_string(line as u64).as_str());
    CmdError::PinNotConfigured(concat_str(head.as_str(), " not configured. Call pinMode first."))
}

/// How `{:?}` shows a pin mode.
pub open spec fn mode_debug(m: PinMode) -> Seq<char> {
    match m {
        PinMode::Input => "Input"@,
        PinMode::Output => "Output"@,
        PinMode::Pwm => "Pwm"@,
        PinMode::Analog => "Analog"@,
        PinMode::Interrupt => "Interrupt"@,
    }
}

fn mode_debug_text(m: PinMode) -> (s: &'static str)
    ensures
        s@ == mode_debug(m),
{
    match m {
        PinMode::Input => "Input",
        PinMode::Output => "Output",
        PinMode::Pwm => "Pwm",
        PinMode::Analog => "Analog",
        PinMode::Interrupt => "Interrupt",
    }
}

// ----- what `plan` does with each command -----
/// Nothing the backend keeps changes.
pub open spec fn real_unchanged(pre: RealCore, post: RealCore) -> bool {
    &&& post.lines_spec() == pre.lines_spec()
    &&& post.channels_spec() == pre.channels_spec()
    &&& post.profiles_spec() == pre.profiles_spec()
    &&& post.write_resolution() == pre.write_resolution()
    &&& post.read_resolution() == pre.read_resolution()
    &&& post.reference() == pre.reference()
}

/// A command refused for one of its arguments.
pub open spec fn refused(r: Result<RealStep, CmdError>, key: Seq<char>, reason: Seq<char>) -> bool {
    r matches Err(e) && crate::json::invalid_argument(key, reason, e)
}

/// A command answered at once.
pub open spec fn answered(r: Result<RealStep, CmdError>, id: u128, message: Seq<char>, data: Json) -> bool {
    r matches Ok(RealStep::Done(res)) && res.id == id && res.success && res.message@ == message && res.data@ == data
}

pub open spec fn bad_pin_format(r: Result<RealStep, CmdError>, pin: Seq<char>) -> bool {
    refused(r, "pin"@, "Invalid pin format: "@ + pin + ". Use GPIO numbers like '17' or 'GPIO17'"@)
}

pub open spec fn not_pwm_pin(r: Result<RealStep, CmdError>, pin: u8) -> bool {
    refused(r, "pin"@, "Pin "@ + decimal(pin as nat) + " does not support hardware PWM. Use pins 12, 13, 18, or 19."@)
}

pub open spec fn unconfigured_line(r: Result<RealStep, CmdError>, line: u32) -> bool {
    r matches Err(CmdError::PinNotConfigured(m)) && m@ == "GPIO"@ + decimal(line as nat) + " not configured. Call pinMode first."@
}

/// The profile a PWM pin is at: its own, else 25 kHz, duty 0, off.
pub open spec fn real_profile_of(pre: RealCore, pin: u32) -> RealPwmProfile {
    if pre.profiles_spec().contains_key(pin) {
        pre.profiles_spec()[pin]
    } else {
        RealPwmProfile { frequency_hz: 25_000, duty_percent: 0, enabled: false }
    }
}

/// `pin_mode`: an input or output line is released, to be requested again.
pub open spec fn spec_real_pin_mode(pre: RealCore, args: Seq<(Seq<char>, Json)>, id: u128, post: RealCore, r: Result<RealStep, CmdError>) -> bool {
    match crate::json::value_str(crate::json::obj_get(args, "pin"@)) {
        None => real_unchanged(pre, post) && refused(r, "pin"@, "missing string"@),
        Some(p) => match line_of(p) {
            None => real_unchanged(pre, post) && bad_pin_format(r, p),
            Some(n) => match crate::backend::pin_mode_from(crate::json::obj_get(args, "mode"@)) {
                Err(e) => real_unchanged(pre, post) && refused(r, e.0, e.1),
                Ok(m) => if m == PinMode::Input || m == PinMode::Output || m == PinMode::Pwm {
                    &&& post.lines_spec() == pre.lines_spec().remove(n as u32)
                    &&& post.channels_spec() == pre.channels_spec()
                    &&& post.profiles_spec() == pre.profiles_spec()
                    &&& post.write_resolution() == pre.write_resolution()
                    &&& post.read_resolution() == pre.read_resolution()
                    &&& post.reference() == pre.reference()
                    &&& r matches Ok(RealStep::ConfigureLine { id: i, pin: q, line: l, mode: mm, output: o }) && i == id && q@ == p
                        && l == n as u32 && mm == m && o == (m != PinMode::Input)
                } else {
                    real_unchanged(pre, post) && refused(r, "mode"@, "Mode "@ + mode_debug(m) + " not supported on real GPIO"@)
                },
            },
        },
    }
}

/// `digital_write` and `digital_read`: the line must have been configured.
pub open spec fn spec_real_digital(pre: RealCore, args: Seq<(Seq<char>, Json)>, id: u128, r: Result<RealStep, CmdError>, write: bool) -> bool {
    match crate::json::value_str(crate::json::obj_get(args, "pin"@)) {
        None => refused(r, "pin"@, "missing string"@),
        Some(p) => match line_of(p) {
            None => bad_pin_format(r, p),
            Some(n) => if write {
                match crate::backend::level_from(crate::json::obj_get(args, "level"@)) {
                    Err(e) => refused(r, e.0, e.1),
                    Ok(lv) => if !pre.lines_spec().contains_key(n as u32) {
                        unconfigured_line(r, n as u32)
                    } else {
                        r matches Ok(RealStep::WriteLine { id: i, pin: q, line: l, level }) && i == id && q@ == p && l == n as u32
                            && level == lv
                    },
                }
            } else if !pre.lines_spec().contains_key(n as u32) {
                unconfigured_line(r, n as u32)
            } else {
                r matches Ok(RealStep::ReadLine { id: i, pin: q, line: l }) && i == id && q@ == p && l == n as u32
            },
        },
    }
}

/// `analog_write`: a hardware PWM pin, the value capped at the resolution.
pub open spec fn spec_real_analog_write(pre: RealCore, args: Seq<(Seq<char>, Json)>, id: u128, r: Result<RealStep, CmdError>) -> bool {
    match crate::json::value_u64(crate::json::obj_get(args, "pin"@)) {
        None => refused(r, "pin"@, "missing unsigned integer"@),
        Some(pu) => match crate::json::value_u64(crate::json::obj_get(args, "value"@)) {
            None => refused(r, "value"@, "missing unsigned integer"@),
            Some(vu) => {
                let pin = pu as u8;
                let value = vu as u16;
                let max = crate::backend::resolution_max(pre.write_resolution());
                let clamped = if value < max {
                    value
                } else {
                    max as u16
                };
                match pwm_mapping(pin as u32) {
                    None => not_pwm_pin(r, pin),
                    Some(_) => if max == 0 {
                        r matches Err(CmdError::Backend(m)) && m@ == "analog write resolution is zero"@
                    } else {
                        r matches Ok(RealStep::AnalogPwm { id: i, pin: q, value: w, .. }) && i == id && q == pin && w == clamped
                    },
                }
            },
        },
    }
}

/// `pwm_frequency`: the pin's profile takes the new frequency.
pub open spec fn spec_real_pwm_frequency(pre: RealCore, args: Seq<(Seq<char>, Json)>, id: u128, post: RealCore, r: Result<RealStep, CmdError>) -> bool {
    match crate::json::value_u64(crate::json::obj_get(args, "pin"@)) {
        None => real_unchanged(pre, post) && refused(r, "pin"@, "missing unsigned integer"@),
        Some(pu) => match crate::json::first_u64(args, seq!["frequency_hz"@, "frequency"@]) {
            None => real_unchanged(pre, post) && refused(
                r,
                crate::backend::keys_join(seq!["frequency_hz"@, "frequency"@]),
                "missing unsigned integer"@,
            ),
            Some(fu) => {
                let pin = pu as u8;
                let f = fu as u32;
                match pwm_mapping(pin as u32) {
                    None => real_unchanged(pre, post) && not_pwm_pin(r, pin),
                    Some((chip, channel)) => if f == 0 {
                        real_unchanged(pre, post) && refused(r, "frequency_hz"@, "frequency must be greater than zero"@)
                    } else if f > 1_000_000_000 {
                        real_unchanged(pre, post) && refused(r, "frequency_hz"@, "frequency is too high for hardware PWM"@)
                    } else {
                        let prof = real_profile_of(pre, pin as u32);
                        &&& post.profiles_spec() == pre.profiles_spec().insert(
                            pin as u32,
                            RealPwmProfile { frequency_hz: f, ..prof },
                        )
                        &&& post.lines_spec() == pre.lines_spec()
                        &&& post.channels_spec() == pre.channels_spec()
                        &&& post.write_resolution() == pre.write_resolution()
                        &&& post.read_resolution() == pre.read_resolution()
                        &&& post.reference() == pre.reference()
                        &&& r == Ok::<RealStep, CmdError>(RealStep::PwmFrequency {
                            id,
                            pin,
                            chip,
                            channel,
                            frequency_hz: f,
                            period_ns: (1_000_000_000int / (f as int)) as u64,
                            duty_percent: prof.duty_percent,
                        })
                    },
                }
            },
        },
    }
}

/// `pwm_write`: the duty number is handed out to be clamped.
pub open spec fn spec_real_pwm_write(args: Seq<(Seq<char>, Json)>, id: u128, r: Result<RealStep, CmdError>) -> bool {
    match crate::json::value_u64(crate::json::obj_get(args, "pin"@)) {
        None => refused(r, "pin"@, "missing unsigned integer"@),
        Some(pu) => match crate::json::first_number(args, seq!["duty_percent"@, "duty"@]) {
            None => refused(r, crate::backend::keys_join(seq!["duty_percent"@, "duty"@]), "missing number"@),
            Some(n) => match pwm_mapping(pu as u8 as u32) {
                None => not_pwm_pin(r, pu as u8),
                Some((chip, channel)) => r == Ok::<RealStep, CmdError>(
                    RealStep::PwmWrite { id, pin: pu as u8, chip, channel, duty: n },
                ),
            },
        },
    }
}

/// `analog_write_resolution` and `analog_read_resolution`: 1 to 16 bits.
pub open spec fn spec_real_resolution(pre: RealCore, args: Seq<(Seq<char>, Json)>, id: u128, post: RealCore, r: Result<RealStep, CmdError>, write: bool) -> bool {
    let refusal = if write {
        "analog write resolution must be 1..=16"@
    } else {
        "analog read resolution must be 1..=16"@
    };
    let message = if write {
        "analog write resolution updated"@
    } else {
        "analog read resolution updated"@
    };
    match crate::json::value_u64(crate::json::obj_get(args, "bits"@)) {
        None => real_unchanged(pre, post) && refused(r, "bits"@, "missing unsigned integer"@),
        Some(u) => {
            let b = u as u8;
            if b == 0 || b > 16 {
                real_unchanged(pre, post) && refused(r, "bits"@, refusal)
            } else {
                &&& post.write_resolution() == (if write { b } else { pre.write_resolution() })
                &&& post.read_resolution() == (if write { pre.read_resolution() } else { b })
                &&& post.lines_spec() == pre.lines_spec()
                &&& post.channels_spec() == pre.channels_spec()
                &&& post.profiles_spec() == pre.profiles_spec()
                &&& post.reference() == pre.reference()
                &&& answered(r, id, message, Json::Obj(seq![("bits"@, Json::Num(JsonNumber::UInt(b as u64)))]))
            }
        },
    }
}

/// `analog_reference`: the reference is kept as given.
pub open spec fn spec_real_reference(pre: RealCore, args: Seq<(Seq<char>, Json)>, id: u128, post: RealCore, r: Result<RealStep, CmdError>) -> bool {
    match crate::json::value_str(crate::json::obj_get(args, "reference"@)) {
        None => real_unchanged(pre, post) && refused(r, "reference"@, "missing string"@),
        Some(v) => {
            &&& post.reference() == v
            &&& post.lines_spec() == pre.lines_spec()
            &&& post.channels_spec() == pre.channels_spec()
            &&& post.profiles_spec() == pre.profiles_spec()
            &&& post.write_resolution() == pre.write_resolution()
            &&& post.read_resolution() == pre.read_resolution()
            &&& answered(r, id, "analog reference updated"@, Json::Obj(seq![("reference"@, Json::Str(v))]))
        },
    }
}

/// What `plan` does with a command whose arguments are the members `args`.
pub open spec fn spec_real_plan(pre: RealCore, d: Seq<char>, a: Seq<char>, args: Seq<(Seq<char>, Json)>, id: u128, post: RealCore, r: Result<RealStep, CmdError>) -> bool {
    if d == "gpio"@ && a == "pin_mode"@ {
        spec_real_pin_mode(pre, args, id, post, r)
    } else if d == "gpio"@ && a == "digital_write"@ {
        real_unchanged(pre, post) && spec_real_digital(pre, args, id, r, true)
    } else if d == "gpio"@ && a == "digital_read"@ {
        real_unchanged(pre, post) && spec_real_digital(pre, args, id, r, false)
    } else if d == "analog"@ && a == "analog_write"@ {
        real_unchanged(pre, post) && spec_real_analog_write(pre, args, id, r)
    } else if d == "pwm"@ && a == "pwm_frequency"@ {
        spec_real_pwm_frequency(pre, args, id, post, r)
    } else if d == "pwm"@ && a == "pwm_write"@ {
        real_unchanged(pre, post) && spec_real_pwm_write(args, id, r)
    } else if d == "analog"@ && a == "analog_write_resolution"@ {
        spec_real_resolution(pre, args, id, post, r, true)
    } else if d == "analog"@ && a == "analog_read_resolution"@ {
        spec_real_resolution(pre, args, id, post, r, false)
    } else if d == "analog"@ && a == "analog_reference"@ {
        spec_real_reference(pre, args, id, post, r)
    } else if d == "analog"@ && a == "analog_read"@ {
        real_unchanged(pre, post) && (r matches Err(CmdError::Backend(m))
            && m@ == "Raspberry Pi does not have built-in ADC. Use external ADC like MCP3008 via SPI."@)
    } else if d == "runtime"@ && a == "health_check"@ {
        real_unchanged(pre, post) && answered(r, id, "health check ok"@, Json::Obj(seq![
            ("ok"@, Json::Bool(true)),
            ("backend"@, Json::Str("real"@)),
        ]))
    } else {
        real_unchanged(pre, post) && answered(r, id, "command not handled by real backend"@, Json::Obj(seq![
            ("domain"@, Json::Str(d)),
            ("action"@, Json::Str(a)),
            ("note"@, Json::Str("Command forwarded or not implemented"@)),
        ]))
    }
}

/// `pwm_write`: checks the pin and hands the duty number out.
fn plan_pwm_write(args: &[(String, JsonValue)], id: u128) -> (r: Result<RealStep, CmdError>)
    ensures
        spec_real_pwm_write(fields_view(args@), id, r),
{
    let pin = match arg_u8(args, "pin") {
        Ok(p) => p,
        Err(e) => return Err(e),
    };
    let keys = ["duty_percent", "duty"];
    assert(crate::json::keys_view(keys@) == seq!["duty_percent"@, "duty"@]);
    let duty = match find_number_any(args, &keys) {
        Some(n) => n,
        None => {
            return Err(
                CmdError::InvalidArgument {
                    key: crate::json::join_keys(&keys),
                    reason: String::from_str("missing number"),
                },
            );
        },
    };
    match get_hardware_pwm_mapping(pin as u32) {
        Some((chip, channel)) => Ok(RealStep::PwmWrite { id, pin, chip, channel, duty }),
        None => Err(not_pwm_pin_error(pin)),
    }
}

impl RealCore {
    pub closed spec fn lines_spec(&self) -> Map<u32, PinMode> {
        self.lines@
    }

    pub closed spec fn channels_spec(&self) -> Map<u32, PwmChannel> {
        self.pwm_channels@
    }

    pub closed spec fn profiles_spec(&self) -> Map<u32, RealPwmProfile> {
        self.pwm_profiles@
    }

    pub closed spec fn write_resolution(&self) -> u8 {
        self.analog_write_resolution
    }

    pub closed spec fn read_resolution(&self) -> u8 {
        self.analog_read_resolution
    }

    pub closed spec fn reference(&self) -> Seq<char> {
        self.analog_reference@
    }

    /// Nothing requested: 10-bit reads, 8-bit writes, the default reference.
    pub fn new() -> (c: RealCore)
        ensures
            c.lines_spec().is_empty(),
            c.channels_spec().is_empty(),
            c.profiles_spec().is_empty(),
            c.read_resolution() == 10,
            c.write_resolution() == 8,
            c.reference() == "default"@,
    {
        RealCore {
            lines: HashMap::new(),
            pwm_channels: HashMap::new(),
            pwm_profiles: HashMap::new(),
            analog_read_resolution: 10,
            analog_write_resolution: 8,
            analog_reference: String::from_str("default"),
        }
    }

    /// Checks a command and says what the hardware has to do.
    pub fn plan(&mut self, command: CommandEnvelope) -> (r: Result<RealStep, CmdError>)
        ensures
            final(self).write_resolution() != old(self).write_resolution() ==> 1 <= final(self).write_resolution() <= 16,
            final(self).read_resolution() != old(self).read_resolution() ==> 1 <= final(self).read_resolution() <= 16,
            !(r matches Ok(RealStep::ConfigureLine { .. })) ==> final(self).lines_spec() == old(self).lines_spec(),
            r matches Ok(RealStep::WriteLine { line, .. }) ==> old(self).lines_spec().contains_key(line),
            r matches Ok(RealStep::ReadLine { line, .. }) ==> old(self).lines_spec().contains_key(line),
            r matches Ok(RealStep::ConfigureLine { line, mode, output, .. }) ==> !final(self).lines_spec().contains_key(line)
                && output == (mode == PinMode::Output || mode == PinMode::Pwm) && mode != PinMode::Analog
                && mode != PinMode::Interrupt,
            r matches Ok(RealStep::AnalogPwm { pin, chip, channel, value, duty_ns, period_ns, setup, enable, .. }) ==> {
                let max = crate::backend::resolution_max(old(self).write_resolution());
                &&& pwm_mapping(pin as u32) == Some((chip, channel))
                &&& period_ns == analog_period_ns()
                &&& value <= max
                &&& duty_ns == (period_ns * value) / max
                &&& setup == !old(self).channels_spec().contains_key(pin as u32)
                &&& ({
                    let was_enabled = old(self).channels_spec().contains_key(pin as u32) && old(self).channels_spec()[pin as u32].enabled;
                    enable == (if !was_enabled && value > 0 {
                        Some(true)
                    } else if was_enabled && value == 0 {
                        Some(false)
                    } else {
                        None
                    })
                })
            },
            r matches Ok(RealStep::PwmFrequency { pin, chip, channel, frequency_hz, period_ns, duty_percent, .. }) ==> {
                &&& pwm_mapping(pin as u32) == Some((chip, channel))
                &&& frequency_hz > 0 && period_ns == 1_000_000_000int / (frequency_hz as int)
                &&& final(self).profiles_spec().contains_key(pin as u32)
                &&& final(self).profiles_spec()[pin as u32].frequency_hz == frequency_hz
                &&& final(self).profiles_spec()[pin as u32].duty_percent == duty_percent
            },
            r matches Ok(RealStep::PwmWrite { pin, chip, channel, .. }) ==> pwm_mapping(pin as u32) == Some((chip, channel)),
            match crate::json::args_of(command.args@) {
                None => real_unchanged(*old(self), *final(self)) && refused(r, "args"@, "expected object"@),
                Some(args) => spec_real_plan(
                    *old(self),
                    command.domain@,
                    command.action@,
                    args,
                    command.id,
                    *final(self),
                    r,
                ),
            },
    {
        let args: &[(String, JsonValue)] = match command_args(&command.args) {
            Ok(a) => a,
            Err(e) => return Err(e),
        };
        let d = command.domain.as_str();
        let a = command.action.as_str();
        let id = command.id;
        if crate::json::str_eq(d, "gpio") && crate::json::str_eq(a, "pin_mode") {
            self.plan_pin_mode(args, id)
        } else if crate::json::str_eq(d, "gpio") && crate::json::str_eq(a, "digital_write") {
            self.plan_digital(args, id, true)
        } else if crate::json::str_eq(d, "gpio") && crate::json::str_eq(a, "digital_read") {
            self.plan_digital(args, id, false)
        } else if crate::json::str_eq(d, "analog") && crate::json::str_eq(a, "analog_write") {
            self.plan_analog_write(args, id)
        } else if crate::json::str_eq(d, "pwm") && crate::json::str_eq(a, "pwm_frequency") {
            self.plan_pwm_frequency(args, id)
        } else if crate::json::str_eq(d, "pwm") && crate::json::str_eq(a, "pwm_write") {
            plan_pwm_write(args, id)
        } else if crate::json::str_eq(d, "analog") && crate::json::str_eq(a, "analog_write_resolution") {
            self.plan_resolution(args, id, true)
        } else if crate::json::str_eq(d, "analog") && crate::json::str_eq(a, "analog_read_resolution") {
            self.plan_resolution(args, id, false)
        } else if crate::json::str_eq(d, "analog") && crate::json::str_eq(a, "analog_reference") {
            self.plan_reference(args, id)
        } else if crate::json::str_eq(d, "analog") && crate::json::str_eq(a, "analog_read") {
            Err(
                CmdError::Backend(
                    String::from_str(
                        "Raspberry Pi does not have built-in ADC. Use external ADC like MCP3008 via SPI.",
                    ),
                ),
            )
        } else if crate::json::str_eq(d, "runtime") && crate::json::str_eq(a, "health_check") {
            let data = obj2("ok", JsonValue::Bool(true), "backend", JsonValue::Str(String::from_str("real")));
            Ok(RealStep::Done(CommandResult::ok_with_data(id, "health check ok", data)))
        } else {
            let data = obj3(
                "domain",
                JsonValue::Str(String::from_str(d)),
                "action",
                JsonValue::Str(String::from_str(a)),
                "note",
                JsonValue::Str(String::from_str("Command forwarded or not implemented")),
            );
            Ok(RealStep::Done(CommandResult::ok_with_data(id, "command not handled by real backend", data)))
        }
    }

    fn plan_pin_mode(&mut self, args: &[(String, JsonValue)], id: u128) -> (r: Result<RealStep, CmdError>)
        ensures
            spec_real_pin_mode(*old(self), fields_view(args@), id, *final(self), r),
    {
        let pin = match arg_string(args, "pin") {
            Ok(p) => p,
            Err(e) => return Err(e),
        };
        let line = match bcm_to_line(pin.as_str()) {
            Ok(l) => l,
            Err(e) => return Err(e),
        };
        let mode = match parse_pin_mode(crate::json::get_field(args, "mode")) {
            Ok(m) => m,
            Err(e) => return Err(e),
        };
        let output = match mode {
            PinMode::Input => false,
            PinMode::Output | PinMode::Pwm => true,
            _ => {
                let head = concat_str("Mode ", mode_debug_text(mode));
                return Err(
                    CmdError::InvalidArgument {
                        key: String::from_str("mode"),
                        reason: concat_str(head.as_str(), " not supported on real GPIO"),
                    },
                );
            },
        };
        self.lines.remove(&line);
        Ok(RealStep::ConfigureLine { id, pin, line, mode, output })
    }

    fn plan_digital(&self, args: &[(String, JsonValue)], id: u128, write: bool) -> (r: Result<RealStep, CmdError>)
        ensures
            spec_real_digital(*self, fields_view(args@), id, r, write),
    {
        let pin = match arg_string(args, "pin") {
            Ok(p) => p,
            Err(e) => return Err(e),
        };
        let line = match bcm_to_line(pin.as_str()) {
            Ok(l) => l,
            Err(e) => return Err(e),
        };
        if write {
            let level = match parse_level(crate::json::get_field(args, "level")) {
                Ok(l) => l,
                Err(e) => return Err(e),
            };
            if !self.lines.contains_key(&line) {
                return Err(not_configured_error(line));
            }
            Ok(RealStep::WriteLine { id, pin, line, level })
        } else {
            if !self.lines.contains_key(&line) {
                return Err(not_configured_error(line));
            }
            Ok(RealStep::ReadLine { id, pin, line })
        }
    }

    fn plan_analog_write(&self, args: &[(String, JsonValue)], id: u128) -> (r: Result<RealStep, CmdError>)
        ensures
            spec_real_analog_write(*self, fields_view(args@), id, r),
            r matches Ok(RealStep::AnalogPwm { pin, chip, channel, value, duty_ns, period_ns, setup, enable, .. }) ==> {
                let max = crate::backend::resolution_max(self.write_resolution());
                &&& pwm_mapping(pin as u32) == Some((chip, channel))
                &&& period_ns == analog_period_ns()
                &&& value <= max
                &&& duty_ns == (period_ns * value) / max
                &&& setup == !self.channels_spec().contains_key(pin as u32)
                &&& ({
                    let was_enabled = self.channels_spec().contains_key(pin as u32) && self.channels_spec()[pin as u32].enabled;
                    enable == (if !was_enabled && value > 0 {
                        Some(true)
                    } else if was_enabled && value == 0 {
                        Some(false)
                    } else {
                        None
                    })
                })
            },
    {
        let pin = match arg_u8(args, "pin") {
            Ok(p) => p,
            Err(e) => return Err(e),
        };
        let value = match arg_u16(args, "value") {
            Ok(v) => v,
            Err(e) => return Err(e),
        };
        let max: u32 = crate::backend::max_sample(self.analog_write_resolution) as u32;
        let clamped: u16 = if (value as u32) < max {
            value
        } else {
            max as u16
        };
        match get_hardware_pwm_mapping(pin as u32) {
            Some((chip, channel)) => {
                let period_ns: u64 = 20_000_000;
                if max == 0 {
                    return Err(CmdError::Backend(String::from_str("analog write resolution is zero")));
                }
                assert(period_ns * clamped as u64 <= 20_000_000 * 65535) by (nonlinear_arith)
                    requires
                        period_ns == 20_000_000,
                        clamped <= 65535,
                ;
                let duty_ns = (period_ns * clamped as u64) / max as u64;
                let setup = !self.pwm_channels.contains_key(&(pin as u32));
                let was_enabled = match self.pwm_channels.get(&(pin as u32)) {
                    Some(c) => c.enabled,
                    None => false,
                };
                let enable: Option<bool> = if !was_enabled && clamped > 0 {
                    Some(true)
                } else if was_enabled && clamped == 0 {
                    Some(false)
                } else {
                    None
                };
                Ok(RealStep::AnalogPwm { id, pin, chip, channel, value: clamped, duty_ns, period_ns, setup, enable })
            },
            None => Err(not_pwm_pin_error(pin)),
        }
    }

    fn plan_pwm_frequency(&mut self, args: &[(String, JsonValue)], id: u128) -> (r: Result<RealStep, CmdError>)
        ensures
            spec_real_pwm_frequency(*old(self), fields_view(args@), id, *final(self), r),
    {
        let pin = match arg_u8(args, "pin") {
            Ok(p) => p,
            Err(e) => return Err(e),
        };
        let keys = ["frequency_hz", "frequency"];
        assert(crate::json::keys_view(keys@) == seq!["frequency_hz"@, "frequency"@]);
        let frequency_hz = match arg_u32_any(args, &keys) {
            Ok(f) => f,
            Err(e) => return Err(e),
        };
        let (chip, channel) = match get_hardware_pwm_mapping(pin as u32) {
            Some(m) => m,
            None => return Err(not_pwm_pin_error(pin)),
        };
        let period_ns = match pwm_period_ns(frequency_hz) {
            Ok(p) => p,
            Err(e) => return Err(e),
        };
        let profile = match self.pwm_profiles.get(&(pin as u32)) {
            Some(p) => *p,
            None => RealPwmProfile { frequency_hz: 25_000, duty_percent: 0, enabled: false },
        };
        let updated = RealPwmProfile { frequency_hz, ..profile };
        self.pwm_profiles.insert(pin as u32, updated);
        Ok(RealStep::PwmFrequency { id, pin, chip, channel, frequency_hz, period_ns, duty_percent: profile.duty_percent })
    }

    fn plan_resolution(&mut self, args: &[(String, JsonValue)], id: u128, write: bool) -> (r: Result<RealStep, CmdError>)
        ensures
            spec_real_resolution(*old(self), fields_view(args@), id, *final(self), r, write),
    {
        let bits = match arg_u8(args, "bits") {
            Ok(b) => b,
            Err(e) => return Err(e),
        };
        if bits == 0 || bits > 16 {
            return Err(
                CmdError::InvalidArgument {
                    key: String::from_str("bits"),
                    reason: if write {
                        String::from_str("analog write resolution must be 1..=16")
                    } else {
                        String::from_str("analog read resolution must be 1..=16")
                    },
                },
            );
        }
        let message = if write {
            self.analog_write_resolution = bits;
            "analog write resolution updated"
        } else {
            self.analog_read_resolution = bits;
            "analog read resolution updated"
        };
        Ok(RealStep::Done(CommandResult::ok_with_data(id, message, obj1("bits", JsonValue::Number(JsonNumber::UInt(bits as u64))))))
    }

    fn plan_reference(&mut self, args: &[(String, JsonValue)], id: u128) -> (r: Result<RealStep, CmdError>)
        ensures
            spec_real_reference(*old(self), fields_view(args@), id, *final(self), r),
    {
        let reference = match arg_string(args, "reference") {
            Ok(v) => v,
            Err(e) => return Err(e),
        };
        let data = obj1("reference", JsonValue::Str(reference.clone()));
        self.analog_reference = reference;
        Ok(RealStep::Done(CommandResult::ok_with_data(id, "analog reference updated", data)))
    }

    /// The line was requested: record its mode and answer.
    pub fn finish_pin_mode(&mut self, id: u128, pin: String, line: u32, mode: PinMode) -> (r: CommandResult)
        ensures
            final(self).lines_spec() == old(self).lines_spec().insert(line, mode),
            r.id == id && r.success && r.message@ == "pin mode configured"@,
            r.data@ == Json::Obj(seq![
                ("pin"@, Json::Str(pin@)),
                ("line"@, Json::Num(JsonNumber::UInt(line as u64))),
                ("mode"@, Json::Str(crate::backend::mode_label(mode))),
            ]),
    {
        self.lines.insert(line, mode);
        let data = obj3("pin", owned_text(pin), "line", JsonValue::Number(JsonNumber::UInt(line as u64)), "mode", JsonValue::Str(String::from_str(mode_name(mode))));
        CommandResult::ok_with_data(id, "pin mode configured", data)
    }

    /// The answer to a digital write that was carried out.
    pub fn finish_digital_write(id: u128, pin: String, level: Level) -> (r: CommandResult)
        ensures
            r.id == id && r.success && r.message@ == "digital write ok"@,
            r.data@ == Json::Obj(seq![("pin"@, Json::Str(pin@)), ("level"@, Json::Str(crate::backend::level_label(level)))]),
    {
        let data = obj2("pin", owned_text(pin), "level", JsonValue::Str(String::from_str(crate::backend::level_name(level))));
        CommandResult::ok_with_data(id, "digital write ok", data)
    }

    /// The answer to a digital read of `value` (1 is high).
    pub fn finish_digital_read(id: u128, pin: String, value: u8) -> (r: CommandResult)
        ensures
            r.id == id && r.success && r.message@ == "digital read ok"@,
            r.data@ == Json::Obj(seq![
                ("pin"@, Json::Str(pin@)),
                ("level"@, Json::Str(if value == 1 { "high"@ } else { "low"@ })),
                ("is_high"@, Json::Bool(value == 1)),
            ]),
    {
        let level = if value == 1 {
            Level::High
        } else {
            Level::Low
        };
        let data = obj3(
            "pin",
            owned_text(pin),
            "level",
            JsonValue::Str(String::from_str(crate::backend::level_name(level))),
            "is_high",
            JsonValue::Bool(value == 1),
        );
        CommandResult::ok_with_data(id, "digital read ok", data)
    }

    /// The channel was set up (before its duty is written).
    pub fn note_pwm_setup(&mut self, pin: u8)
        ensures
            final(self).channels_spec() == (if old(self).channels_spec().contains_key(pin as u32) {
                old(self).channels_spec()
            } else {
                old(self).channels_spec().insert(pin as u32, PwmChannel { duty_ns: 0, enabled: false })
            }),
    {
        if !self.pwm_channels.contains_key(&(pin as u32)) {
            self.pwm_channels.insert(pin as u32, PwmChannel { duty_ns: 0, enabled: false });
        }
    }

    /// An analog write was carried out: record the channel and answer.
    pub fn finish_analog_write(&mut self, id: u128, pin: u8, value: u16, duty_ns: u64, period_ns: u64, enabled: bool) -> (r: CommandResult)
        ensures
            final(self).channels_spec() == old(self).channels_spec().insert(pin as u32, PwmChannel { duty_ns, enabled }),
            r.id == id && r.success && r.message@ == "analog write (PWM) ok"@,
    {
        self.pwm_channels.insert(pin as u32, PwmChannel { duty_ns, enabled });
        let mut d: Vec<(String, JsonValue)> = Vec::new();
        member(&mut d, "pin", JsonValue::Number(JsonNumber::UInt(pin as u64)));
        member(&mut d, "value", JsonValue::Number(JsonNumber::UInt(value as u64)));
        member(&mut d, "duty_ns", JsonValue::Number(JsonNumber::UInt(duty_ns)));
        member(&mut d, "period_ns", JsonValue::Number(JsonNumber::UInt(period_ns)));
        member(&mut d, "resolution", JsonValue::Number(JsonNumber::UInt(self.analog_write_resolution as u64)));
        CommandResult::ok_with_data(id, "analog write (PWM) ok", JsonValue::Object(d))
    }

    /// Stores a clamped duty for a PWM pin; gives the pin's frequency and
    /// its period (or the error of that frequency).
    pub fn set_pwm_duty(&mut self, pin: u8, duty_percent: u64) -> (r: (u32, Result<u64, CmdError>))
        ensures
            final(self).profiles_spec().contains_key(pin as u32),
            final(self).profiles_spec()[pin as u32].duty_percent == duty_percent,
            r.0 == final(self).profiles_spec()[pin as u32].frequency_hz,
            r.0 == (if old(self).profiles_spec().contains_key(pin as u32) {
                old(self).profiles_spec()[pin as u32].frequency_hz
            } else {
                25_000
            }),
            r.0 > 0 && r.0 <= 1_000_000_000 ==> r.1 == Ok::<u64, CmdError>((1_000_000_000int / (r.0 as int)) as u64),
    {
        let profile = match self.pwm_profiles.get(&(pin as u32)) {
            Some(p) => *p,
            None => RealPwmProfile { frequency_hz: 25_000, duty_percent: 0, enabled: false },
        };
        let updated = RealPwmProfile { duty_percent, ..profile };
        self.pwm_profiles.insert(pin as u32, updated);
        (profile.frequency_hz, pwm_period_ns(profile.frequency_hz))
    }

    /// The PWM channel was switched on or off: record it.
    pub fn finish_pwm(&mut self, pin: u8, enabled: bool)
        ensures
            old(self).profiles_spec().contains_key(pin as u32) ==> final(self).profiles_spec() == old(self).profiles_spec().insert(
                pin as u32,
                RealPwmProfile { enabled, ..old(self).profiles_spec()[pin as u32] },
            ),
            !old(self).profiles_spec().contains_key(pin as u32) ==> final(self).profiles_spec() == old(self).profiles_spec(),
    {
        match self.pwm_profiles.get(&(pin as u32)) {
            Some(p) => {
                let updated = RealPwmProfile { enabled, ..*p };
                self.pwm_profiles.insert(pin as u32, updated);
            },
            None => {},
        }
    }
}

} // verus!
