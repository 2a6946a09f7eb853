use canweeb::command::CommandEnvelope;
use canweeb::error::CmdError;
use canweeb::json::{JsonNumber, JsonValue};
use canweeb::real_backend::{bcm_to_line, get_hardware_pwm_mapping, pwm_period_ns, RealCore, RealStep};
use canweeb::types::{Level, PinMode};

fn obj(pairs: Vec<(&str, JsonValue)>) -> JsonValue {
    JsonValue::Object(pairs.into_iter().map(|(k, v)| (k.to_string(), v)).collect())
}

fn s(t: &str) -> JsonValue {
    JsonValue::Str(t.to_string())
}

fn n(v: u64) -> JsonValue {
    JsonValue::Number(JsonNumber::UInt(v))
}

fn plan(core: &mut RealCore, d: &str, a: &str, args: JsonValue) -> Result<RealStep, CmdError> {
    core.plan(CommandEnvelope::new(d, a, args))
}

#[test]
fn pin_names_and_pwm_pins() {
    assert_eq!(bcm_to_line("17").unwrap(), 17);
    assert_eq!(bcm_to_line("GPIO17").unwrap(), 17);
    assert_eq!(bcm_to_line("BCM4").unwrap(), 4);
    assert_eq!(bcm_to_line("GPIOGPIO5").unwrap(), 5);
    let e = bcm_to_line("pin7").unwrap_err();
    assert_eq!(e.message(), "invalid argument `pin`: Invalid pin format: pin7. Use GPIO numbers like '17' or 'GPIO17'");
    assert_eq!(get_hardware_pwm_mapping(12), Some((0, 0)));
    assert_eq!(get_hardware_pwm_mapping(19), Some((0, 1)));
    assert_eq!(get_hardware_pwm_mapping(5), None);
    assert_eq!(pwm_period_ns(25_000).unwrap(), 40_000);
    assert!(pwm_period_ns(0).is_err());
    assert_eq!(pwm_period_ns(2_000_000_000).unwrap_err().message(), "invalid argument `frequency_hz`: frequency is too high for hardware PWM");
}

#[test]
fn gpio_commands_plan_line_work() {
    let mut core = RealCore::new();
    let r = plan(&mut core, "gpio", "digital_write", obj(vec![("pin", s("GPIO17")), ("level", s("high"))]));
    assert_eq!(r.unwrap_err().message(), "pin not configured: GPIO17 not configured. Call pinMode first.");
    match plan(&mut core, "gpio", "pin_mode", obj(vec![("pin", s("GPIO17")), ("mode", s("output"))])).unwrap() {
        RealStep::ConfigureLine { id, pin, line, mode, output } => {
            assert_eq!(line, 17);
            assert!(output);
            let res = core.finish_pin_mode(id, pin, line, mode);
            assert_eq!(res.message, "pin mode configured");
        }
        other => panic!("unexpected {other:?}"),
    }
    match plan(&mut core, "gpio", "digital_write", obj(vec![("pin", s("17")), ("level", JsonValue::Bool(true))])).unwrap() {
        RealStep::WriteLine { line, level, .. } => {
            assert_eq!(line, 17);
            assert_eq!(level, Level::High);
        }
        other => panic!("unexpected {other:?}"),
    }
    let r = plan(&mut core, "gpio", "pin_mode", obj(vec![("pin", s("5")), ("mode", s("analog"))]));
    assert_eq!(r.unwrap_err().message(), "invalid argument `mode`: Mode Analog not supported on real GPIO");
    let read = RealCore::finish_digital_read(1, "17".into(), 1);
    assert!(read.success);
    let _ = PinMode::Input;
}

#[test]
fn analog_writes_use_hardware_pwm() {
    let mut core = RealCore::new();
    match plan(&mut core, "analog", "analog_write", obj(vec![("pin", n(18)), ("value", n(1000))])).unwrap() {
        RealStep::AnalogPwm { value, duty_ns, period_ns, setup, enable, chip, channel, .. } => {
            assert_eq!((chip, channel), (0, 0));
            assert_eq!(value, 255);
            assert_eq!(period_ns, 20_000_000);
            assert_eq!(duty_ns, 20_000_000);
            assert!(setup);
            assert_eq!(enable, Some(true));
            core.note_pwm_setup(18);
            core.finish_analog_write(1, 18, value, duty_ns, period_ns, true);
        }
        other => panic!("unexpected {other:?}"),
    }
    match plan(&mut core, "analog", "analog_write", obj(vec![("pin", n(18)), ("value", n(0))])).unwrap() {
        RealStep::AnalogPwm { setup, enable, duty_ns, .. } => {
            assert!(!setup);
            assert_eq!(enable, Some(false));
            assert_eq!(duty_ns, 0);
        }
        other => panic!("unexpected {other:?}"),
    }
    let r = plan(&mut core, "analog", "analog_write", obj(vec![("pin", n(5)), ("value", n(1))]));
    assert_eq!(r.unwrap_err().message(), "invalid argument `pin`: Pin 5 does not support hardware PWM. Use pins 12, 13, 18, or 19.");
    let r = plan(&mut core, "analog", "analog_read", JsonValue::Null);
    assert!(matches!(r, Err(CmdError::Backend(_))));
}

#[test]
fn pwm_frequency_and_duty() {
    let mut core = RealCore::new();
    match plan(&mut core, "pwm", "pwm_frequency", obj(vec![("pin", n(12)), ("frequency_hz", n(1000))])).unwrap() {
        RealStep::PwmFrequency { period_ns, duty_percent, frequency_hz, .. } => {
            assert_eq!(period_ns, 1_000_000);
            assert_eq!(frequency_hz, 1000);
            assert_eq!(f64::from_bits(duty_percent), 0.0);
        }
        other => panic!("unexpected {other:?}"),
    }
    let (freq, period) = core.set_pwm_duty(12, 50.0f64.to_bits());
    assert_eq!(freq, 1000);
    assert_eq!(period.unwrap(), 1_000_000);
    core.finish_pwm(12, true);
    match plan(&mut core, "pwm", "pwm_write", obj(vec![("pin", n(13)), ("duty", n(30))])).unwrap() {
        RealStep::PwmWrite { channel, duty: JsonNumber::UInt(30), .. } => assert_eq!(channel, 1),
        other => panic!("unexpected {other:?}"),
    }
    match plan(&mut core, "runtime", "health_check", JsonValue::Null).unwrap() {
        RealStep::Done(r) => assert_eq!(r.message, "health check ok"),
        other => panic!("unexpected {other:?}"),
    }
    match plan(&mut core, "camera", "snap", JsonValue::Null).unwrap() {
        RealStep::Done(r) => assert_eq!(r.message, "command not handled by real backend"),
        other => panic!("unexpected {other:?}"),
    }
}

#[test]
fn real_plan_refusals() {
    let mut core = RealCore::new();
    match plan(&mut core, "gpio", "pin_mode", s("not an object")) {
        Err(CmdError::InvalidArgument { key, reason }) => {
            assert_eq!(key, "args");
            assert_eq!(reason, "expected object");
        }
        other => panic!("unexpected {other:?}"),
    }
    match plan(&mut core, "analog", "analog_read", obj(vec![("pin", n(0))])) {
        Err(CmdError::Backend(m)) => {
            assert_eq!(m, "Raspberry Pi does not have built-in ADC. Use external ADC like MCP3008 via SPI.")
        }
        other => panic!("unexpected {other:?}"),
    }
    match plan(&mut core, "analog", "analog_read_resolution", obj(vec![("bits", n(17))])) {
        Err(CmdError::InvalidArgument { key, reason }) => {
            assert_eq!(key, "bits");
            assert_eq!(reason, "analog read resolution must be 1..=16");
        }
        other => panic!("unexpected {other:?}"),
    }
    match plan(&mut core, "gpio", "digital_read", obj(vec![("pin", s("GPIO17"))])) {
        Err(CmdError::PinNotConfigured(m)) => assert_eq!(m, "GPIO17 not configured. Call pinMode first."),
        other => panic!("unexpected {other:?}"),
    }
    match plan(&mut core, "gpio", "pin_mode", obj(vec![("pin", s("17")), ("mode", s("analog"))])) {
        Err(CmdError::InvalidArgument { key, reason }) => {
            assert_eq!(key, "mode");
            assert_eq!(reason, "Mode Analog not supported on real GPIO");
        }
        other => panic!("unexpected {other:?}"),
    }
    match plan(&mut core, "pwm", "pwm_write", obj(vec![("pin", n(4)), ("duty", n(50))])) {
        Err(CmdError::InvalidArgument { key, .. }) => assert_eq!(key, "pin"),
        other => panic!("unexpected {other:?}"),
    }
}
