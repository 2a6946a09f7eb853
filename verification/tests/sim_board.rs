use canweeb::backend::{SimBackend, SimStep};
use canweeb::command::{CommandEnvelope, CommandResult};
use canweeb::error::CmdError;
use canweeb::json::{JsonNumber, JsonValue};

fn s(text: &str) -> JsonValue {
    JsonValue::Str(text.to_string())
}

fn n(v: u64) -> JsonValue {
    JsonValue::Number(JsonNumber::UInt(v))
}

fn obj(pairs: Vec<(&str, JsonValue)>) -> JsonValue {
    JsonValue::Object(pairs.into_iter().map(|(k, v)| (k.to_string(), v)).collect())
}

fn run(b: &mut SimBackend, domain: &str, action: &str, args: JsonValue) -> Result<SimStep, CmdError> {
    b.execute(CommandEnvelope::new(domain, action, args))
}

fn done(r: Result<SimStep, CmdError>) -> CommandResult {
    match r {
        Ok(SimStep::Done(res)) => res,
        Ok(other) => panic!("command not complete: {other:?}"),
        Err(e) => panic!("command failed: {e:?}"),
    }
}

fn field<'a>(data: &'a JsonValue, key: &str) -> Option<&'a JsonValue> {
    match data {
        JsonValue::Object(fields) => fields.iter().find(|(k, _)| k == key).map(|(_, v)| v),
        _ => None,
    }
}

fn is_high(res: &CommandResult) -> Option<bool> {
    match field(&res.data, "is_high") {
        Some(JsonValue::Bool(b)) => Some(*b),
        _ => None,
    }
}

fn uint(res: &CommandResult, key: &str) -> Option<u64> {
    match field(&res.data, key) {
        Some(JsonValue::Number(JsonNumber::UInt(v))) => Some(*v),
        _ => None,
    }
}

fn text(res: &CommandResult, key: &str) -> Option<String> {
    match field(&res.data, key) {
        Some(JsonValue::Str(v)) => Some(v.clone()),
        _ => None,
    }
}

fn finish_motor_step(b: &mut SimBackend, step: SimStep, value: f64) -> CommandResult {
    match step {
        SimStep::MotorValue { id, motor, action, .. } => b.finish_motor(id, motor, action, value.to_bits()),
        other => panic!("expected a motor step: {other:?}"),
    }
}

#[test]
fn basic_gpio_flow_works() {
    let mut b = SimBackend::new();
    done(run(&mut b, "runtime", "health_check", JsonValue::Null));
    done(run(&mut b, "gpio", "pin_mode", obj(vec![("pin", s("gpio5")), ("mode", s("output"))])));
    done(run(&mut b, "gpio", "digital_write", obj(vec![("pin", s("gpio5")), ("level", s("high"))])));
    let read = done(run(&mut b, "gpio", "digital_read", obj(vec![("pin", s("gpio5"))])));
    assert_eq!(is_high(&read), Some(true));
}

#[test]
fn digital_and_analog_commands_on_the_simulator() {
    let mut b = SimBackend::new();
    done(run(&mut b, "gpio", "pin_mode", obj(vec![("pin", s("gpio6")), ("mode", s("output"))])));
    done(run(&mut b, "gpio", "digital_write", obj(vec![("pin", s("gpio6")), ("level", s("high"))])));
    let read = done(run(&mut b, "gpio", "digital_read", obj(vec![("pin", s("gpio6"))])));
    assert_eq!(is_high(&read), Some(true));

    done(run(&mut b, "analog", "analog_read_resolution", obj(vec![("bits", n(12))])));
    done(run(&mut b, "analog", "analog_write_resolution", obj(vec![("bits", n(10))])));
    done(run(&mut b, "analog", "analog_reference", obj(vec![("reference", s("internal"))])));
    done(run(&mut b, "analog", "analog_write", obj(vec![("pin", n(2)), ("value", n(512))])));
    let v = done(run(&mut b, "analog", "analog_read", obj(vec![("pin", n(2))])));
    assert!(uint(&v, "value").unwrap() <= 4095);
}

#[test]
fn uart_and_motor_commands_work() {
    let mut b = SimBackend::new();
    done(run(&mut b, "uart", "uart_open", obj(vec![("port", s("uart0")), ("baud", n(115200))])));
    done(run(&mut b, "uart", "uart_send", obj(vec![("port", s("uart0")), ("data", s("HELLO"))])));
    let rx = done(run(&mut b, "uart", "uart_read", obj(vec![("port", s("uart0"))])));
    assert!(rx.success);

    let enable = run(&mut b, "motor", "motor_enable", obj(vec![("motor", s("left"))])).unwrap();
    assert!(finish_motor_step(&mut b, enable, 0.0).success);
    let speed = run(&mut b, "motor", "motor_set_speed", obj(vec![("motor", s("left")), ("speed", JsonValue::Number(JsonNumber::Float(0.5f64.to_bits())))])).unwrap();
    match &speed {
        SimStep::MotorValue { value: Some(JsonNumber::Float(bits)), .. } => assert_eq!(f64::from_bits(*bits), 0.5),
        other => panic!("unexpected step {other:?}"),
    }
    assert!(finish_motor_step(&mut b, speed, 0.5).success);
    let st = done(run(&mut b, "runtime", "status", JsonValue::Null));
    assert!(st.success);
    assert_eq!(uint(&st, "motors"), Some(1));
    assert_eq!(uint(&st, "uart_ports"), Some(1));
}

#[test]
fn safety_stop_blocks_actuator_write() {
    let mut b = SimBackend::new();
    done(run(&mut b, "gpio", "pin_mode", obj(vec![("pin", s("gpio13")), ("mode", s("output"))])));
    done(run(&mut b, "runtime", "emergency_stop", JsonValue::Null));
    let result = run(&mut b, "gpio", "digital_write", obj(vec![("pin", s("gpio13")), ("level", s("high"))]));
    assert!(matches!(result, Err(CmdError::SafetyStopLatched)));
}

#[test]
fn clear_stop_releases_the_latch() {
    let mut b = SimBackend::new();
    done(run(&mut b, "gpio", "pin_mode", obj(vec![("pin", s("gpio13")), ("mode", s("output"))])));
    done(run(&mut b, "runtime", "panic_stop", JsonValue::Null));
    assert!(run(&mut b, "gpio", "digital_toggle", obj(vec![("pin", s("gpio13"))])).is_err());
    // Reads are still answered while latched.
    let read = done(run(&mut b, "gpio", "digital_read", obj(vec![("pin", s("gpio13"))])));
    assert_eq!(is_high(&read), Some(false));
    done(run(&mut b, "runtime", "clear_stop", JsonValue::Null));
    done(run(&mut b, "gpio", "digital_write", obj(vec![("pin", s("gpio13")), ("level", s("high"))])));
    let read = done(run(&mut b, "gpio", "digital_read", obj(vec![("pin", s("gpio13"))])));
    assert_eq!(is_high(&read), Some(true));
}

#[test]
fn toggle_twice_restores_level() {
    let mut b = SimBackend::new();
    done(run(&mut b, "gpio", "pin_mode", obj(vec![("pin", s("led")), ("mode", s("output"))])));
    let first = done(run(&mut b, "gpio", "digital_toggle", obj(vec![("pin", s("led"))])));
    assert_eq!(text(&first, "level").as_deref(), Some("high"));
    let second = done(run(&mut b, "gpio", "digital_toggle", obj(vec![("pin", s("led"))])));
    assert_eq!(text(&second, "level").as_deref(), Some("low"));
}

#[test]
fn errors_name_the_problem() {
    let mut b = SimBackend::new();
    let r = run(&mut b, "gpio", "digital_read", obj(vec![("pin", s("nowhere"))]));
    assert!(matches!(r, Err(CmdError::PinNotConfigured(p)) if p == "nowhere"));
    done(run(&mut b, "gpio", "pin_mode", obj(vec![("pin", s("in1")), ("mode", s("input"))])));
    let r = run(&mut b, "gpio", "digital_write", obj(vec![("pin", s("in1")), ("level", s("high"))]));
    assert!(matches!(r, Err(CmdError::PinModeMismatch(p)) if p == "in1"));
    let r = run(&mut b, "gpio", "pin_mode", obj(vec![("pin", s("x"))]));
    assert!(matches!(r, Err(CmdError::InvalidArgument { .. })));
    let r = run(&mut b, "gpio", "pin_mode", s("not an object"));
    assert!(matches!(r, Err(CmdError::InvalidArgument { ref key, .. }) if key == "args"));
    let r = run(&mut b, "uart", "uart_send", obj(vec![("port", s("uart9")), ("data", s("x"))]));
    assert!(matches!(r, Err(CmdError::ResourceNotFound(m)) if m == "uart port `uart9`"));
    let r = run(&mut b, "analog", "analog_write_resolution", obj(vec![("bits", n(17))]));
    assert!(matches!(r, Err(CmdError::InvalidArgument { ref reason, .. }) if reason == "analog write resolution must be 1..=16"));
}

#[test]
fn analog_write_is_bounded_by_resolution() {
    let mut b = SimBackend::new();
    done(run(&mut b, "analog", "analog_write_resolution", obj(vec![("bits", n(8))])));
    let w = done(run(&mut b, "analog", "analog_write", obj(vec![("pin", n(3)), ("value", n(1000))])));
    assert_eq!(uint(&w, "value"), Some(255));
    let r = done(run(&mut b, "analog", "analog_read", obj(vec![("pin", n(9))])));
    // Unset inputs read half scale of the 10-bit default.
    assert_eq!(uint(&r, "value"), Some(511));
}

#[test]
fn uart_read_returns_oldest_then_empty() {
    let mut b = SimBackend::new();
    done(run(&mut b, "uart", "uart_open", obj(vec![("port", s("u1"))])));
    let rx = done(run(&mut b, "uart", "uart_read", obj(vec![("port", s("u1"))])));
    assert_eq!(text(&rx, "data").as_deref(), Some(""));
    assert_eq!(uint(&rx, "baud"), Some(115200));
    let sent = done(run(&mut b, "uart", "uart_send", obj(vec![("port", s("u1")), ("data", s("héllo"))])));
    assert_eq!(uint(&sent, "bytes"), Some(6));
}

#[test]
fn unknown_commands_are_echoed() {
    let mut b = SimBackend::new();
    let r = done(run(&mut b, "camera", "snap", obj(vec![("res", s("hd"))])));
    assert_eq!(r.message, "command accepted (simulated)");
    assert_eq!(text(&r, "domain").as_deref(), Some("camera"));
    assert_eq!(text(&r, "action").as_deref(), Some("snap"));
}

#[test]
fn pwm_write_hands_out_the_duty() {
    let mut b = SimBackend::new();
    let step = run(&mut b, "pwm", "pwm_write", obj(vec![("pin", n(18)), ("duty", n(150))])).unwrap();
    match step {
        SimStep::PwmDuty { id, pin, duty: JsonNumber::UInt(150) } => {
            assert_eq!(pin, 18);
            let res = b.finish_pwm_write(id, pin, 100.0f64.to_bits(), true);
            assert!(res.success);
        }
        other => panic!("unexpected step {other:?}"),
    }
}

#[test]
fn controller_state_is_read_back() {
    let mut pad = canweeb::types::ControllerState::new();
    pad.connected = true;
    pad.lx = 0.5f32.to_bits();
    pad.a = true;
    let mut b = SimBackend::new().with_controller_state(pad);
    let axis = done(run(&mut b, "bt", "bt_axis", obj(vec![("axis", s("lx"))])));
    assert!(axis.success);
    assert!(matches!(field(&axis.data, "value"), Some(JsonValue::Number(JsonNumber::Single(bits))) if *bits == 0.5f32.to_bits()));
    let button = done(run(&mut b, "bt", "bt_button", obj(vec![("button", s("a"))])));
    assert!(matches!(field(&button.data, "pressed"), Some(JsonValue::Bool(true))));
}
