use canweeb::arduino::{
    analogRead, analogReadResolution, analogReference, analogWrite, analogWriteResolution, analog_sample,
    answer_data, command_ok, digitalRead, digitalWrite, noTone, pinMode, read_level, scan_networks, shiftIn,
    shiftOut, sort_texts, tone, tone_args, AnalogReference, BitOrder, Keyboard, Mouse, USB,
};
use canweeb::backend::{SimBackend, SimStep};
use canweeb::command::{CommandEnvelope, CommandResult};
use canweeb::error::CmdError;
use canweeb::gpio_ext::DtOverlay;
use canweeb::json::{JsonNumber, JsonValue};
use canweeb::remote_exec::{Backend, BoardLink};
use canweeb::types::PinMode;

fn number(n: &JsonNumber) -> f64 {
    match n {
        JsonNumber::UInt(u) => *u as f64,
        JsonNumber::NegInt(i) => *i as f64,
        JsonNumber::Float(bits) => f64::from_bits(*bits),
        JsonNumber::Single(bits) => f32::from_bits(*bits) as f64,
    }
}

/// The simulated board behind the backend interface, keeping what it was asked.
struct Board {
    sim: SimBackend,
    asked: Vec<(String, String)>,
}

impl Backend for Board {
    fn execute(&mut self, command: CommandEnvelope) -> Result<CommandResult, CmdError> {
        self.asked.push((command.domain.clone(), command.action.clone()));
        match self.sim.execute(command)? {
            SimStep::Done(r) => Ok(r),
            SimStep::PwmDuty { id, pin, duty } => {
                let d = number(&duty).clamp(0.0, 100.0);
                Ok(self.sim.finish_pwm_write(id, pin, d.to_bits(), d > 0.0))
            }
            SimStep::MotorValue { id, motor, action, value } => {
                let v = value.as_ref().map(number).unwrap_or(0.0);
                Ok(self.sim.finish_motor(id, motor, action, v.to_bits()))
            }
        }
    }
}

fn board() -> BoardLink<Board> {
    BoardLink::new(Board { sim: SimBackend::new(), asked: Vec::new() })
}

fn obj(pairs: Vec<(&str, JsonValue)>) -> JsonValue {
    JsonValue::Object(pairs.into_iter().map(|(k, v)| (k.to_string(), v)).collect())
}

#[test]
fn digital_pins_through_a_backend() {
    let mut b = board();
    pinMode(&mut b, "gpio17", PinMode::Output).unwrap();
    digitalWrite(&mut b, "gpio17", true).unwrap();
    assert!(digitalRead(&mut b, "gpio17").unwrap());
    digitalWrite(&mut b, "gpio17", false).unwrap();
    assert!(!digitalRead(&mut b, "gpio17").unwrap());
    assert!(digitalWrite(&mut b, "gpio99", true).is_err());
    assert_eq!(b.backend().asked[0], ("gpio".to_string(), "pin_mode".to_string()));
}

#[test]
fn analog_through_a_backend() {
    let mut b = board();
    analogReadResolution(&mut b, 12).unwrap();
    analogWriteResolution(&mut b, 10).unwrap();
    analogReference(&mut b, AnalogReference::Internal).unwrap();
    let v = analogRead(&mut b, 3).unwrap();
    assert!(v <= 4095);
    analogWrite(&mut b, 5, 512).unwrap();
    assert_eq!(b.backend().asked.len(), 5);
    assert_eq!(b.backend().asked[4], ("analog".to_string(), "analog_write".to_string()));
}

#[test]
fn tones_through_a_backend() {
    let mut b = board();
    tone(&mut b, "gpio18", 440, Some(100)).unwrap();
    noTone(&mut b, "gpio18").unwrap();
    assert_eq!(b.backend().asked[0], ("tone".to_string(), "tone".to_string()));
    assert_eq!(b.backend().asked[1], ("tone".to_string(), "no_tone".to_string()));
    match tone_args("gpio18", 440, None) {
        JsonValue::Object(f) => {
            assert_eq!(f.len(), 3);
            assert!(matches!(f[2].1, JsonValue::Null));
        }
        _ => panic!("not an object"),
    }
}

#[test]
fn shift_register_through_a_backend() {
    let mut b = board();
    pinMode(&mut b, "data", PinMode::Output).unwrap();
    pinMode(&mut b, "clock", PinMode::Output).unwrap();
    shiftOut(&mut b, "data", "clock", BitOrder::MsbFirst, 0b1010_0001).unwrap();
    assert_eq!(b.backend().asked.len(), 2 + 24);
    // The data pin was left at the last bit written (the lowest, set).
    assert!(digitalRead(&mut b, "data").unwrap());
    let v = shiftIn(&mut b, "data", "clock", BitOrder::LsbFirst).unwrap();
    assert_eq!(v, 0xFF);
    assert!(shiftOut(&mut b, "nowhere", "clock", BitOrder::LsbFirst, 1).is_err());
}

#[test]
fn answers_become_data_or_errors() {
    let ok = CommandResult::ok_with_data(1, "done", JsonValue::Bool(true));
    assert!(matches!(answer_data(ok), Ok(JsonValue::Bool(true))));
    let mut failed = CommandResult::ok(2, "no such pin");
    failed.success = false;
    match answer_data(failed) {
        Err(CmdError::Backend(m)) => assert_eq!(m, "no such pin"),
        _ => panic!("expected a backend error"),
    }
    let mut b = board();
    assert!(matches!(command_ok(&mut b, " ", "x", JsonValue::Null), Err(CmdError::InvalidCommand(_))));
    assert!(matches!(command_ok(&mut b, "gpio", "", JsonValue::Null), Err(CmdError::InvalidCommand(_))));
    assert!(b.backend().asked.is_empty());
}

#[test]
fn reading_answers() {
    assert!(read_level(&obj(vec![("is_high", JsonValue::Bool(true))])));
    assert!(!read_level(&obj(vec![("is_high", JsonValue::Str("yes".to_string()))])));
    assert!(!read_level(&JsonValue::Null));
    assert_eq!(analog_sample(&obj(vec![("value", JsonValue::uint(70_000))])).unwrap(), 4464);
    match analog_sample(&obj(vec![("other", JsonValue::uint(1))])) {
        Err(CmdError::Backend(m)) => assert_eq!(m, "analog_read missing value"),
        _ => panic!("expected an error"),
    }
}

#[test]
fn wifi_scan_output_is_read() {
    let out = "home:72:WPA2\n:40:\ncafe:abc: \nlab\nguest:-61:WPA1 WPA2\r\n";
    let nets = scan_networks(out);
    assert_eq!(nets.len(), 4);
    assert_eq!(nets[0].ssid, "home");
    assert_eq!(nets[0].signal_dbm, Some(72));
    assert_eq!(nets[0].security.as_deref(), Some("WPA2"));
    assert_eq!(nets[1].ssid, "cafe");
    assert_eq!(nets[1].signal_dbm, None);
    assert_eq!(nets[1].security, None);
    assert_eq!(nets[2].ssid, "lab");
    assert_eq!(nets[3].signal_dbm, Some(-61));
    assert_eq!(nets[3].security.as_deref(), Some("WPA1 WPA2"));
    assert!(scan_networks("").is_empty());
}

#[test]
fn devices_are_listed_sorted() {
    let names = vec!["usb2".to_string(), "1-1".to_string(), "usb1".to_string(), "1-1".to_string()];
    assert_eq!(USB::list_devices(&names), vec!["1-1", "1-1", "usb1", "usb2"]);
    assert_eq!(sort_texts(&vec![]), Vec::<String>::new());
    let entries = vec![
        ("usb-Logi_USB_Receiver-if01-event-mouse".to_string(), "/dev/input/by-id/m1".to_string()),
        ("usb-Dell_KB216-event-KBD".to_string(), "/dev/input/by-id/k2".to_string()),
        ("usb-Other-event-kbd".to_string(), "/dev/input/by-id/k1".to_string()),
    ];
    assert_eq!(Keyboard::list_devices(&entries), vec!["/dev/input/by-id/k1", "/dev/input/by-id/k2"]);
    assert_eq!(Mouse::list_devices(&entries), vec!["/dev/input/by-id/m1"]);
}

#[test]
fn overlays_are_listed_and_found() {
    let out = "Overlays (in load order):\n  0:  rotary-encoder\n\n  1:  pwm-2chan  \n";
    let list = DtOverlay::parse_list(out);
    assert_eq!(list, vec!["0:  rotary-encoder", "1:  pwm-2chan"]);
    assert!(DtOverlay::is_loaded(&list, "rotary-encoder"));
    assert!(!DtOverlay::is_loaded(&list, "i2c"));
    let args = DtOverlay::load_args("rotary-encoder", &[("relative_axis", "1"), ("steps-per-period", "1")]);
    assert_eq!(args, vec!["rotary-encoder", "relative_axis=1", "steps-per-period=1"]);
}

#[test]
fn digital_and_analog_work() {
    let mut b = board();
    pinMode(&mut b, "gpio6", PinMode::Output).expect("pinMode failed");
    digitalWrite(&mut b, "gpio6", true).expect("digitalWrite failed");
    assert!(digitalRead(&mut b, "gpio6").expect("digitalRead failed"));

    analogReadResolution(&mut b, 12).expect("analogReadResolution failed");
    analogWriteResolution(&mut b, 10).expect("analogWriteResolution failed");
    analogReference(&mut b, AnalogReference::Internal).expect("analogReference failed");
    analogWrite(&mut b, 2, 512).expect("analogWrite failed");
    let v = analogRead(&mut b, 2).expect("analogRead failed");
    assert!(v <= 4095);
}
