use canweeb::backend::{SimBackend, SimStep};
use canweeb::command::{CommandEnvelope, CommandResult};
use canweeb::error::CmdError;
use canweeb::json::{JsonNumber, JsonValue};
use canweeb::remote_exec::{
    BoardLink,
    define_child_program, dispatch, get_child_program, run_child_program, send_child_program_to,
    Backend, ProgramBuilder, ProgramRegistry,
};

fn number(n: &JsonNumber) -> f64 {
    match n {
        JsonNumber::UInt(u) => *u as f64,
        JsonNumber::NegInt(i) => *i as f64,
        JsonNumber::Float(bits) => f64::from_bits(*bits),
        JsonNumber::Single(bits) => f32::from_bits(*bits) as f64,
    }
}

/// The simulated board behind the backend interface.
struct Board(SimBackend);

impl Backend for Board {
    fn execute(&mut self, command: CommandEnvelope) -> Result<CommandResult, CmdError> {
        match self.0.execute(command)? {
            SimStep::Done(r) => Ok(r),
            SimStep::PwmDuty { id, pin, duty } => {
                let d = number(&duty).clamp(0.0, 100.0);
                Ok(self.0.finish_pwm_write(id, pin, d.to_bits(), d > 0.0))
            }
            SimStep::MotorValue { id, motor, action, value } => {
                let v = value.as_ref().map(number).unwrap_or(0.0);
                Ok(self.0.finish_motor(id, motor, action, v.to_bits()))
            }
        }
    }
}

fn is_high(res: &CommandResult) -> Option<bool> {
    match &res.data {
        JsonValue::Object(fields) => fields.iter().find(|(k, _)| k == "is_high").and_then(|(_, v)| match v {
            JsonValue::Bool(b) => Some(*b),
            _ => None,
        }),
        _ => None,
    }
}

fn args(pairs: Vec<(&str, &str)>) -> JsonValue {
    JsonValue::Object(pairs.into_iter().map(|(k, v)| (k.to_string(), JsonValue::Str(v.to_string()))).collect())
}

fn parent_define_child_boot_program(registry: &mut ProgramRegistry) -> Result<(), CmdError> {
    let mut program = ProgramBuilder::new();
    program
        .pin_mode("gpio22", "output")
        .digital_write("gpio22", "high")
        .motor_set_speed("left", 0.2f64.to_bits())
        .uart_send("uart0", "BOOT");
    define_child_program(registry, "child_boot", program)?;
    Ok(())
}

#[test]
fn parent_can_define_and_send_program_to_child() {
    let mut board = BoardLink::new(Board(SimBackend::new()));
    let mut registry = ProgramRegistry::new();
    let mut port = JsonValue::Object(vec![("port".to_string(), JsonValue::Str("uart0".into()))]);
    if let JsonValue::Object(f) = &mut port {
        f.push(("baud".to_string(), JsonValue::Number(JsonNumber::UInt(115200))));
    }
    dispatch(&mut board, "uart", "uart_open", port).expect("uart open failed");
    parent_define_child_boot_program(&mut registry).expect("program definition failed");

    let report = send_child_program_to(&mut board, &registry, "child-01", "child_boot").expect("program send failed");
    assert_eq!(report.executed_steps, 4);
    assert_eq!(report.total_steps, 4);
    assert_eq!(report.child_id, "child-01");
    assert_eq!(report.program_name, "child_boot");
    assert_eq!(report.results.len(), 4);

    let read = dispatch(&mut board, "gpio", "digital_read", args(vec![("pin", "gpio22")])).expect("gpio read failed after remote run");
    assert_eq!(is_high(&read), Some(true));
}

#[test]
fn program_errors() {
    let mut board = BoardLink::new(Board(SimBackend::new()));
    let mut registry = ProgramRegistry::new();
    let err = define_child_program(&mut registry, "   ", ProgramBuilder::new()).unwrap_err();
    assert_eq!(err.message(), "invalid argument `name`: program name must not be empty");
    assert!(matches!(get_child_program(&registry, "nope"), Err(CmdError::ProgramNotFound(n)) if n == "nope"));
    assert!(matches!(send_child_program_to(&mut board, &registry, " ", "x"), Err(CmdError::InvalidArgument { key, .. }) if key == "child_id"));

    let mut b = ProgramBuilder::new();
    b.pin_mode("p1", "output").digital_write("p2", "high");
    define_child_program(&mut registry, "bad", b).unwrap();
    let err = run_child_program(&mut board, &registry, "bad").unwrap_err();
    assert_eq!(err.message(), "child program `bad` failed at step 1: pin not configured: p2");

    let mut ok = ProgramBuilder::new();
    ok.command("runtime", "health_check", JsonValue::Null);
    define_child_program(&mut registry, "ok", ok).unwrap();
    let report = run_child_program(&mut board, &registry, "ok").unwrap();
    assert_eq!(report.child_id, "local-child");
    assert_eq!(report.total_steps, 1);
    let p = get_child_program(&registry, "ok").unwrap();
    assert_eq!(p.steps.len(), 1);
    assert_eq!(p.steps[0].domain, "runtime");
}

#[test]
fn dispatch_refuses_blank_names() {
    let mut board = BoardLink::new(Board(SimBackend::new()));
    let e = dispatch(&mut board, " ", "x", JsonValue::Null).unwrap_err();
    assert_eq!(e.message(), "invalid command: domain must not be empty");
    let e = dispatch(&mut board, "gpio", "\t", JsonValue::Null).unwrap_err();
    assert_eq!(e.message(), "invalid command: action must not be empty");
    assert_eq!(CmdError::SafetyStopLatched.message(), "safety stop is latched");
}

#[test]
fn program_step_with_blank_name_stops_the_run() {
    let mut board = BoardLink::new(Board(SimBackend::new()));
    let mut registry = ProgramRegistry::new();
    let mut b = ProgramBuilder::new();
    b.command("runtime", "health_check", JsonValue::Null).command(" ", "x", JsonValue::Null);
    define_child_program(&mut registry, "blank_step", b).unwrap();
    let err = send_child_program_to(&mut board, &registry, "child-02", "blank_step").unwrap_err();
    assert_eq!(err.message(), "child program `blank_step` failed at step 1: invalid command: domain must not be empty");
}
