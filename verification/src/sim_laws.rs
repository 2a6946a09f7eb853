//! Properties of the simulated board that span several commands.
//!
//! Each law is stated over `spec_step`, the relation that
//! `SimBackend::execute` is proved to follow for every admitted command.
use crate::backend::{
    admitted, blocked_in_stop, drives_level, flip, level_from, level_label, ok_step,
    resolution_max, safety_label, spec_step, CommandView, SimModel, SimStep,
};
use crate::command::CommandEnvelope;
use crate::error::CmdError;
use crate::json::{first_str, obj_get, value_str, value_u64, Json};
use crate::types::{Level, PinMode, SafetyState};
use vstd::prelude::*;

verus! {

/// The pin named by a command's `pin` member.
pub open spec fn pin_arg(args: Seq<(Seq<char>, Json)>) -> Option<Seq<char>> {
    value_str(obj_get(args, "pin"@))
}

/// What a successful `digital_read` of `pin` answers when the pin is at `l`.
pub open spec fn read_answer(pin: Seq<char>, l: Level) -> Json {
    Json::Obj(seq![("pin"@, Json::Str(pin)), ("level"@, Json::Str(level_label(l))), ("is_high"@, Json::Bool(l == Level::High))])
}

/// The domain names are distinct, and so are the action names of each
/// domain.
pub proof fn lemma_command_names_distinct()
    ensures
        "runtime"@ != "gpio"@,
        "runtime"@ != "analog"@,
        "runtime"@ != "pwm"@,
        "runtime"@ != "tone"@,
        "runtime"@ != "motor"@,
        "runtime"@ != "uart"@,
        "runtime"@ != "bt"@,
        "gpio"@ != "analog"@,
        "gpio"@ != "pwm"@,
        "gpio"@ != "tone"@,
        "gpio"@ != "motor"@,
        "gpio"@ != "uart"@,
        "gpio"@ != "bt"@,
        "analog"@ != "pwm"@,
        "analog"@ != "tone"@,
        "analog"@ != "motor"@,
        "analog"@ != "uart"@,
        "analog"@ != "bt"@,
        "pwm"@ != "tone"@,
        "pwm"@ != "motor"@,
        "pwm"@ != "uart"@,
        "pwm"@ != "bt"@,
        "tone"@ != "motor"@,
        "tone"@ != "uart"@,
        "tone"@ != "bt"@,
        "motor"@ != "uart"@,
        "motor"@ != "bt"@,
        "uart"@ != "bt"@,
        "panic_stop"@ != "emergency_stop"@,
        "panic_stop"@ != "clear_stop"@,
        "panic_stop"@ != "status"@,
        "panic_stop"@ != "health_check"@,
        "emergency_stop"@ != "clear_stop"@,
        "emergency_stop"@ != "status"@,
        "emergency_stop"@ != "health_check"@,
        "clear_stop"@ != "status"@,
        "clear_stop"@ != "health_check"@,
        "status"@ != "health_check"@,
        "pin_mode"@ != "digital_write"@,
        "pin_mode"@ != "digital_read"@,
        "pin_mode"@ != "digital_toggle"@,
        "digital_write"@ != "digital_read"@,
        "digital_write"@ != "digital_toggle"@,
        "digital_read"@ != "digital_toggle"@,
        "analog_read"@ != "analog_read_resolution"@,
        "analog_read"@ != "analog_reference"@,
        "analog_read"@ != "analog_write"@,
        "analog_read"@ != "analog_write_resolution"@,
        "analog_read_resolution"@ != "analog_reference"@,
        "analog_read_resolution"@ != "analog_write"@,
        "analog_read_resolution"@ != "analog_write_resolution"@,
        "analog_reference"@ != "analog_write"@,
        "analog_reference"@ != "analog_write_resolution"@,
        "analog_write"@ != "analog_write_resolution"@,
        "pwm_frequency"@ != "pwm_write"@,
        "tone"@ != "no_tone"@,
        "uart_open"@ != "uart_close"@,
        "uart_open"@ != "uart_send"@,
        "uart_open"@ != "uart_read"@,
        "uart_close"@ != "uart_send"@,
        "uart_close"@ != "uart_read"@,
        "uart_send"@ != "uart_read"@,
        "bt_connect_controller"@ != "bt_disconnect_controller"@,
        "bt_connect_controller"@ != "bt_poll_controller"@,
        "bt_connect_controller"@ != "bt_axis"@,
        "bt_connect_controller"@ != "bt_button"@,
        "bt_disconnect_controller"@ != "bt_poll_controller"@,
        "bt_disconnect_controller"@ != "bt_axis"@,
        "bt_disconnect_controller"@ != "bt_button"@,
        "bt_poll_controller"@ != "bt_axis"@,
        "bt_poll_controller"@ != "bt_button"@,
        "bt_axis"@ != "bt_button"@,
{
    reveal_strlit("runtime");
    reveal_strlit("gpio");
    reveal_strlit("analog");
    reveal_strlit("pwm");
    reveal_strlit("tone");
    reveal_strlit("motor");
    reveal_strlit("uart");
    reveal_strlit("bt");
    reveal_strlit("panic_stop");
    reveal_strlit("emergency_stop");
    reveal_strlit("clear_stop");
    reveal_strlit("status");
    reveal_strlit("health_check");
    reveal_strlit("pin_mode");
    reveal_strlit("digital_write");
    reveal_strlit("digital_read");
    reveal_strlit("digital_toggle");
    reveal_strlit("analog_read");
    reveal_strlit("analog_read_resolution");
    reveal_strlit("analog_reference");
    reveal_strlit("analog_write");
    reveal_strlit("analog_write_resolution");
    reveal_strlit("pwm_frequency");
    reveal_strlit("pwm_write");
    reveal_strlit("no_tone");
    reveal_strlit("uart_open");
    reveal_strlit("uart_close");
    reveal_strlit("uart_send");
    reveal_strlit("uart_read");
    reveal_strlit("bt_connect_controller");
    reveal_strlit("bt_disconnect_controller");
    reveal_strlit("bt_poll_controller");
    reveal_strlit("bt_axis");
    reveal_strlit("bt_button");
    assert("runtime"@.len() == 7);
    assert("gpio"@.len() == 4);
    assert("analog"@.len() == 6);
    assert("pwm"@.len() == 3);
    assert("tone"@.len() == 4);
    assert("motor"@.len() == 5);
    assert("uart"@.len() == 4);
    assert("bt"@.len() == 2);
    assert("panic_stop"@.len() == 10);
    assert("emergency_stop"@.len() == 14);
    assert("clear_stop"@.len() == 10);
    assert("status"@.len() == 6);
    assert("health_check"@.len() == 12);
    assert("pin_mode"@.len() == 8);
    assert("digital_write"@.len() == 13);
    assert("digital_read"@.len() == 12);
    assert("digital_toggle"@.len() == 14);
    assert("analog_read"@.len() == 11);
    assert("analog_read_resolution"@.len() == 22);
    assert("analog_reference"@.len() == 16);
    assert("analog_write"@.len() == 12);
    assert("analog_write_resolution"@.len() == 23);
    assert("pwm_frequency"@.len() == 13);
    assert("pwm_write"@.len() == 9);
    assert("no_tone"@.len() == 7);
    assert("uart_open"@.len() == 9);
    assert("uart_close"@.len() == 10);
    assert("uart_send"@.len() == 9);
    assert("uart_read"@.len() == 9);
    assert("bt_connect_controller"@.len() == 21);
    assert("bt_disconnect_controller"@.len() == 24);
    assert("bt_poll_controller"@.len() == 18);
    assert("bt_axis"@.len() == 7);
    assert("bt_button"@.len() == 9);
    assert("gpio"@[0] != "tone"@[0]);
    assert("gpio"@[0] != "uart"@[0]);
    assert("tone"@[0] != "uart"@[0]);
    assert("panic_stop"@[0] != "clear_stop"@[0]);
    assert("uart_open"@[5] != "uart_send"@[5]);
    assert("uart_open"@[5] != "uart_read"@[5]);
    assert("uart_send"@[5] != "uart_read"@[5]);
}

/// Every command leaves the history as it found it: `execute` records an
/// admitted command once, before it runs, and records a refused one never.
pub proof fn law_step_keeps_history(
    pre: SimModel,
    d: Seq<char>,
    a: Seq<char>,
    args: Seq<(Seq<char>, Json)>,
    id: u128,
    post: SimModel,
    r: Result<SimStep, CmdError>,
)
    requires
        spec_step(pre, d, a, args, id, post, r),
    ensures
        post.history == pre.history,
{
}

/// An emergency stop (or panic stop) latches the safety stop and changes
/// nothing else on the board.
pub proof fn law_stop_latches(
    pre: SimModel,
    a: Seq<char>,
    args: Seq<(Seq<char>, Json)>,
    id: u128,
    post: SimModel,
    r: Result<SimStep, CmdError>,
)
    requires
        a == "emergency_stop"@ || a == "panic_stop"@,
        spec_step(pre, "runtime"@, a, args, id, post, r),
    ensures
        post.safety_latched,
        post == (SimModel { safety_latched: true, ..pre }),
        ok_step(r, id, "safety stop latched"@, Json::Obj(seq![("safety"@, Json::Str(safety_label(SafetyState::EmergencyStopped)))])),
{
}

/// Once latched, the stop stays latched through every command but
/// `clear_stop`.
pub proof fn law_latch_persists(
    pre: SimModel,
    d: Seq<char>,
    a: Seq<char>,
    args: Seq<(Seq<char>, Json)>,
    id: u128,
    post: SimModel,
    r: Result<SimStep, CmdError>,
)
    requires
        pre.safety_latched,
        !(d == "runtime"@ && a == "clear_stop"@),
        spec_step(pre, d, a, args, id, post, r),
    ensures
        post.safety_latched,
{
}

/// While the stop is latched, no actuator command is admitted, so none can
/// change the board.
pub proof fn law_latched_refuses_actuators(m: SimModel, c: CommandEnvelope)
    requires
        m.safety_latched,
        blocked_in_stop(c.domain@, c.action@),
    ensures
        !admitted(m, c),
{
}

/// `clear_stop` releases the latch and changes nothing else.
pub proof fn law_clear_stop_unlatches(
    pre: SimModel,
    args: Seq<(Seq<char>, Json)>,
    id: u128,
    post: SimModel,
    r: Result<SimStep, CmdError>,
)
    requires
        spec_step(pre, "runtime"@, "clear_stop"@, args, id, post, r),
    ensures
        !post.safety_latched,
        post == (SimModel { safety_latched: false, ..pre }),
{
    lemma_command_names_distinct();
}

/// A pin put in a driving mode starts low.
pub proof fn law_driving_mode_starts_low(
    pre: SimModel,
    args: Seq<(Seq<char>, Json)>,
    id: u128,
    post: SimModel,
    r: Result<SimStep, CmdError>,
)
    requires
        spec_step(pre, "gpio"@, "pin_mode"@, args, id, post, r),
        r is Ok,
    ensures
        pin_arg(args) is Some,
        post.pins.contains_key(pin_arg(args).unwrap()),
        drives_level(post.pins[pin_arg(args).unwrap()].mode) ==> post.pins[pin_arg(args).unwrap()].level
            == Level::Low,
{
    lemma_command_names_distinct();
}

/// A read after a successful write of the same pin answers the level that
/// was written, whatever other record was made between them.
pub proof fn law_read_after_write(
    pre: SimModel,
    wargs: Seq<(Seq<char>, Json)>,
    id1: u128,
    mid: SimModel,
    r1: Result<SimStep, CmdError>,
    c: CommandView,
    rargs: Seq<(Seq<char>, Json)>,
    id2: u128,
    post: SimModel,
    r2: Result<SimStep, CmdError>,
)
    requires
        spec_step(pre, "gpio"@, "digital_write"@, wargs, id1, mid, r1),
        r1 is Ok,
        spec_step(
            SimModel { history: mid.history.push(c), ..mid },
            "gpio"@,
            "digital_read"@,
            rargs,
            id2,
            post,
            r2,
        ),
        pin_arg(rargs) == pin_arg(wargs),
    ensures
        pin_arg(wargs) is Some,
        level_from(obj_get(wargs, "level"@)) is Ok,
        ok_step(
            r2,
            id2,
            "digital read ok"@,
            read_answer(pin_arg(wargs).unwrap(), level_from(obj_get(wargs, "level"@))->Ok_0),
        ),
{
    lemma_command_names_distinct();
}

/// Two successful toggles of a pin give back its level.
pub proof fn law_toggle_twice_restores(
    pre: SimModel,
    args1: Seq<(Seq<char>, Json)>,
    id1: u128,
    mid: SimModel,
    r1: Result<SimStep, CmdError>,
    c: CommandView,
    args2: Seq<(Seq<char>, Json)>,
    id2: u128,
    post: SimModel,
    r2: Result<SimStep, CmdError>,
)
    requires
        spec_step(pre, "gpio"@, "digital_toggle"@, args1, id1, mid, r1),
        r1 is Ok,
        spec_step(SimModel { history: mid.history.push(c), ..mid }, "gpio"@, "digital_toggle"@, args2, id2, post, r2),
        pin_arg(args2) == pin_arg(args1),
    ensures
        r2 is Ok,
        post.pins == pre.pins,
{
    lemma_command_names_distinct();
    let pin = pin_arg(args1).unwrap();
    assert(flip(flip(pre.pins[pin].level)) == pre.pins[pin].level);
    assert(post.pins =~= pre.pins);
}

/// A stored analog output never exceeds the largest sample of the write
/// resolution in force.
pub proof fn law_analog_write_bounded(
    pre: SimModel,
    args: Seq<(Seq<char>, Json)>,
    id: u128,
    post: SimModel,
    r: Result<SimStep, CmdError>,
)
    requires
        spec_step(pre, "analog"@, "analog_write"@, args, id, post, r),
        r is Ok,
    ensures
        value_u64(obj_get(args, "pin"@)) is Some,
        post.analog_outputs.contains_key(value_u64(obj_get(args, "pin"@)).unwrap() as u8),
        post.analog_outputs[value_u64(obj_get(args, "pin"@)).unwrap() as u8] <= resolution_max(
            pre.analog_write_resolution,
        ),
{
    lemma_command_names_distinct();
    vstd::arithmetic::power2::lemma2_to64();
    let bits = pre.analog_write_resolution;
    let e: nat = if bits > 16 { 16nat } else { bits as nat };
    vstd::arithmetic::power2::lemma_pow2_pos(e);
    vstd::arithmetic::power2::lemma_pow2_strictly_increases(e, 17);
}

/// A successful `uart_send` leaves the text at the end of the port's
/// transmit log and the receive queue as it was.
pub proof fn law_uart_send_logged(
    pre: SimModel,
    args: Seq<(Seq<char>, Json)>,
    id: u128,
    post: SimModel,
    r: Result<SimStep, CmdError>,
)
    requires
        spec_step(pre, "uart"@, "uart_send"@, args, id, post, r),
        r is Ok,
        first_str(args, seq!["data"@, "text"@, "payload"@]) is Some,
    ensures
        first_str(args, seq!["port"@, "id"@, "name"@]) is Some,
        post.uart_ports.contains_key(first_str(args, seq!["port"@, "id"@, "name"@]).unwrap()),
        post.uart_ports[first_str(args, seq!["port"@, "id"@, "name"@]).unwrap()].tx_log.last()
            == first_str(args, seq!["data"@, "text"@, "payload"@]).unwrap(),
        post.uart_ports[first_str(args, seq!["port"@, "id"@, "name"@]).unwrap()].rx_queue
            == pre.uart_ports[first_str(args, seq!["port"@, "id"@, "name"@]).unwrap()].rx_queue,
{
    lemma_command_names_distinct();
}

/// Queries leave the board as they found it.
pub proof fn law_queries_change_nothing(
    pre: SimModel,
    d: Seq<char>,
    a: Seq<char>,
    args: Seq<(Seq<char>, Json)>,
    id: u128,
    post: SimModel,
    r: Result<SimStep, CmdError>,
)
    requires
        (d == "runtime"@ && (a == "status"@ || a == "health_check"@)) || (d == "gpio"@ && a
            == "digital_read"@) || (d == "bt"@ && (a == "bt_poll_controller"@ || a == "bt_axis"@ || a
            == "bt_button"@)),
        spec_step(pre, d, a, args, id, post, r),
    ensures
        post == pre,
{
    lemma_command_names_distinct();
}

} // verus!
