use canweeb::encoder::{quadrature_delta, quadrature_state, RotaryEncoder};
use canweeb::gpio_ext::{EncDirection, GpioRotaryEncoder};

#[test]
fn forward_sequence_counts_up() {
    assert_eq!(quadrature_delta(0b00, 0b01), 1);
    assert_eq!(quadrature_delta(0b01, 0b11), 1);
    assert_eq!(quadrature_delta(0b11, 0b10), 1);
    assert_eq!(quadrature_delta(0b10, 0b00), 1);
}

#[test]
fn reverse_sequence_counts_down() {
    assert_eq!(quadrature_delta(0b00, 0b10), -1);
    assert_eq!(quadrature_delta(0b10, 0b11), -1);
    assert_eq!(quadrature_delta(0b11, 0b01), -1);
    assert_eq!(quadrature_delta(0b01, 0b00), -1);
}

#[test]
fn no_change_and_double_steps_count_zero() {
    for s in 0u8..4 {
        assert_eq!(quadrature_delta(s, s), 0);
    }
    assert_eq!(quadrature_delta(0b00, 0b11), 0);
    assert_eq!(quadrature_delta(0b01, 0b10), 0);
}

#[test]
fn delta_is_antisymmetric_on_all_states() {
    for a in 0u8..4 {
        for b in 0u8..4 {
            assert_eq!(quadrature_delta(a, b), -quadrature_delta(b, a));
        }
    }
}

#[test]
fn state_packs_channels() {
    assert_eq!(quadrature_state(false, false), 0b00);
    assert_eq!(quadrature_state(false, true), 0b01);
    assert_eq!(quadrature_state(true, false), 0b10);
    assert_eq!(quadrature_state(true, true), 0b11);
}

#[test]
fn rotary_encoder_counts_a_full_cycle() {
    let mut enc = RotaryEncoder::new(3, 4).expect("encoder");
    assert_eq!(enc.pin_a(), 3);
    assert_eq!(enc.pin_b(), 4);
    assert_eq!(enc.read().unwrap(), 0);
    // A full forward cycle: 00 -> 01 -> 11 -> 10 -> 00.
    enc.sample(false, true);
    enc.sample(true, true);
    enc.sample(true, false);
    enc.sample(false, false);
    assert_eq!(enc.read().unwrap(), 4);
    enc.reset().unwrap();
    assert_eq!(enc.read().unwrap(), 0);
}

#[test]
fn gpio_encoder_reports_the_direction_of_the_last_step() {
    let mut enc = GpioRotaryEncoder::new(17, 27);
    assert_eq!(enc.read(), (0, EncDirection::Still));
    enc.add_steps(1);
    assert_eq!(enc.read(), (1, EncDirection::Clockwise));
    enc.add_steps(0);
    assert_eq!(enc.read(), (1, EncDirection::Clockwise));
    enc.add_steps(-1);
    assert_eq!(enc.read(), (0, EncDirection::CounterClockwise));
    enc.reset();
    assert_eq!(enc.read(), (0, EncDirection::Still));
}
