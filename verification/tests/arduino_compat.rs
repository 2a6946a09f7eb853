use canweeb::arduino::{
    abs, attachInterrupt, bit, bitClear, bitRead, bitSet, bitWrite, constrain, default_rng,
    detachInterrupt, digitalPinToInterrupt, highByte, interrupts, interruptsEnabled, isAlpha,
    isAlphaNumeric, isAscii, isControl, isDigit, isGraph, isHexadecimalDigit, isLowerCase,
    isPrintable, isPunct, isSpace, isUpperCase, isWhitespace, lowByte, max, min,
    noInterrupts, pulse_width_u32, pulse_width_us, random, randomRange, randomSeed,
    reference_name, shift_in_value, shift_out_bit, shift_out_bits, sq, triggerInterrupt,
    AnalogReference, BitOrder, InterruptTable, PulseMeter, PulseStep,
};

#[test]
fn math_bits_chars_and_time_work() {
    assert_eq!(abs(-7), 7);
    assert_eq!(constrain(42, 0, 10), 10);
    assert_eq!(canweeb::arduino::map(5, 0, 10, 0, 100), 50);
    assert_eq!(max(3, 9), 9);
    assert_eq!(min(3, 9), 3);
    assert_eq!(sq(12), 144);

    assert_eq!(bit(3), 0b1000);
    assert!(bitRead(0b1000, 3));
    assert_eq!(bitClear(0b1111, 1), 0b1101);
    assert_eq!(bitSet(0b0001, 2), 0b0101);
    assert_eq!(bitWrite(0b0000, 0, true), 0b0001);
    assert_eq!(highByte(0xABCD), 0xAB);
    assert_eq!(lowByte(0xABCD), 0xCD);

    assert!(isAlpha('A'));
    assert!(isAlphaNumeric('9'));
    assert!(isAscii('x'));
    assert!(isControl('\n'));
    assert!(isDigit('5'));
    assert!(isGraph('!'));
    assert!(isHexadecimalDigit('F'));
    assert!(isLowerCase('m'));
    assert!(isPrintable(' '));
    assert!(isPunct('.'));
    assert!(isSpace(' '));
    assert!(isUpperCase('Q'));
    assert!(isWhitespace('\t'));
}

#[test]
fn random_and_interrupts_work() {
    let mut rng = default_rng();
    randomSeed(&mut rng, 1234);
    let a = random(&mut rng, 1000);
    randomSeed(&mut rng, 1234);
    let b = random(&mut rng, 1000);
    assert_eq!(a, b);

    let r = randomRange(&mut rng, 10, 20);
    assert!((10..20).contains(&r));

    let mut table: InterruptTable<u32> = InterruptTable::new();
    noInterrupts(&mut table);
    assert!(!interruptsEnabled(&table));
    interrupts(&mut table);
    assert!(interruptsEnabled(&table));
}

#[test]
fn map_rounds_toward_zero_and_handles_empty_range() {
    assert_eq!(canweeb::arduino::map(7, 0, 10, 0, 3), 2);
    assert_eq!(canweeb::arduino::map(-7, 0, 10, 0, 3), -2);
    assert_eq!(canweeb::arduino::map(5, 10, 0, 0, 100), 50);
    assert_eq!(canweeb::arduino::map(123, 4, 4, 9, 99), 9);
    assert_eq!(canweeb::arduino::map(0, 0, 1023, 0, 255), 0);
    assert_eq!(canweeb::arduino::map(1023, 0, 1023, 0, 255), 255);
}

#[test]
fn constrain_and_extremes() {
    assert_eq!(constrain(-5, 0, 10), 0);
    assert_eq!(constrain(5, 0, 10), 5);
    assert_eq!(abs(i64::MAX), i64::MAX);
    assert_eq!(abs(-1), 1);
    assert_eq!(max(-3, -9), -3);
    assert_eq!(min(-3, -9), -9);
}

#[test]
fn bit_write_reads_back_and_keeps_other_bits() {
    for i in 0u8..32 {
        let v = 0xA5A5_5A5Au32;
        let set = bitWrite(v, i, true);
        let clear = bitWrite(v, i, false);
        assert!(bitRead(set, i));
        assert!(!bitRead(clear, i));
        for j in 0u8..32 {
            if j != i {
                assert_eq!(bitRead(set, j), bitRead(v, j));
                assert_eq!(bitRead(clear, j), bitRead(v, j));
            }
        }
    }
    for v in [0u16, 1, 0x00FF, 0xFF00, 0xABCD, u16::MAX] {
        assert_eq!(highByte(v) as u16 * 256 + lowByte(v) as u16, v);
    }
}

#[test]
fn character_classes_reject_their_complements() {
    assert!(!isAlpha('1'));
    assert!(!isDigit('a'));
    assert!(!isAscii('é'));
    assert!(!isControl('a'));
    assert!(isControl('\u{7f}'));
    assert!(!isGraph(' '));
    assert!(!isHexadecimalDigit('g'));
    assert!(!isLowerCase('M'));
    assert!(!isPrintable('\n'));
    assert!(!isPunct('a'));
    assert!(!isPunct(' '));
    assert!(!isSpace('\t'));
    assert!(!isUpperCase('q'));
    assert!(isWhitespace('\u{3000}'));
    assert!(!isWhitespace('x'));
}

#[test]
fn interrupt_handlers_run_only_when_enabled_and_attached() {
    let mut table: InterruptTable<&'static str> = InterruptTable::new();
    assert_eq!(digitalPinToInterrupt(7), 7);
    assert!(triggerInterrupt(&table, 2).is_none());
    attachInterrupt(&mut table, 2, "rising");
    assert_eq!(triggerInterrupt(&table, 2), Some(&"rising"));
    noInterrupts(&mut table);
    assert!(triggerInterrupt(&table, 2).is_none());
    interrupts(&mut table);
    assert_eq!(triggerInterrupt(&table, 2), Some(&"rising"));
    detachInterrupt(&mut table, 2);
    assert!(triggerInterrupt(&table, 2).is_none());
}

#[test]
fn random_edges() {
    let mut rng = default_rng();
    assert_eq!(random(&mut rng, 0), 0);
    assert_eq!(random(&mut rng, -5), 0);
    assert_eq!(randomRange(&mut rng, 10, 10), 10);
    assert_eq!(randomRange(&mut rng, 10, 3), 10);
    for _ in 0..100 {
        let r = random(&mut rng, 7);
        assert!((0..7).contains(&r));
    }
}

#[test]
fn shift_bits_follow_the_order_and_round_trip() {
    let v = 0b1010_0101u8;
    let msb = shift_out_bits(BitOrder::MsbFirst, v);
    assert_eq!(msb, vec![true, false, true, false, false, true, false, true]);
    let lsb = shift_out_bits(BitOrder::LsbFirst, 0b0000_0011);
    assert_eq!(lsb, vec![true, true, false, false, false, false, false, false]);
    assert!(shift_out_bit(BitOrder::MsbFirst, 0x80, 0));
    assert!(!shift_out_bit(BitOrder::LsbFirst, 0x80, 0));
    for value in 0u8..=255 {
        for order in [BitOrder::LsbFirst, BitOrder::MsbFirst] {
            let bits = shift_out_bits(order, value);
            assert_eq!(shift_in_value(order, &bits), value);
        }
    }
}

#[test]
fn pulse_meter_measures_and_times_out() {
    let mut m = PulseMeter::new(true, 1_000, 100);
    assert_eq!(m.step(110, false), PulseStep::Continue);
    assert_eq!(m.step(150, true), PulseStep::Continue);
    assert_eq!(m.step(170, true), PulseStep::Continue);
    assert_eq!(m.step(400, false), PulseStep::Measured(250));
    assert_eq!(pulse_width_us(PulseStep::Measured(250)), 250);

    let mut t = PulseMeter::new(true, 1_000, 0);
    assert_eq!(t.step(999, false), PulseStep::Continue);
    assert_eq!(t.step(1_000, false), PulseStep::TimedOut);
    assert_eq!(pulse_width_us(PulseStep::TimedOut), 0);
    assert_eq!(pulse_width_u32(u64::from(u32::MAX) + 5), 4);
}

#[test]
fn analog_reference_names() {
    assert_eq!(reference_name(AnalogReference::Default), "default");
    assert_eq!(reference_name(AnalogReference::Internal), "internal");
    assert_eq!(reference_name(AnalogReference::External), "external");
    assert_eq!(reference_name(AnalogReference::Custom("vref2".to_string())), "vref2");
}
