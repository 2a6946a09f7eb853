//! Quadrature decoding of a two-channel rotary encoder.
use crate::error::CmdError;
use vstd::prelude::*;

verus! {

/// The two channel levels packed as `A` in bit 1 and `B` in bit 0.
pub open spec fn spec_state(a_high: bool, b_high: bool) -> u8 {
    ((if a_high { 2u8 } else { 0u8 }) + (if b_high { 1u8 } else { 0u8 })) as u8
}

/// The state that follows `s` (its low two bits) when turning forward:
/// 00 -> 01 -> 11 -> 10 -> 00.
pub open spec fn forward_of(s: u8) -> u8 {
    let p = s % 4;
    if p == 0 {
        1
    } else if p == 1 {
        3
    } else if p == 3 {
        2
    } else {
        0
    }
}

/// One step forward counts +1, one step back -1; staying put or skipping a
/// state (an invalid transition) counts 0. Only the low two bits count.
pub open spec fn spec_delta(previous: u8, current: u8) -> int {
    if current % 4 == forward_of(previous) {
        1
    } else if previous % 4 == forward_of(current) {
        -1
    } else {
        0
    }
}

pub fn quadrature_state(a_high: bool, b_high: bool) -> (s: u8)
    ensures
        s == spec_state(a_high, b_high),
{
    let a: u8 = if a_high { 2 } else { 0 };
    let b: u8 = if b_high { 1 } else { 0 };
    a + b
}

pub fn quadrature_delta(previous_state: u8, current_state: u8) -> (d: i64)
    ensures
        d == spec_delta(previous_state, current_state),
{
    let code: u8 = ((previous_state & 3) << 2) | (current_state & 3);
    proof {
        assert(code == (previous_state % 4) * 4 + current_state % 4) by (bit_vector)
            requires
                code == ((previous_state & 3) << 2) | (current_state & 3),
        ;
    }
    if code == 0b0001 || code == 0b0111 || code == 0b1110 || code == 0b1000 {
        1
    } else if code == 0b0010 || code == 0b1011 || code == 0b1101 || code == 0b0100 {
        -1
    } else {
        0
    }
}

/// Turning back undoes turning forward: the two directions count opposite.
pub proof fn law_delta_antisymmetric(a: u8, b: u8)
    ensures
        spec_delta(a, b) == -spec_delta(b, a),
{
}

/// A full forward cycle of the four states counts four steps.
pub proof fn law_forward_cycle_counts_four()
    ensures
        spec_delta(0, 1) + spec_delta(1, 3) + spec_delta(3, 2) + spec_delta(2, 0) == 4,
        spec_delta(0, 2) + spec_delta(2, 3) + spec_delta(3, 1) + spec_delta(1, 0) == -4,
{
}

/// No change of state counts nothing.
pub proof fn law_no_change_counts_zero(s: u8)
    ensures
        spec_delta(s, s) == 0,
{
}

/// An encoder on two pins that accumulates quadrature steps.
#[derive(Debug, Clone)]
pub struct RotaryEncoder {
    pin_a: u8,
    pin_b: u8,
    state: u8,
    count: i64,
}

impl RotaryEncoder {
    pub closed spec fn spec_pin_a(&self) -> u8 {
        self.pin_a
    }

    pub closed spec fn spec_pin_b(&self) -> u8 {
        self.pin_b
    }

    /// The accumulated count.
    pub closed spec fn spec_count(&self) -> i64 {
        self.count
    }

    /// The last channel state seen.
    pub closed spec fn spec_state(&self) -> u8 {
        self.state
    }

    /// An encoder at count zero, both channels low.
    pub fn new(pin_a: u8, pin_b: u8) -> (r: Result<RotaryEncoder, CmdError>)
        ensures
            r matches Ok(e) && e.spec_pin_a() == pin_a && e.spec_pin_b() == pin_b
                && e.spec_count() == 0 && e.spec_state() == 0,
    {
        Ok(RotaryEncoder { pin_a, pin_b, state: 0, count: 0 })
    }

    pub fn pin_a(&self) -> (p: u8)
        ensures
            p == self.spec_pin_a(),
    {
        self.pin_a
    }

    pub fn pin_b(&self) -> (p: u8)
        ensures
            p == self.spec_pin_b(),
    {
        self.pin_b
    }

    /// The accumulated count.
    pub fn read(&self) -> (r: Result<i64, CmdError>)
        ensures
            r == Ok::<i64, CmdError>(self.spec_count()),
    {
        Ok(self.count)
    }

    /// Sets the count back to zero.
    pub fn reset(&mut self) -> (r: Result<(), CmdError>)
        ensures
            r is Ok,
            final(self).spec_count() == 0,
            final(self).spec_pin_a() == old(self).spec_pin_a(),
            final(self).spec_pin_b() == old(self).spec_pin_b(),
            final(self).spec_state() == old(self).spec_state(),
    {
        self.count = 0;
        Ok(())
    }

    /// Takes a sample of both channels and adds the step it shows
    /// (wrapping like the shared counter it stands for).
    pub fn sample(&mut self, a_high: bool, b_high: bool) -> (d: i64)
        ensures
            d == spec_delta(old(self).spec_state(), spec_state(a_high, b_high)),
            final(self).spec_state() == spec_state(a_high, b_high),
            final(self).spec_count() == vstd::wrapping::i64_specs::wrapping_add(
                old(self).spec_count(),
                d,
            ),
            final(self).spec_pin_a() == old(self).spec_pin_a(),
            final(self).spec_pin_b() == old(self).spec_pin_b(),
    {
        let s = quadrature_state(a_high, b_high);
        let d = quadrature_delta(self.state, s);
        self.state = s;
        self.count = self.count.wrapping_add(d);
        d
    }
}

} // verus!
