//! Plain value types shared by the command layer.
use vstd::prelude::*;

verus! {

#[derive(Debug, Clone, Copy, PartialEq, Eq, Structural)]
pub enum PinMode {
    Input,
    Output,
    Pwm,
    Analog,
    Interrupt,
}

#[derive(Debug, Clone, Copy, PartialEq, Eq, Structural)]
pub enum Level {
    Low,
    High,
}

#[derive(Debug, Clone, Copy, PartialEq, Eq, Structural)]
pub enum Pull {
    /// No pull resistor (`none` on the wire).
    Floating,
    Up,
    Down,
}

#[derive(Debug, Clone, Copy, PartialEq, Eq, Structural)]
pub enum SafetyState {
    Normal,
    EmergencyStopped,
}

} // verus!

verus! {

/// A game-pad snapshot. Stick and trigger positions are single-precision
/// values kept as their bit patterns.
#[derive(Debug, Clone, Copy, PartialEq, Eq, Structural)]
pub struct ControllerState {
    pub connected: bool,
    pub lx: u32,
    pub ly: u32,
    pub rx: u32,
    pub ry: u32,
    pub lt: u32,
    pub rt: u32,
    pub a: bool,
    pub b: bool,
    pub x: bool,
    pub y: bool,
    pub lb: bool,
    pub rb: bool,
    pub start: bool,
    pub select: bool,
}

impl ControllerState {
    /// Disconnected, sticks centred (0.0), nothing pressed.
    pub open spec fn spec_new() -> ControllerState {
        ControllerState {
            connected: false,
            lx: 0,
            ly: 0,
            rx: 0,
            ry: 0,
            lt: 0,
            rt: 0,
            a: false,
            b: false,
            x: false,
            y: false,
            lb: false,
            rb: false,
            start: false,
            select: false,
        }
    }

    /// Disconnected, sticks centred (0.0), nothing pressed.
    pub fn new() -> (c: ControllerState)
        ensures
            c == ControllerState::spec_new(),
    {
        ControllerState {
            connected: false,
            lx: 0,
            ly: 0,
            rx: 0,
            ry: 0,
            lt: 0,
            rt: 0,
            a: false,
            b: false,
            x: false,
            y: false,
            lb: false,
            rb: false,
            start: false,
            select: false,
        }
    }
}

} // verus!
