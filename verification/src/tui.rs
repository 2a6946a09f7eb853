//! The decisions of the interactive PWM panel: which key does what, how the
//! typed input is edited, and what a committed input asks for. Drawing the
//! panel, reading keys and driving the PWM output happen outside.
use crate::text::{
    chars_of, parse_unsigned, parse_unsigned_chars, push_char, string_of, sub_chars, trim, trim_chars,
};
use vstd::prelude::*;

verus! {

/// What typed input is for.
#[derive(Debug, Clone, Copy, PartialEq, Eq, Structural)]
pub enum InputTarget {
    Duty,
    Frequency,
    Pin,
}

/// A key, as the panel tells keys apart.
#[derive(Debug, Clone, Copy, PartialEq, Eq, Structural)]
pub enum PanelKey {
    /// `q` or Escape.
    Quit,
    /// `+` or Right.
    DutyUp,
    /// `-` or Left.
    DutyDown,
    /// Up.
    FrequencyUp,
    /// Down.
    FrequencyDown,
    /// Home.
    DutyMin,
    /// End.
    DutyMax,
    Backspace,
    Enter,
    /// Any other character.
    Char(char),
    /// Any other key.
    Other,
}

/// What the panel does next, after a key.
#[derive(Debug, Clone, Copy, PartialEq, Eq, Structural)]
pub enum PanelAction {
    /// Leave the panel.
    Quit,
    /// Move the duty one step up (`true`) or down.
    StepDuty(bool),
    /// Move the frequency one step up (`true`) or down.
    StepFrequency(bool),
    /// Set the duty to the lowest allowed.
    DutyToMin,
    /// Set the duty to the highest allowed.
    DutyToMax,
    /// Apply the typed input.
    Commit,
    /// Nothing more than what the key did to the input.
    Stay,
}

/// The input line of the panel.
#[derive(Debug)]
pub struct PanelInput {
    pub target: InputTarget,
    pub buffer: String,
    pub status: String,
}

/// What a committed input asks for.
#[derive(Debug)]
pub enum CommitRequest {
    /// The input was blank; it is cleared.
    Cleared,
    /// A duty, still as text (duties are not whole numbers).
    Duty(String),
    Frequency(u32),
    Pin(u8),
    /// The input did not read as a value for the target; the message says
    /// which.
    Invalid(String),
}

pub open spec fn target_name_of(t: InputTarget) -> Seq<char> {
    match t {
        InputTarget::Duty => "duty"@,
        InputTarget::Frequency => "frequency"@,
        InputTarget::Pin => "pin"@,
    }
}

pub open spec fn target_hint_of(t: InputTarget) -> Seq<char> {
    match t {
        InputTarget::Duty => "type duty percent and press Enter"@,
        InputTarget::Frequency => "type frequency in Hz and press Enter"@,
        InputTarget::Pin => "type GPIO number and press Enter"@,
    }
}

/// The input target a key selects, if it selects one.
pub open spec fn selected_target(key: PanelKey) -> Option<InputTarget> {
    match key {
        PanelKey::Char('d') => Some(InputTarget::Duty),
        PanelKey::Char('f') => Some(InputTarget::Frequency),
        PanelKey::Char('p') => Some(InputTarget::Pin),
        _ => None,
    }
}

/// A character that can be typed into the input: a decimal digit or a dot.
pub open spec fn typable(c: char) -> bool {
    ('0' <= c && c <= '9') || c == '.'
}

/// The action a key leads to.
pub open spec fn key_action(key: PanelKey) -> PanelAction {
    match key {
        PanelKey::Quit => PanelAction::Quit,
        PanelKey::Char('q') => PanelAction::Quit,
        PanelKey::DutyUp => PanelAction::StepDuty(true),
        PanelKey::Char('+') => PanelAction::StepDuty(true),
        PanelKey::DutyDown => PanelAction::StepDuty(false),
        PanelKey::Char('-') => PanelAction::StepDuty(false),
        PanelKey::FrequencyUp => PanelAction::StepFrequency(true),
        PanelKey::FrequencyDown => PanelAction::StepFrequency(false),
        PanelKey::DutyMin => PanelAction::DutyToMin,
        PanelKey::DutyMax => PanelAction::DutyToMax,
        PanelKey::Enter => PanelAction::Commit,
        _ => PanelAction::Stay,
    }
}

/// Which way an action moves the frequency: up (`Some(true)`), down
/// (`Some(false)`), or not at all.
pub open spec fn frequency_direction(a: PanelAction) -> Option<bool> {
    match a {
        PanelAction::StepFrequency(up) => Some(up),
        _ => None,
    }
}

/// Which way an action moves the duty by one step.
pub open spec fn duty_direction(a: PanelAction) -> Option<bool> {
    match a {
        PanelAction::StepDuty(up) => Some(up),
        _ => None,
    }
}

/// The arrow keys step the frequency (Up raises it, Down lowers it) and
/// the duty (Right and `+` raise it, Left and `-` lower it); each pair moves
/// in opposite directions, and no other key steps either. Home and End set
/// the duty to its ends, Enter applies the input, and `q` or Escape quits.
pub proof fn law_key_directions(key: PanelKey)
    ensures
        frequency_direction(key_action(PanelKey::FrequencyUp)) == Some(true),
        frequency_direction(key_action(PanelKey::FrequencyDown)) == Some(false),
        duty_direction(key_action(PanelKey::DutyUp)) == Some(true),
        duty_direction(key_action(PanelKey::Char('+'))) == Some(true),
        duty_direction(key_action(PanelKey::DutyDown)) == Some(false),
        duty_direction(key_action(PanelKey::Char('-'))) == Some(false),
        frequency_direction(key_action(key)) is Some <==> (key == PanelKey::FrequencyUp || key == PanelKey::FrequencyDown),
        duty_direction(key_action(key)) is Some <==> (key == PanelKey::DutyUp || key == PanelKey::DutyDown || key
            == PanelKey::Char('+') || key == PanelKey::Char('-')),
        key_action(PanelKey::DutyMin) == PanelAction::DutyToMin,
        key_action(PanelKey::DutyMax) == PanelAction::DutyToMax,
        key_action(PanelKey::Enter) == PanelAction::Commit,
        key_action(PanelKey::Quit) == PanelAction::Quit,
        key_action(PanelKey::Char('q')) == PanelAction::Quit,
{
}

impl PanelInput {
    /// A fresh input line: typing a duty, nothing typed, ready.
    pub fn new() -> (p: PanelInput)
        ensures
            p.target == InputTarget::Duty,
            p.buffer@.len() == 0,
            p.status@ == "ready"@,
    {
        PanelInput { target: InputTarget::Duty, buffer: String::new(), status: String::from_str("ready") }
    }

    /// The name of the input target.
    pub fn current_target_name(&self) -> (s: &'static str)
        ensures
            s@ == target_name_of(self.target),
    {
        match self.target {
            InputTarget::Duty => "duty",
            InputTarget::Frequency => "frequency",
            InputTarget::Pin => "pin",
        }
    }

    /// What to type for the input target.
    pub fn target_hint(&self) -> (s: &'static str)
        ensures
            s@ == target_hint_of(self.target),
    {
        match self.target {
            InputTarget::Duty => "type duty percent and press Enter",
            InputTarget::Frequency => "type frequency in Hz and press Enter",
            InputTarget::Pin => "type GPIO number and press Enter",
        }
    }

    /// Handles a key: edits the input where the key does so, and says what
    /// else it asks for. `d`, `f` and `p` choose the input target and clear
    /// the input, `c` clears it, Backspace takes the last character off,
    /// and digits and dots are typed in.
    pub fn handle_key(&mut self, key: PanelKey) -> (action: PanelAction)
        ensures
            action == key_action(key),
            final(self).target == match selected_target(key) {
                Some(t) => t,
                None => old(self).target,
            },
            selected_target(key) is Some ==> final(self).buffer@.len() == 0 && final(self).status@ == "input target set to "@
                + target_name_of(final(self).target),
            key == PanelKey::Char('c') ==> final(self).buffer@.len() == 0 && final(self).status@ == "input cleared"@,
            key == PanelKey::Backspace ==> final(self).buffer@ == (if old(self).buffer@.len() > 0 {
                old(self).buffer@.drop_last()
            } else {
                old(self).buffer@
            }) && final(self).status == old(self).status,
            (key matches PanelKey::Char(ch) && selected_target(key) is None && ch != 'c' && typable(ch))
                ==> final(self).buffer@ == old(self).buffer@.push(key->Char_0) && final(self).status == old(self).status,
            !(key matches PanelKey::Char(_)) && key != PanelKey::Backspace ==> final(self).buffer == old(self).buffer
                && final(self).status == old(self).status,
            (key matches PanelKey::Char(ch) && selected_target(key) is None && ch != 'c' && !typable(ch))
                ==> final(self).buffer == old(self).buffer && final(self).status == old(self).status,
    {
        match key {
            PanelKey::Char('d') => {
                self.select(InputTarget::Duty);
                PanelAction::Stay
            },
            PanelKey::Char('f') => {
                self.select(InputTarget::Frequency);
                PanelAction::Stay
            },
            PanelKey::Char('p') => {
                self.select(InputTarget::Pin);
                PanelAction::Stay
            },
            PanelKey::Char('c') => {
                self.buffer = String::new();
                self.status = String::from_str("input cleared");
                PanelAction::Stay
            },
            PanelKey::Char('q') => PanelAction::Quit,
            PanelKey::Char('+') => PanelAction::StepDuty(true),
            PanelKey::Char('-') => PanelAction::StepDuty(false),
            PanelKey::Char(ch) => {
                if ('0' <= ch && ch <= '9') || ch == '.' {
                    push_char(&mut self.buffer, ch);
                }
                PanelAction::Stay
            },
            PanelKey::Backspace => {
                let chars = chars_of(self.buffer.as_str());
                if chars.len() > 0 {
                    let front = sub_chars(chars.as_slice(), 0, chars.len() - 1);
                    let kept = string_of(front.as_slice());
                    proof {
                        assert(front@ =~= chars@.drop_last());
                    }
                    self.buffer = kept;
                }
                PanelAction::Stay
            },
            PanelKey::Quit => PanelAction::Quit,
            PanelKey::DutyUp => PanelAction::StepDuty(true),
            PanelKey::DutyDown => PanelAction::StepDuty(false),
            PanelKey::FrequencyUp => PanelAction::StepFrequency(true),
            PanelKey::FrequencyDown => PanelAction::StepFrequency(false),
            PanelKey::DutyMin => PanelAction::DutyToMin,
            PanelKey::DutyMax => PanelAction::DutyToMax,
            PanelKey::Enter => PanelAction::Commit,
            PanelKey::Other => PanelAction::Stay,
        }
    }

    fn select(&mut self, target: InputTarget)
        ensures
            final(self).target == target,
            final(self).buffer@.len() == 0,
            final(self).status@ == "input target set to "@ + target_name_of(target),
    {
        self.target = target;
        self.buffer = String::new();
        let name = self.current_target_name();
        let mut status = String::from_str("input target set to ");
        let cs = chars_of(name);
        let mut i: usize = 0;
        while i < cs.len()
            invariant
                i <= cs@.len(),
                cs@ == target_name_of(target),
                status@ == "input target set to "@ + cs@.subrange(0, i as int),
            decreases cs@.len() - i,
        {
            push_char(&mut status, cs[i]);
            proof {
                assert(cs@.subrange(0, i + 1) =~= cs@.subrange(0, i as int).push(cs@[i as int]));
            }
            i = i + 1;
        }
        proof {
            assert(cs@.subrange(0, cs@.len() as int) =~= cs@);
        }
        self.status = status;
    }

    /// Takes the typed input away and says what it asks for: nothing when it
    /// is blank, else a value for the input target, read after trimming.
    pub fn commit_input(&mut self) -> (r: CommitRequest)
        ensures
            final(self).target == old(self).target,
            final(self).buffer@.len() == 0,
            final(self).status == old(self).status || (r is Cleared && final(self).status@ == "input cleared"@),
            ({
                let raw = trim(old(self).buffer@);
                if raw.len() == 0 {
                    r is Cleared && final(self).status@ == "input cleared"@
                } else {
                    match old(self).target {
                        InputTarget::Duty => r matches CommitRequest::Duty(t) && t@ == raw,
                        InputTarget::Frequency => match parse_unsigned(raw, 4294967295) {
                            Some(v) => r matches CommitRequest::Frequency(f) && f == v,
                            None => r matches CommitRequest::Invalid(m) && m@ == "invalid frequency value"@,
                        },
                        InputTarget::Pin => match parse_unsigned(raw, 255) {
                            Some(v) => r matches CommitRequest::Pin(p) && p == v,
                            None => r matches CommitRequest::Invalid(m) && m@ == "invalid pin value"@,
                        },
                    }
                }
            }),
    {
        let raw = trim_chars(chars_of(self.buffer.as_str()).as_slice());
        self.buffer = String::new();
        if raw.len() == 0 {
            self.status = String::from_str("input cleared");
            return CommitRequest::Cleared;
        }
        match self.target {
            InputTarget::Duty => CommitRequest::Duty(string_of(raw.as_slice())),
            InputTarget::Frequency => match parse_unsigned_chars(raw.as_slice(), 4294967295) {
                Some(v) => CommitRequest::Frequency(v as u32),
                None => CommitRequest::Invalid(String::from_str("invalid frequency value")),
            },
            InputTarget::Pin => match parse_unsigned_chars(raw.as_slice(), 255) {
                Some(v) => CommitRequest::Pin(v as u8),
                None => CommitRequest::Invalid(String::from_str("invalid pin value")),
            },
        }
    }
}

/// The frequency after a step of `delta_hz`, kept between 1 and the largest
/// `u32` (`PwmOutput::step_frequency`).
pub fn stepped_frequency(frequency_hz: u32, delta_hz: i32) -> (f: u32)
    ensures
        f as int == if frequency_hz + delta_hz < 1 {
            1
        } else if frequency_hz + delta_hz > u32::MAX {
            u32::MAX as int
        } else {
            frequency_hz + delta_hz
        },
{
    let next: u32 = if delta_hz < 0 {
        let down: u32 = (-(delta_hz as i64)) as u32;
        frequency_hz.saturating_sub(down)
    } else {
        frequency_hz.saturating_add(delta_hz as u32)
    };
    if next < 1 { 1 } else { next }
}

/// A frequency of at least 1 Hz (`PwmOutput::frequency`).
pub fn frequency_at_least_one(frequency_hz: u32) -> (f: u32)
    ensures
        f == if frequency_hz < 1 { 1 } else { frequency_hz },
{
    if frequency_hz < 1 { 1 } else { frequency_hz }
}

} // verus!
