use canweeb::tui::{
    frequency_at_least_one, stepped_frequency, CommitRequest, InputTarget, PanelAction, PanelInput,
    PanelKey,
};

#[test]
fn keys_choose_actions() {
    let mut p = PanelInput::new();
    assert_eq!(p.handle_key(PanelKey::Quit), PanelAction::Quit);
    assert_eq!(p.handle_key(PanelKey::Char('q')), PanelAction::Quit);
    assert_eq!(p.handle_key(PanelKey::Char('+')), PanelAction::StepDuty(true));
    assert_eq!(p.handle_key(PanelKey::DutyDown), PanelAction::StepDuty(false));
    assert_eq!(p.handle_key(PanelKey::FrequencyUp), PanelAction::StepFrequency(true));
    assert_eq!(p.handle_key(PanelKey::DutyMax), PanelAction::DutyToMax);
    assert_eq!(p.handle_key(PanelKey::Enter), PanelAction::Commit);
    assert_eq!(p.handle_key(PanelKey::Other), PanelAction::Stay);
    assert_eq!(p.buffer, "");
}

#[test]
fn typing_and_editing_the_input() {
    let mut p = PanelInput::new();
    assert_eq!(p.current_target_name(), "duty");
    for c in ['4', '2', 'x', '.', '5'] {
        p.handle_key(PanelKey::Char(c));
    }
    assert_eq!(p.buffer, "42.5");
    p.handle_key(PanelKey::Backspace);
    assert_eq!(p.buffer, "42.");
    p.handle_key(PanelKey::Char('f'));
    assert_eq!(p.target, InputTarget::Frequency);
    assert_eq!(p.buffer, "");
    assert_eq!(p.status, "input target set to frequency");
    assert_eq!(p.target_hint(), "type frequency in Hz and press Enter");
    p.handle_key(PanelKey::Char('7'));
    p.handle_key(PanelKey::Char('c'));
    assert_eq!(p.buffer, "");
    assert_eq!(p.status, "input cleared");
    p.handle_key(PanelKey::Backspace);
    assert_eq!(p.buffer, "");
}

#[test]
fn committing_the_input() {
    let mut p = PanelInput::new();
    assert!(matches!(p.commit_input(), CommitRequest::Cleared));
    assert_eq!(p.status, "input cleared");
    p.buffer = " 33.5 ".to_string();
    assert!(matches!(p.commit_input(), CommitRequest::Duty(ref t) if t == "33.5"));
    p.handle_key(PanelKey::Char('f'));
    p.buffer = "25000".to_string();
    assert!(matches!(p.commit_input(), CommitRequest::Frequency(25000)));
    p.buffer = "1.5".to_string();
    assert!(matches!(p.commit_input(), CommitRequest::Invalid(ref m) if m == "invalid frequency value"));
    p.handle_key(PanelKey::Char('p'));
    p.buffer = "300".to_string();
    assert!(matches!(p.commit_input(), CommitRequest::Invalid(ref m) if m == "invalid pin value"));
    p.buffer = "18".to_string();
    assert!(matches!(p.commit_input(), CommitRequest::Pin(18)));
    assert_eq!(p.buffer, "");
}

#[test]
fn frequency_steps_stay_in_range() {
    assert_eq!(stepped_frequency(25_000, 1_000), 26_000);
    assert_eq!(stepped_frequency(500, -1_000), 1);
    assert_eq!(stepped_frequency(u32::MAX - 1, 10), u32::MAX);
    assert_eq!(stepped_frequency(10, i32::MIN), 1);
    assert_eq!(frequency_at_least_one(0), 1);
    assert_eq!(frequency_at_least_one(7), 7);
}
