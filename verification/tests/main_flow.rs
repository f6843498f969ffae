use nextboot_boot::main_flow::{Session, SessionAction, SessionEvent, SessionPhase};

#[test]
fn session_starts_at_the_menu() {
    let (s, action) = Session::new();
    assert_eq!(action, SessionAction::ShowMenu { first_display: true });
    assert_eq!(s.attempt, 0);
    assert_eq!(s.phase, SessionPhase::Menu);
}

#[test]
fn leaving_the_menu_exits() {
    let (s, _) = Session::new();
    let (s, action) = s.step(SessionEvent::NoneSelected);
    assert_eq!(action, SessionAction::Exit);
    assert_eq!(s.phase, SessionPhase::Done);
    assert_eq!(s.step(SessionEvent::Selected).1, SessionAction::Exit);
}

#[test]
fn boot_result_returns_to_menu_without_timeout() {
    let (s, _) = Session::new();
    let (s, action) = s.step(SessionEvent::Selected);
    assert_eq!(action, SessionAction::Boot);
    assert_eq!(s.attempt, 1);
    assert!(!s.first_display);
    let (s, action) = s.step(SessionEvent::BootEnded { can_retry: true });
    assert_eq!(action, SessionAction::ShowResult);
    let (s, action) = s.step(SessionEvent::MessageKey { escape: false });
    assert_eq!(action, SessionAction::ShowMenu { first_display: false });
    let (s, action) = s.step(SessionEvent::Selected);
    assert_eq!(action, SessionAction::Boot);
    assert_eq!(s.attempt, 2);
    let (s, _) = s.step(SessionEvent::BootEnded { can_retry: true });
    let (s, action) = s.step(SessionEvent::MessageKey { escape: true });
    assert_eq!(action, SessionAction::Exit);
    assert_eq!(s.phase, SessionPhase::Done);
}

#[test]
fn retained_firmware_resources_force_a_reset() {
    let (s, _) = Session::new();
    let (s, _) = s.step(SessionEvent::Selected);
    let (s, action) = s.step(SessionEvent::BootEnded { can_retry: false });
    assert_eq!(action, SessionAction::ResetMachine);
    assert_eq!(s.phase, SessionPhase::Done);
}

#[test]
fn events_out_of_place_repeat_the_current_action() {
    let (s, _) = Session::new();
    let (same, action) = s.step(SessionEvent::BootEnded { can_retry: true });
    assert_eq!(same, s);
    assert_eq!(action, SessionAction::ShowMenu { first_display: true });
    let booting = Session { phase: SessionPhase::Booting, first_display: false, attempt: u64::MAX };
    assert_eq!(booting.step(SessionEvent::Selected).1, SessionAction::Boot);
    let menu = Session { phase: SessionPhase::Menu, first_display: false, attempt: u64::MAX };
    assert_eq!(menu.step(SessionEvent::Selected).0.attempt, u64::MAX);
}
