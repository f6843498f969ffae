//! The boot manager's session once the images are found: menu, boot,
//! result message, and back to the menu, until the user leaves or the
//! firmware must be reset.
//!
//! The menu, the boot attempt and the messages are the caller's work; this
//! module decides, from what each of them gave back, what comes next.

use vstd::prelude::*;

verus! {

/// Where the session stands.
#[derive(Debug, Clone, Copy, PartialEq, Eq, Structural)]
pub enum SessionPhase {
    /// The menu is to be shown.
    Menu,
    /// The chosen image is being started.
    Booting,
    /// The outcome of the last boot is being shown.
    Message,
    /// The session is over.
    Done,
}

/// The state of the session.
#[derive(Debug, Clone, Copy, PartialEq, Eq, Structural)]
pub struct Session {
    pub phase: SessionPhase,
    /// The menu has not been shown yet, so it may start its default entry
    /// on its own after the timeout.
    pub first_display: bool,
    /// Images started so far.
    pub attempt: u64,
}

/// What the caller reports back.
#[derive(Debug, Clone, Copy, PartialEq, Eq, Structural)]
pub enum SessionEvent {
    /// The menu was left without choosing an image.
    NoneSelected,
    /// An image was chosen.
    Selected,
    /// The boot attempt returned; `can_retry` is false when the firmware
    /// kept resources of it.
    BootEnded { can_retry: bool },
    /// A key was pressed on the result message.
    MessageKey { escape: bool },
}

/// What the caller is to do next.
#[derive(Debug, Clone, Copy, PartialEq, Eq, Structural)]
pub enum SessionAction {
    /// Show the menu.
    ShowMenu { first_display: bool },
    /// Start the chosen image.
    Boot,
    /// Show the outcome of the boot and wait for a key.
    ShowResult,
    /// Tell the user and reset the machine: the firmware still holds
    /// callbacks of this program.
    ResetMachine,
    /// Leave the boot manager successfully.
    Exit,
}

/// The session before the menu is first shown.
pub open spec fn initial_session() -> Session {
    Session { phase: SessionPhase::Menu, first_display: true, attempt: 0 }
}

/// The action the caller is asked for in a phase.
pub open spec fn phase_action(s: Session) -> SessionAction {
    match s.phase {
        SessionPhase::Menu => SessionAction::ShowMenu { first_display: s.first_display },
        SessionPhase::Booting => SessionAction::Boot,
        SessionPhase::Message => SessionAction::ShowResult,
        SessionPhase::Done => SessionAction::Exit,
    }
}

/// The next state and action after `event` in state `s`; an event that does
/// not belong to the phase changes nothing and repeats the phase's action.
pub open spec fn session_step(s: Session, event: SessionEvent) -> (Session, SessionAction) {
    match (s.phase, event) {
        (SessionPhase::Menu, SessionEvent::NoneSelected) => (
            Session { phase: SessionPhase::Done, ..s },
            SessionAction::Exit,
        ),
        (SessionPhase::Menu, SessionEvent::Selected) => (
            Session {
                phase: SessionPhase::Booting,
                first_display: false,
                attempt: if s.attempt == u64::MAX {
                    u64::MAX
                } else {
                    (s.attempt + 1) as u64
                },
            },
            SessionAction::Boot,
        ),
        (SessionPhase::Booting, SessionEvent::BootEnded { can_retry }) => if can_retry {
            (Session { phase: SessionPhase::Message, ..s }, SessionAction::ShowResult)
        } else {
            (Session { phase: SessionPhase::Done, ..s }, SessionAction::ResetMachine)
        },
        (SessionPhase::Message, SessionEvent::MessageKey { escape }) => if escape {
            (Session { phase: SessionPhase::Done, ..s }, SessionAction::Exit)
        } else {
            (
                Session { phase: SessionPhase::Menu, ..s },
                SessionAction::ShowMenu { first_display: s.first_display },
            )
        },
        _ => (s, phase_action(s)),
    }
}

impl Session {
    /// The session once images were found: the menu comes first.
    pub fn new() -> (r: (Self, SessionAction))
        ensures
            r.0 == initial_session(),
            r.1 == phase_action(initial_session()),
    {
        let s = Session { phase: SessionPhase::Menu, first_display: true, attempt: 0 };
        (s, SessionAction::ShowMenu { first_display: true })
    }

    /// The next state and action after `event`.
    pub fn step(self, event: SessionEvent) -> (r: (Self, SessionAction))
        ensures
            r == session_step(self, event),
    {
        let s = self;
        match (s.phase, event) {
            (SessionPhase::Menu, SessionEvent::NoneSelected) => (
                Session { phase: SessionPhase::Done, ..s },
                SessionAction::Exit,
            ),
            (SessionPhase::Menu, SessionEvent::Selected) => (
                Session { phase: SessionPhase::Booting, first_display: false, attempt: s.attempt.saturating_add(1) },
                SessionAction::Boot,
            ),
            (SessionPhase::Booting, SessionEvent::BootEnded { can_retry }) => {
                if can_retry {
                    (Session { phase: SessionPhase::Message, ..s }, SessionAction::ShowResult)
                } else {
                    (Session { phase: SessionPhase::Done, ..s }, SessionAction::ResetMachine)
                }
            },
            (SessionPhase::Message, SessionEvent::MessageKey { escape }) => {
                if escape {
                    (Session { phase: SessionPhase::Done, ..s }, SessionAction::Exit)
                } else {
                    (Session { phase: SessionPhase::Menu, ..s }, SessionAction::ShowMenu { first_display: s.first_display })
                }
            },
            _ => {
                let action = match s.phase {
                    SessionPhase::Menu => SessionAction::ShowMenu { first_display: s.first_display },
                    SessionPhase::Booting => SessionAction::Boot,
                    SessionPhase::Message => SessionAction::ShowResult,
                    SessionPhase::Done => SessionAction::Exit,
                };
                (s, action)
            },
        }
    }
}

/// The menu may start an entry on its own only before the first boot: in
/// every state reached from the start, the menu's first display is pending
/// exactly when no image has been started.
pub open spec fn session_inv(s: Session) -> bool {
    s.first_display <==> s.attempt == 0
}

/// Every step keeps `session_inv`, which holds at the start; the count of
/// started images never goes down, only a step that asks for a boot moves
/// it, and a boot is asked for only in the booting phase.
pub proof fn lemma_session_step_keeps_inv(s: Session, event: SessionEvent)
    requires
        session_inv(s),
    ensures
        session_inv(initial_session()),
        session_inv(session_step(s, event).0),
        s.attempt <= session_step(s, event).0.attempt,
        session_step(s, event).1 == SessionAction::Boot ==> session_step(s, event).0.phase == SessionPhase::Booting,
        session_step(s, event).0.attempt != s.attempt ==> session_step(s, event).1 == SessionAction::Boot,
{
}

/// Once the session is over it stays over.
pub proof fn lemma_done_is_final(s: Session, event: SessionEvent)
    requires
        s.phase == SessionPhase::Done,
    ensures
        session_step(s, event).0 == s,
        session_step(s, event).1 == SessionAction::Exit,
{
}

} // verus!
