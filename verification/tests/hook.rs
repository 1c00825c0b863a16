use rigela::chord::Chord;
use rigela::hook::{
    decode, CaptureSession, HookAction, HookController, InstallError, KeyEvent, Reaction,
    UninstallError, Verdict, LLKHF_EXTENDED, WM_KEYDOWN, WM_SYSKEYDOWN,
};
use rigela::key::KeyId;
use rigela::recognizer::Edge;

const WM_KEYUP: u32 = 0x0101;
const WM_SYSKEYUP: u32 = 0x0105;

fn down(code: u32) -> KeyEvent {
    KeyEvent { message: WM_KEYDOWN, code, flags: 0 }
}

fn up(code: u32) -> KeyEvent {
    KeyEvent { message: WM_KEYUP, code, flags: 0 }
}

const SWALLOW: Reaction = Reaction { action: HookAction::Swallow, notify: false };
const FORWARD: Reaction = Reaction { action: HookAction::Forward, notify: false };
const WAKE: Reaction = Reaction { action: HookAction::Forward, notify: true };

#[test]
fn decode_reads_message_and_flags() {
    assert_eq!(decode(down(0x41)), Edge::Press(KeyId::new(0x41, false)));
    assert_eq!(decode(up(0x41)), Edge::Release(KeyId::new(0x41, false)));
    let event = KeyEvent { message: WM_SYSKEYDOWN, code: 0x12, flags: 0x21 };
    assert_eq!(decode(event), Edge::Press(KeyId::new(0x12, true)));
    let event = KeyEvent { message: WM_SYSKEYUP, code: 0x12, flags: 0x80 | LLKHF_EXTENDED };
    assert_eq!(decode(event), Edge::Release(KeyId::new(0x12, true)));
    let event = KeyEvent { message: WM_KEYDOWN, code: 0x0D, flags: 0xFE };
    assert_eq!(decode(event), Edge::Press(KeyId::new(0x0D, false)));
}

#[test]
fn session_swallows_the_presses_and_wakes_the_consumer() {
    let mut session = CaptureSession::new();
    assert_eq!(session.on_event(up(0x41)), FORWARD);
    assert_eq!(session.on_event(down(0x11)), SWALLOW);
    assert_eq!(session.on_event(down(0x4D)), SWALLOW);
    assert!(!session.has_result());
    assert_eq!(session.on_event(up(0x4D)), WAKE);
    assert!(session.has_result());
    assert_eq!(session.on_event(up(0x11)), FORWARD);
    assert_eq!(session.on_event(down(0x41)), FORWARD);
    assert_eq!(session.on_event(up(0x41)), FORWARD);
    assert_eq!(session.take_result(), Some(Verdict::Committed(Chord::parse("Ctrl+M").unwrap())));
    assert_eq!(session.take_result(), None);
    assert!(!session.has_result());
    assert_eq!(session.on_event(down(0x1B)), SWALLOW);
    assert_eq!(session.on_event(up(0x1B)), WAKE);
    assert_eq!(session.take_result(), Some(Verdict::Cancelled));
    assert_eq!(session.take_result(), None);
}

#[test]
fn session_takes_edges() {
    let mut session = CaptureSession::new();
    assert_eq!(session.on_edge(Edge::Press(KeyId::new(0x0D, false))), SWALLOW);
    assert_eq!(session.on_edge(Edge::Release(KeyId::new(0x0D, false))), WAKE);
    assert_eq!(session.take_result(), Some(Verdict::Cancelled));
    assert_eq!(session.on_edge(Edge::Press(KeyId::new(0x0D, true))), SWALLOW);
    assert_eq!(session.on_edge(Edge::Release(KeyId::new(0x0D, true))), WAKE);
    let numpad_enter = Chord::parse("NumPadEnter").unwrap();
    assert_eq!(session.take_result(), Some(Verdict::Committed(numpad_enter)));
}

#[test]
fn controller_installs_one_listener_at_a_time() {
    let mut controller = HookController::new();
    assert!(!controller.is_installed());
    assert_eq!(controller.on_event(down(0x41)), FORWARD);
    assert_eq!(controller.take_result(), None);
    assert_eq!(controller.install(false, true).unwrap_err(), InstallError::Refused);
    assert!(!controller.is_installed());
    let handle = controller.install(true, true).unwrap();
    assert!(controller.is_installed());
    assert_eq!(controller.install(true, false).unwrap_err(), InstallError::AlreadyInstalled);
    assert_eq!(controller.install(false, true).unwrap_err(), InstallError::AlreadyInstalled);
    assert_eq!(controller.on_event(down(0x41)), SWALLOW);
    assert_eq!(controller.on_event(up(0x41)), WAKE);
    assert_eq!(controller.take_result(), Some(Verdict::Committed(Chord::parse("A").unwrap())));
    assert_eq!(controller.take_result(), None);
    assert_eq!(controller.uninstall(handle), Ok(()));
    assert!(!controller.is_installed());
    assert_eq!(controller.on_event(down(0x41)), FORWARD);
}

#[test]
fn uninstall_discards_the_capture_and_refuses_stale_handles() {
    let mut controller = HookController::new();
    let first = controller.install(true, true).unwrap();
    assert_eq!(controller.on_event(down(0x11)), SWALLOW);
    assert_eq!(controller.uninstall(first), Ok(()));
    let second = controller.install(true, true).unwrap();
    assert_eq!(controller.on_event(up(0x11)), FORWARD);
    assert_eq!(controller.on_event(down(0x4B)), SWALLOW);
    assert_eq!(controller.on_event(up(0x4B)), WAKE);
    assert_eq!(controller.uninstall(second), Ok(()));
    assert_eq!(controller.take_result(), None);

    let mut other = HookController::new();
    let a = other.install(true, true).unwrap();
    other.uninstall(a).unwrap();
    let _b = other.install(true, true).unwrap();
    let mut third = HookController::new();
    let stale = third.install(true, true).unwrap();
    assert_eq!(other.uninstall(stale), Err(UninstallError::StaleHandle));
    assert!(other.is_installed());
}

#[test]
fn watching_session_forwards_every_event() {
    let mut session = CaptureSession::watching();
    assert_eq!(session.on_event(up(0x41)), FORWARD);
    assert_eq!(session.on_event(down(0x11)), FORWARD);
    assert_eq!(session.on_event(down(0x4D)), FORWARD);
    assert_eq!(session.on_event(up(0x4D)), WAKE);
    assert_eq!(session.on_event(up(0x11)), FORWARD);
    assert_eq!(session.take_result(), Some(Verdict::Committed(Chord::parse("Ctrl+M").unwrap())));
    assert_eq!(session.on_event(down(0x1B)), FORWARD);
    assert_eq!(session.on_event(up(0x1B)), WAKE);
    assert_eq!(session.take_result(), Some(Verdict::Cancelled));
}

#[test]
fn controller_installs_a_listener_that_only_watches() {
    let mut controller = HookController::new();
    let handle = controller.install(true, false).unwrap();
    assert_eq!(controller.on_event(down(0x41)), FORWARD);
    assert_eq!(controller.on_event(up(0x41)), WAKE);
    assert_eq!(controller.take_result(), Some(Verdict::Committed(Chord::parse("A").unwrap())));
    assert_eq!(controller.uninstall(handle), Ok(()));
}
