//! What the keyboard listener decides: how a raw key event becomes an edge,
//! whether the event is swallowed or forwarded, and how the result of a
//! gesture is handed to the consumer.

use crate::chord::Chord;
use crate::key::KeyId;
use crate::recognizer::{step, Edge, Outcome, Recognizer, Signal};
use vstd::prelude::*;

verus! {

/// Message number of a key press.
pub const WM_KEYDOWN: u32 = 0x0100;

/// Message number of a key press while Alt is held.
pub const WM_SYSKEYDOWN: u32 = 0x0104;

/// The bit of the event flags that marks an extended key.
pub const LLKHF_EXTENDED: u32 = 0x01;

/// A raw key event, as a low-level keyboard listener gets it: the message
/// number, the virtual-key code and the flags.
#[derive(Clone, Copy, Debug, PartialEq, Eq, Structural)]
pub struct KeyEvent {
    pub message: u32,
    pub code: u32,
    pub flags: u32,
}

/// The edge that a raw event stands for. The two key-down messages are
/// presses; every other message is a release.
pub open spec fn edge_of(event: KeyEvent) -> Edge {
    let key = KeyId { code: event.code, extended: event.flags & LLKHF_EXTENDED != 0 };
    if event.message == WM_KEYDOWN || event.message == WM_SYSKEYDOWN {
        Edge::Press(key)
    } else {
        Edge::Release(key)
    }
}

/// Reads a raw event as an edge.
pub fn decode(event: KeyEvent) -> (edge: Edge)
    ensures
        edge == edge_of(event),
{
    let key = KeyId { code: event.code, extended: event.flags & LLKHF_EXTENDED != 0 };
    if event.message == WM_KEYDOWN || event.message == WM_SYSKEYDOWN {
        Edge::Press(key)
    } else {
        Edge::Release(key)
    }
}

/// What becomes of an event.
#[derive(Clone, Copy, Debug, PartialEq, Eq, Structural)]
pub enum HookAction {
    /// The event goes on to the rest of the system, unchanged.
    Forward,
    /// The event ends here.
    Swallow,
}

/// What the listener does with an event: what becomes of the event, and
/// whether the consumer is to be woken.
#[derive(Clone, Copy, Debug, PartialEq, Eq, Structural)]
pub struct Reaction {
    pub action: HookAction,
    pub notify: bool,
}

/// How a gesture ended.
#[derive(Debug, PartialEq, Eq)]
pub enum Verdict {
    /// The user abandoned the gesture.
    Cancelled,
    /// The gesture ended with this chord.
    Committed(Chord),
}

impl View for Verdict {
    type V = Signal;

    open spec fn view(&self) -> Signal {
        match self {
            Verdict::Cancelled => Signal::Cancelled,
            Verdict::Committed(chord) => Signal::Committed(chord@),
        }
    }
}

/// The signal of a verdict that may be missing.
pub open spec fn signal_of(verdict: Option<Verdict>) -> Option<Signal> {
    match verdict {
        Some(verdict) => Some(verdict@),
        None => None,
    }
}

/// A capture as the contracts see it: the keys held, the result that waits
/// for the consumer, and whether the presses of a gesture are kept from the
/// rest of the system.
pub struct Capture {
    pub held: Set<KeyId>,
    pub result: Option<Signal>,
    pub swallow: bool,
}

/// A capture with no key held and no result.
pub open spec fn fresh_capture(swallow: bool) -> Capture {
    Capture { held: Set::empty(), result: None, swallow }
}

/// One event of a capture. While a result waits for the consumer, no gesture
/// begins: the event is forwarded and nothing changes. Else the edge goes to
/// the recognizer, and a release that ends a gesture has its result stored
/// and the consumer woken. A capture that swallows keeps the presses of a
/// gesture from the rest of the system, and only them: every release is
/// forwarded, also the one that ends the gesture, so that a key which went
/// down before the capture began does not stay down for the other programs.
/// A capture that only watches forwards every event.
pub open spec fn capture_step(capture: Capture, edge: Edge) -> (Capture, Reaction) {
    if capture.result is Some {
        (capture, Reaction { action: HookAction::Forward, notify: false })
    } else {
        let (held, signal) = step(capture.held, edge);
        let ended = !(signal is Pending);
        (
            Capture {
                held,
                result: if ended {
                    Some(signal)
                } else {
                    None
                },
                swallow: capture.swallow,
            },
            Reaction {
                action: if capture.swallow && edge is Press {
                    HookAction::Swallow
                } else {
                    HookAction::Forward
                },
                notify: ended,
            },
        )
    }
}

/// One capture: the recognizer, and the place where the result of a gesture
/// waits until the consumer takes it.
#[derive(Debug)]
pub struct CaptureSession {
    recognizer: Recognizer,
    result: Option<Verdict>,
    swallow: bool,
}

impl View for CaptureSession {
    type V = Capture;

    closed spec fn view(&self) -> Capture {
        Capture { held: self.recognizer@, result: signal_of(self.result), swallow: self.swallow }
    }
}

impl CaptureSession {
    /// A capture with no key held and no result, which keeps the presses of
    /// a gesture from the rest of the system.
    pub fn new() -> (session: CaptureSession)
        ensures
            session@ == fresh_capture(true),
    {
        CaptureSession { recognizer: Recognizer::new(), result: None, swallow: true }
    }

    /// A capture with no key held and no result, which only watches: every
    /// event goes on to the rest of the system.
    pub fn watching() -> (session: CaptureSession)
        ensures
            session@ == fresh_capture(false),
    {
        CaptureSession { recognizer: Recognizer::new(), result: None, swallow: false }
    }

    /// Takes one edge and says what to do with the event.
    pub fn on_edge(&mut self, edge: Edge) -> (reaction: Reaction)
        ensures
            (final(self)@, reaction) == capture_step(old(self)@, edge),
            reaction.notify ==> final(self)@.result is Some,
    {
        if self.result.is_some() {
            return Reaction { action: HookAction::Forward, notify: false };
        }
        let pressed: bool = match edge {
            Edge::Press(_) => true,
            Edge::Release(_) => false,
        };
        let ended: bool = match self.recognizer.handle(edge) {
            Outcome::Pending => false,
            Outcome::Cancelled => {
                self.result = Some(Verdict::Cancelled);
                true
            },
            Outcome::Committed(chord) => {
                self.result = Some(Verdict::Committed(chord));
                true
            },
        };
        let action = if self.swallow && pressed {
            HookAction::Swallow
        } else {
            HookAction::Forward
        };
        Reaction { action, notify: ended }
    }

    /// Takes one raw event and says what to do with it.
    pub fn on_event(&mut self, event: KeyEvent) -> (reaction: Reaction)
        ensures
            (final(self)@, reaction) == capture_step(old(self)@, edge_of(event)),
            reaction.notify ==> final(self)@.result is Some,
    {
        self.on_edge(decode(event))
    }

    /// Hands the result over to the consumer, once: after that no result
    /// waits, and the next gesture can begin.
    pub fn take_result(&mut self) -> (verdict: Option<Verdict>)
        ensures
            signal_of(verdict) == old(self)@.result,
            final(self)@ == (Capture { result: None, ..old(self)@ }),
    {
        self.result.take()
    }

    /// Whether a result waits for the consumer.
    pub fn has_result(&self) -> (waiting: bool)
        ensures
            waiting == (self@.result is Some),
    {
        self.result.is_some()
    }
}

/// The proof that a listener was installed. Uninstalling takes it back, so
/// it can be used once.
#[derive(Debug)]
pub struct HookHandle {
    serial: u64,
}

impl HookHandle {
    /// The number of the installation.
    pub closed spec fn serial(&self) -> u64 {
        self.serial
    }
}

/// Why no listener was installed.
#[derive(Clone, Copy, Debug, PartialEq, Eq, Structural)]
pub enum InstallError {
    /// The system refused to register the listener.
    Refused,
    /// A listener is installed already: one at a time.
    AlreadyInstalled,
}

/// Why nothing was uninstalled.
#[derive(Clone, Copy, Debug, PartialEq, Eq, Structural)]
pub enum UninstallError {
    /// The handle does not belong to the listener that is installed.
    StaleHandle,
}

/// The hook controller as the contracts see it.
pub struct Hook {
    /// The capture of the listener that is installed, if one is.
    pub capture: Option<Capture>,
    /// The number of the installation that is active, or of the last one.
    pub serial: u64,
}

/// Keeps track of the one listener that may be installed, and owns its
/// capture: the keys held and a result not yet taken are discarded with it.
#[derive(Debug)]
pub struct HookController {
    session: Option<CaptureSession>,
    serial: u64,
}

impl View for HookController {
    type V = Hook;

    closed spec fn view(&self) -> Hook {
        Hook {
            capture: match self.session {
                Some(session) => Some(session@),
                None => None,
            },
            serial: self.serial,
        }
    }
}

impl HookController {
    /// A controller with no listener installed.
    pub fn new() -> (controller: HookController)
        ensures
            controller@ == (Hook { capture: None, serial: 0 }),
    {
        HookController { session: None, serial: 0 }
    }

    /// Whether a listener is installed.
    pub fn is_installed(&self) -> (installed: bool)
        ensures
            installed == (self@.capture is Some),
    {
        self.session.is_some()
    }

    /// Records an installation. `granted` says whether the system registered
    /// the listener; `swallow` says whether the listener keeps the presses of
    /// a gesture from the rest of the system, as the capture of a new hotkey
    /// does, or only watches. Where a listener is installed already, or the
    /// system refused, nothing changes. Else a new capture begins, and the
    /// handle carries the number of the installation.
    pub fn install(&mut self, granted: bool, swallow: bool) -> (r: Result<
        HookHandle,
        InstallError,
    >)
        ensures
            match r {
                Ok(handle) => old(self)@.capture is None && granted && final(self)@ == (Hook {
                    capture: Some(fresh_capture(swallow)),
                    serial: handle.serial(),
                }) && handle.serial() == old(self)@.serial.wrapping_add(1),
                Err(error) => final(self)@ == old(self)@ && error == if old(self)@.capture
                    is Some {
                    InstallError::AlreadyInstalled
                } else {
                    InstallError::Refused
                } && (old(self)@.capture is Some || !granted),
            },
    {
        if self.session.is_some() {
            return Err(InstallError::AlreadyInstalled);
        }
        if !granted {
            return Err(InstallError::Refused);
        }
        self.serial = self.serial.wrapping_add(1);
        self.session = Some(
            if swallow {
                CaptureSession::new()
            } else {
                CaptureSession::watching()
            },
        );
        Ok(HookHandle { serial: self.serial })
    }

    /// Records that the listener was removed, and discards its capture. A
    /// handle of an earlier installation removes nothing.
    pub fn uninstall(&mut self, handle: HookHandle) -> (r: Result<(), UninstallError>)
        ensures
            r is Ok <==> old(self)@.capture is Some && handle.serial() == old(self)@.serial,
            final(self)@ == if r is Ok {
                Hook { capture: None, serial: old(self)@.serial }
            } else {
                old(self)@
            },
    {
        if self.session.is_some() && handle.serial == self.serial {
            self.session = None;
            Ok(())
        } else {
            Err(UninstallError::StaleHandle)
        }
    }

    /// Takes one raw event. With no listener installed the event is
    /// forwarded; else the capture decides.
    pub fn on_event(&mut self, event: KeyEvent) -> (reaction: Reaction)
        ensures
            match old(self)@.capture {
                Some(capture) => final(self)@ == (Hook {
                    capture: Some(capture_step(capture, edge_of(event)).0),
                    serial: old(self)@.serial,
                }) && reaction == capture_step(capture, edge_of(event)).1,
                None => final(self)@ == old(self)@ && reaction == (Reaction {
                    action: HookAction::Forward,
                    notify: false,
                }),
            },
    {
        match self.session.take() {
            Some(session) => {
                let mut session = session;
                let reaction = session.on_event(event);
                self.session = Some(session);
                reaction
            },
            None => Reaction { action: HookAction::Forward, notify: false },
        }
    }

    /// Hands the result of the gesture over to the consumer, once.
    pub fn take_result(&mut self) -> (verdict: Option<Verdict>)
        ensures
            match old(self)@.capture {
                Some(capture) => signal_of(verdict) == capture.result && final(self)@ == (Hook {
                    capture: Some(Capture { result: None, ..capture }),
                    serial: old(self)@.serial,
                }),
                None => verdict is None && final(self)@ == old(self)@,
            },
    {
        match self.session.take() {
            Some(session) => {
                let mut session = session;
                let verdict = session.take_result();
                self.session = Some(session);
                verdict
            },
            None => None,
        }
    }
}

} // verus!
