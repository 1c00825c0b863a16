//! Global hotkey capture for a screen reader.
//!
//! A low-level keyboard listener hands every key event of the system to
//! this library. The library tracks which keys are held, recognizes the
//! chord that a gesture ends with, and finds the command that the chord
//! stands for. It also suppresses events that come again too soon.
//!
//! - [`key`], [`names`], [`chord`]: key identities, their display names,
//!   and chords with their text form.
//! - [`recognizer`]: from press and release edges to a committed chord or a
//!   cancellation.
//! - [`hook`]: what the listener decides for each raw event, and how the
//!   result of a gesture is handed to the consumer.
//! - [`resolver`], [`config`]: the commands with their default and custom
//!   chords, and what is kept of the custom chords between runs.
//! - [`debounce`], [`clock`]: the guard against duplicate events, and its
//!   clock.
//! - [`ime`]: which candidate of an input method to speak.
//! - [`browser`]: the virtual focus among the controls of a window.
//! - [`text`], [`table`]: character sequences, and a map keyed by text.
//!
//! Apart from reading its clock, the library does no input or output. The
//! program around it installs the listener, reads and writes the
//! configuration, and speaks.

pub mod browser;
pub mod chord;
pub mod clock;
pub mod config;
pub mod debounce;
pub mod hook;
pub mod ime;
pub mod key;
pub mod names;
pub mod recognizer;
pub mod resolver;
pub mod table;
pub mod text;
