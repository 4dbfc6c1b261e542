//! A live piano-roll timeline for MIDI performances.
//!
//! Timestamped MIDI messages are decoded into notes, which an append-only
//! timeline records; a window sampler turns any stretch of that timeline into
//! a fixed number of buckets, each listing the notes sounding at one instant.
pub mod duration;
pub mod note;
pub mod options;
pub mod pianoroll;
pub mod proofs;
pub mod session;

pub use duration::Duration;
pub use note::{decode_message, Note, NoteMsg};
pub use options::{Backend, Options};
pub use pianoroll::{Atom, Line, MidiData, PianoRoll};
pub use session::{ingest, render_window, Receipt};
