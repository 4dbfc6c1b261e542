//! What the user chose at startup.
use vstd::prelude::*;

verus! {

/// The drawing backends a session can run.
#[derive(Debug, Clone, Copy, PartialEq, Eq, Structural)]
pub enum Backend {
    /// Prints each message as one line of text.
    Text,
    /// Draws the piano roll on a full-screen terminal grid.
    Curses,
}

/// Startup choices: the backend by name, and a performance file to play back
/// in place of live input.
#[derive(Debug, Clone)]
pub struct Options {
    pub renderer: String,
    pub midifile: Option<String>,
}

/// The backend that a name selects: "text" or "curses".
pub open spec fn backend_named(name: Seq<char>) -> Option<Backend> {
    if name == "text"@ {
        Some(Backend::Text)
    } else if name == "curses"@ {
        Some(Backend::Curses)
    } else {
        None
    }
}

impl Options {
    /// The backend that `renderer` names, if it names one.
    pub fn backend(&self) -> (r: Option<Backend>)
        ensures
            r == backend_named(self.renderer@),
    {
        let text = "text".to_owned();
        let curses = "curses".to_owned();
        proof {
            reveal_strlit("text");
            reveal_strlit("curses");
        }
        if self.renderer == text {
            Some(Backend::Text)
        } else if self.renderer == curses {
            Some(Backend::Curses)
        } else {
            None
        }
    }

    /// Whether the session plays a file back rather than listening to a
    /// device.
    pub fn plays_file(&self) -> (r: bool)
        ensures
            r == self.midifile is Some,
    {
        self.midifile.is_some()
    }
}

} // verus!
