//! Notes of the timeline and the messages that open and close them.
use vstd::prelude::*;

use midi_msg::{ChannelVoiceMsg, MidiMsg};

use crate::duration::Duration;

verus! {

/// One sounding pitch on one channel: it began at `begin` and, once closed,
/// ended at `end`. An open note (`end == None`) is still sounding.
#[derive(Debug, Clone, Copy, PartialEq, Eq, Structural)]
pub struct Note {
    pub begin: Duration,
    pub end: Option<Duration>,
    /// MIDI channel, 0 to 15.
    pub channel: u8,
    /// MIDI note number, 0 to 127.
    pub pitch: u8,
    /// Velocity of the note-on, 0 to 127.
    pub velocity: u8,
}

impl Note {
    /// The value ranges of MIDI, and an end no earlier than the begin.
    pub open spec fn wf(&self) -> bool {
        &&& self.channel < 16
        &&& self.pitch < 128
        &&& self.velocity < 128
        &&& match self.end {
            Some(e) => self.begin@ <= e@,
            None => true,
        }
    }

    /// Still sounding, on channel `c` and pitch `p`.
    pub open spec fn is_open_on(&self, c: u8, p: u8) -> bool {
        self.channel == c && self.pitch == p && self.end is None
    }

    /// Sounding at instant `t`: begun before it and not ended by it.
    pub open spec fn active_at(&self, t: int) -> bool {
        &&& self.begin@ < t
        &&& match self.end {
            Some(e) => t < e@,
            None => true,
        }
    }

    /// Possibly sounding somewhere in `[b, e)`.
    pub open spec fn overlaps(&self, b: int, e: int) -> bool {
        &&& self.begin@ < e
        &&& match self.end {
            Some(x) => b < x@,
            None => true,
        }
    }

    /// The same note, closed at `t`.
    pub open spec fn closed_at(self, t: Duration) -> Note {
        Note {
            begin: self.begin,
            end: Some(t),
            channel: self.channel,
            pitch: self.pitch,
            velocity: self.velocity,
        }
    }

    pub fn is_active_at(&self, t: i128) -> (r: bool)
        ensures
            r == self.active_at(t as int),
    {
        (self.begin.nanos as i128) < t && match self.end {
            Some(e) => t < e.nanos as i128,
            None => true,
        }
    }

    pub fn overlaps_window(&self, b: &Duration, e: &Duration) -> (r: bool)
        ensures
            r == self.overlaps(b@, e@),
    {
        self.begin.nanos < e.nanos && match self.end {
            Some(x) => b.nanos < x.nanos,
            None => true,
        }
    }
}

/// What the timeline reads of one MIDI message.
#[derive(Debug, Clone, Copy, PartialEq, Eq, Structural)]
pub enum NoteMsg {
    /// A note-on: a note starts sounding.
    On { channel: u8, pitch: u8, velocity: u8 },
    /// A note-off: a note stops sounding.
    Off { channel: u8, pitch: u8 },
    /// Anything else, or bytes that are no MIDI message.
    Other,
}

impl NoteMsg {
    /// The value ranges of MIDI.
    pub open spec fn wf(&self) -> bool {
        match *self {
            NoteMsg::On { channel, pitch, velocity } => channel < 16 && pitch < 128 && velocity < 128,
            NoteMsg::Off { channel, pitch } => channel < 16 && pitch < 128,
            NoteMsg::Other => true,
        }
    }

    /// Whether the message keeps to the value ranges of MIDI.
    pub fn in_range(&self) -> (r: bool)
        ensures
            r == self.wf(),
    {
        match *self {
            NoteMsg::On { channel, pitch, velocity } => channel < 16 && pitch < 128 && velocity < 128,
            NoteMsg::Off { channel, pitch } => channel < 16 && pitch < 128,
            NoteMsg::Other => true,
        }
    }
}

/// Reads the note message that the bytes `m` start with; anything else,
/// undecodable bytes included, is `Other`.
pub fn decode_message(m: &[u8]) -> (r: NoteMsg)
    ensures
        r == note_msg_of(m@),
        r.wf(),
{
    proof {
        lemma_note_msg_of_wf(m@);
    }
    decode(m)
}

/// A status byte of kind `kind` (the high four bits) followed by two data
/// bytes: the layout of note-on and note-off.
pub open spec fn is_note_layout(m: Seq<u8>, kind: int) -> bool {
    &&& m.len() >= 3
    &&& m[0] / 16 == kind
    &&& m[1] < 128
    &&& m[2] < 128
}

/// The note message that the bytes `m` start with, if they start with one.
/// The channel is the low four bits of the status byte.
pub open spec fn note_msg_of(m: Seq<u8>) -> NoteMsg {
    if is_note_layout(m, 9) {
        NoteMsg::On { channel: (m[0] % 16) as u8, pitch: m[1], velocity: m[2] }
    } else if is_note_layout(m, 8) {
        NoteMsg::Off { channel: (m[0] % 16) as u8, pitch: m[1] }
    } else {
        NoteMsg::Other
    }
}

pub proof fn lemma_note_msg_of_wf(m: Seq<u8>)
    ensures
        note_msg_of(m).wf(),
{
}

/// Relies on midi_msg's `MidiMsg::from_midi`, which reads the bytes with a
/// default receiver context: a status byte `0x9n` or `0x8n` followed by two
/// bytes under 128 is a note-on or note-off on channel `n` with those note and
/// velocity values (a note-on of velocity 0 stays a note-on); every other input
/// is some other message or an error. That context reads control changes as
/// plain ones, so no following byte turns the note into a high-resolution one.
#[verifier::external_body]
pub(crate) fn decode(m: &[u8]) -> (r: NoteMsg)
    ensures
        r == note_msg_of(m@),
{
    match MidiMsg::from_midi(m) {
        Ok((MidiMsg::ChannelVoice { channel, msg: ChannelVoiceMsg::NoteOn { note, velocity } }, _)) =>
            NoteMsg::On { channel: channel as u8, pitch: note, velocity },
        Ok((MidiMsg::ChannelVoice { channel, msg: ChannelVoiceMsg::NoteOff { note, .. } }, _)) =>
            NoteMsg::Off { channel: channel as u8, pitch: note },
        _ => NoteMsg::Other,
    }
}

} // verus!
