//! The decisions of the threads that feed the timeline and draw it.
use vstd::prelude::*;

use crate::duration::Duration;
use crate::note::NoteMsg;
use crate::pianoroll::{apply, PianoRoll};

verus! {

/// What one wait on the event channel brought.
pub enum Receipt {
    /// A message from the event source, already decoded, and its timestamp.
    Message(NoteMsg, Duration),
    /// Nothing arrived before the wait ended.
    Timeout,
    /// The source is gone and the channel holds nothing more.
    Disconnected,
}

/// One turn of the timeline writer: applies a message that came, and says
/// whether to wait again. The writer stops once the channel is closed or a
/// shutdown was asked for. The message comes decoded, so that the writer holds
/// the timeline only to apply it. Timestamps of one source never decrease; a
/// message older than the latest one applied breaks that order and is left
/// out, as is one outside the value ranges of MIDI.
pub fn ingest(roll: &mut PianoRoll, receipt: Receipt, quit: bool) -> (go_on: bool)
    requires
        old(roll).wf(),
    ensures
        final(roll).wf(),
        go_on == (!quit && !(receipt is Disconnected)),
        match receipt {
            Receipt::Message(msg, t) => if old(roll).last_stamp() <= t@ && msg.wf() {
                &&& final(roll)@ == apply(old(roll)@, msg, t)
                &&& final(roll).last_stamp() == t@
            } else {
                &&& final(roll)@ == old(roll)@
                &&& final(roll).last_stamp() == old(roll).last_stamp()
            },
            _ => {
                &&& final(roll)@ == old(roll)@
                &&& final(roll).last_stamp() == old(roll).last_stamp()
            },
        },
{
    let disconnected = match receipt {
        Receipt::Message(msg, t) => {
            let latest = roll.latest();
            if !t.is_before(&latest) && msg.in_range() {
                roll.apply_msg(msg, t);
            }
            false
        },
        Receipt::Timeout => false,
        Receipt::Disconnected => true,
    };
    !quit && !disconnected
}

/// `x` held within the range of `i64`.
pub open spec fn clamp_i64(x: int) -> int {
    if x < i64::MIN {
        i64::MIN as int
    } else if x > i64::MAX {
        i64::MAX as int
    } else {
        x
    }
}

/// The window that a renderer draws at time `now` on `columns` columns of
/// `per_column` each: it ends at `now` and looks back `columns * per_column`,
/// held at the earliest instant a `Duration` can hold.
pub fn render_window(now: Duration, columns: u32, per_column: Duration) -> (r: (Duration, Duration))
    ensures
        r.1 == now,
        r.0@ == clamp_i64(now@ - columns * per_column@),
{
    assert(-0x1_0000_0000_0000_0000_0000_0000 <= columns * per_column@ <= 0x1_0000_0000_0000_0000_0000_0000)
        by (nonlinear_arith)
        requires
            0 <= columns <= u32::MAX,
            i64::MIN <= per_column@ <= i64::MAX,
    {
    }
    let span: i128 = columns as i128 * per_column.nanos as i128;
    let begin: i128 = now.nanos as i128 - span;
    let b: i64 = if begin < i64::MIN as i128 {
        i64::MIN
    } else if begin > i64::MAX as i128 {
        i64::MAX
    } else {
        begin as i64
    };
    (Duration::nanoseconds(b), now)
}

} // verus!
