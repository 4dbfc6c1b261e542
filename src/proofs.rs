//! What the timeline and its sampler guarantee across several calls.
use vstd::prelude::*;

use crate::duration::Duration;
use crate::note::{Note, NoteMsg};
use crate::pianoroll::{
    apply, bucket, is_sample, last_open, lemma_last_open_below, Line,
};

verus! {

/// Whether `m` is a note-on or a note-off on channel `c` and pitch `p`.
pub open spec fn touches(m: NoteMsg, c: u8, p: u8) -> bool {
    match m {
        NoteMsg::On { channel, pitch, .. } => channel == c && pitch == p,
        NoteMsg::Off { channel, pitch } => channel == c && pitch == p,
        NoteMsg::Other => false,
    }
}

/// The timeline after the messages `msgs`, each with its timestamp, in order.
pub open spec fn apply_all(notes: Seq<Note>, msgs: Seq<(NoteMsg, Duration)>) -> Seq<Note>
    decreases msgs.len(),
{
    if msgs.len() == 0 {
        notes
    } else {
        apply(apply_all(notes, msgs.drop_last()), msgs.last().0, msgs.last().1)
    }
}

/// When exactly one note open on `(c, p)` has no open note on `(c, p)` after
/// it, the search finds that one.
proof fn lemma_last_open_is(notes: Seq<Note>, c: u8, p: u8, n: int)
    requires
        0 <= n < notes.len(),
        notes[n].is_open_on(c, p),
        forall|j: int| n < j < notes.len() ==> !(#[trigger] notes[j]).is_open_on(c, p),
    ensures
        last_open(notes, c, p) == Some(n),
{
    lemma_last_open_below(notes, c, p, notes.len() as int);
}

/// One message that is not on `(c, p)` leaves every note on `(c, p)` as it
/// was, keeps the channel and pitch of every note, and adds no note on `(c, p)`.
proof fn lemma_apply_untouched(notes: Seq<Note>, m: NoteMsg, t: Duration, c: u8, p: u8)
    requires
        !touches(m, c, p),
    ensures
        apply(notes, m, t).len() >= notes.len(),
        forall|i: int|
            0 <= i < notes.len() ==> {
                &&& (#[trigger] apply(notes, m, t)[i]).channel == notes[i].channel
                &&& apply(notes, m, t)[i].pitch == notes[i].pitch
                &&& (notes[i].channel == c && notes[i].pitch == p) ==> apply(notes, m, t)[i]
                    == notes[i]
            },
        forall|j: int|
            notes.len() <= j < apply(notes, m, t).len() ==> !((#[trigger] apply(notes, m, t)[j]).channel
                == c && apply(notes, m, t)[j].pitch == p),
{
    match m {
        NoteMsg::Off { channel, pitch } => {
            lemma_last_open_below(notes, channel, pitch, notes.len() as int);
        },
        _ => {},
    }
}

/// The same over a run of messages, none of them on `(c, p)`.
proof fn lemma_apply_all_untouched(notes: Seq<Note>, msgs: Seq<(NoteMsg, Duration)>, c: u8, p: u8)
    requires
        forall|i: int| 0 <= i < msgs.len() ==> !touches(#[trigger] msgs[i].0, c, p),
    ensures
        apply_all(notes, msgs).len() >= notes.len(),
        forall|i: int|
            0 <= i < notes.len() ==> {
                &&& (#[trigger] apply_all(notes, msgs)[i]).channel == notes[i].channel
                &&& apply_all(notes, msgs)[i].pitch == notes[i].pitch
                &&& (notes[i].channel == c && notes[i].pitch == p) ==> apply_all(notes, msgs)[i]
                    == notes[i]
            },
        forall|j: int|
            notes.len() <= j < apply_all(notes, msgs).len() ==> !((#[trigger] apply_all(
                notes,
                msgs,
            )[j]).channel == c && apply_all(notes, msgs)[j].pitch == p),
    decreases msgs.len(),
{
    if msgs.len() > 0 {
        let init = msgs.drop_last();
        let (m, t) = msgs.last();
        assert(!touches(msgs[msgs.len() - 1].0, c, p));
        lemma_apply_all_untouched(notes, init, c, p);
        let mid = apply_all(notes, init);
        lemma_apply_untouched(mid, m, t, c, p);
        assert forall|i: int| 0 <= i < notes.len() implies {
            &&& (#[trigger] apply_all(notes, msgs)[i]).channel == notes[i].channel
            &&& apply_all(notes, msgs)[i].pitch == notes[i].pitch
            &&& (notes[i].channel == c && notes[i].pitch == p) ==> apply_all(notes, msgs)[i]
                == notes[i]
        } by {
            assert(apply(mid, m, t)[i].channel == mid[i].channel);
        }
        assert forall|j: int| notes.len() <= j < apply_all(notes, msgs).len() implies !((
        #[trigger] apply_all(notes, msgs)[j]).channel == c && apply_all(notes, msgs)[j].pitch
            == p) by {
            if j < mid.len() {
                assert(apply(mid, m, t)[j].channel == mid[j].channel);
            }
        }
    }
}

/// A note-on at `t1` on `(c, p)`, then messages none of which is a note-on or
/// note-off on `(c, p)`, then a note-off on `(c, p)` at `t2 > t1`: the
/// timeline then holds exactly one note on `(c, p)` that began at `t1` and
/// ended at `t2`, the one that the note-on appended, where no note on
/// `(c, p)` had ended at `t2` before.
pub proof fn lemma_note_on_then_off(
    notes: Seq<Note>,
    c: u8,
    p: u8,
    v: u8,
    t1: Duration,
    msgs: Seq<(NoteMsg, Duration)>,
    t2: Duration,
)
    requires
        forall|i: int|
            0 <= i < notes.len() && (#[trigger] notes[i]).channel == c && notes[i].pitch == p
                ==> notes[i].end != Some(t2),
        t1@ < t2@,
        forall|i: int| 0 <= i < msgs.len() ==> !touches(#[trigger] msgs[i].0, c, p),
    ensures
        ({
            let r = apply(
                apply_all(apply(notes, NoteMsg::On { channel: c, pitch: p, velocity: v }, t1), msgs),
                NoteMsg::Off { channel: c, pitch: p },
                t2,
            );
            &&& notes.len() < r.len()
            &&& r[notes.len() as int] == Note {
                begin: t1,
                end: Some(t2),
                channel: c,
                pitch: p,
                velocity: v,
            }
            &&& forall|j: int|
                0 <= j < r.len() && j != notes.len() && (#[trigger] r[j]).channel == c && r[j].pitch
                    == p ==> !(r[j].begin == t1 && r[j].end == Some(t2))
        }),
{
    let n = notes.len() as int;
    let s1 = apply(notes, NoteMsg::On { channel: c, pitch: p, velocity: v }, t1);
    let s2 = apply_all(s1, msgs);
    lemma_apply_all_untouched(s1, msgs, c, p);
    assert(s1[n].channel == c && s1[n].pitch == p);
    assert(s2[n] == s1[n]);
    assert forall|j: int| n < j < s2.len() implies !(#[trigger] s2[j]).is_open_on(c, p) by {
        if j < s1.len() {
        }
    }
    lemma_last_open_is(s2, c, p, n);
    let r = apply(s2, NoteMsg::Off { channel: c, pitch: p }, t2);
    assert forall|j: int|
        0 <= j < r.len() && j != n && (#[trigger] r[j]).channel == c && r[j].pitch == p implies !(
    r[j].begin == t1 && r[j].end == Some(t2)) by {
        assert(r[j] == s2[j]);
        if j < n {
            assert(s2[j].channel == s1[j].channel && s2[j].pitch == s1[j].pitch);
            assert(s1[j] == notes[j]);
            assert(s2[j] == s1[j]);
        }
    }
}

/// The timeline only grows: one message keeps every note in its place, with
/// its begin, channel, pitch and velocity, and may only close an open note.
pub proof fn lemma_apply_append_only(notes: Seq<Note>, m: NoteMsg, t: Duration)
    ensures
        apply(notes, m, t).len() == notes.len() || apply(notes, m, t).len() == notes.len() + 1,
        forall|i: int|
            0 <= i < notes.len() ==> {
                let after = #[trigger] apply(notes, m, t)[i];
                &&& after.begin == notes[i].begin
                &&& after.channel == notes[i].channel
                &&& after.pitch == notes[i].pitch
                &&& after.velocity == notes[i].velocity
                &&& (notes[i].end is Some ==> after.end == notes[i].end)
            },
{
    match m {
        NoteMsg::Off { channel, pitch } => {
            lemma_last_open_below(notes, channel, pitch, notes.len() as int);
        },
        _ => {},
    }
}

/// A note-off that finds no open note of its channel and pitch leaves the
/// timeline as it was.
pub proof fn lemma_unmatched_note_off(notes: Seq<Note>, c: u8, p: u8, t: Duration)
    requires
        forall|i: int| 0 <= i < notes.len() ==> !(#[trigger] notes[i]).is_open_on(c, p),
    ensures
        apply(notes, NoteMsg::Off { channel: c, pitch: p }, t) == notes,
{
    lemma_last_open_below(notes, c, p, notes.len() as int);
}

/// Two note-ons on `(c, p)` at `ta` and then `tb`, then two note-offs on
/// `(c, p)` at `t3` and then `t4`: the first note-off closes the later note
/// and the second closes the earlier one.
pub proof fn lemma_retrigger_closes_latest_first(
    notes: Seq<Note>,
    c: u8,
    p: u8,
    va: u8,
    vb: u8,
    ta: Duration,
    tb: Duration,
    t3: Duration,
    t4: Duration,
)
    ensures
        apply(
            apply(
                apply(
                    apply(notes, NoteMsg::On { channel: c, pitch: p, velocity: va }, ta),
                    NoteMsg::On { channel: c, pitch: p, velocity: vb },
                    tb,
                ),
                NoteMsg::Off { channel: c, pitch: p },
                t3,
            ),
            NoteMsg::Off { channel: c, pitch: p },
            t4,
        ) == notes.push(Note { begin: ta, end: Some(t4), channel: c, pitch: p, velocity: va }).push(
            Note { begin: tb, end: Some(t3), channel: c, pitch: p, velocity: vb },
        ),
{
    let n = notes.len() as int;
    let s1 = apply(notes, NoteMsg::On { channel: c, pitch: p, velocity: va }, ta);
    let s2 = apply(s1, NoteMsg::On { channel: c, pitch: p, velocity: vb }, tb);
    lemma_last_open_is(s2, c, p, n + 1);
    let s3 = apply(s2, NoteMsg::Off { channel: c, pitch: p }, t3);
    lemma_last_open_is(s3, c, p, n);
    let s4 = apply(s3, NoteMsg::Off { channel: c, pitch: p }, t4);
    assert(s4 =~= notes.push(Note { begin: ta, end: Some(t4), channel: c, pitch: p, velocity: va }).push(
        Note { begin: tb, end: Some(t3), channel: c, pitch: p, velocity: vb },
    ));
}

/// Sampling depends on the timeline and the window alone: two samples of
/// one timeline over one window agree bucket by bucket.
pub proof fn lemma_sample_idempotent(
    r1: Seq<Line>,
    r2: Seq<Line>,
    notes: Seq<Note>,
    b: int,
    e: int,
    count: int,
)
    requires
        is_sample(r1, notes, b, e, count),
        is_sample(r2, notes, b, e, count),
    ensures
        r1.len() == r2.len(),
        forall|k: int| 0 <= k < r1.len() ==> (#[trigger] r1[k])@ == r2[k]@,
{
    assert forall|k: int| 0 <= k < r1.len() implies (#[trigger] r1[k])@ == r2[k]@ by {
        assert(r1[k]@ == bucket(notes, b, e, count, k));
        assert(r2[k]@ == bucket(notes, b, e, count, k));
    }
}

} // verus!
