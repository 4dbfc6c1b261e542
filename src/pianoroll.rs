//! The note timeline and its window sampler.
use vstd::prelude::*;

use crate::duration::Duration;
use crate::note::{decode, lemma_note_msg_of_wf, note_msg_of, Note, NoteMsg};

verus! {

/// A timestamped raw MIDI message, as an event source delivers it.
#[derive(Debug, Clone)]
pub struct MidiData {
    pub message: Vec<u8>,
    /// Time since the session's epoch.
    pub timestamp: Duration,
}

/// The index of the latest note among `notes[0..n]` that is still open on
/// channel `c` and pitch `p`, if there is one.
pub open spec fn last_open_below(notes: Seq<Note>, c: u8, p: u8, n: int) -> Option<int>
    decreases n,
{
    if n <= 0 {
        None
    } else if notes[n - 1].is_open_on(c, p) {
        Some(n - 1)
    } else {
        last_open_below(notes, c, p, n - 1)
    }
}

/// What the search finds is an open note on `(c, p)` below `n`, with no
/// other such note between it and `n`; when it finds nothing, there is none.
pub proof fn lemma_last_open_below(notes: Seq<Note>, c: u8, p: u8, n: int)
    requires
        n <= notes.len(),
    ensures
        match last_open_below(notes, c, p, n) {
            Some(i) => {
                &&& 0 <= i < n
                &&& notes[i].is_open_on(c, p)
                &&& forall|j: int| i < j < n ==> !(#[trigger] notes[j]).is_open_on(c, p)
            },
            None => forall|j: int| 0 <= j < n ==> !(#[trigger] notes[j]).is_open_on(c, p),
        },
    decreases n,
{
    if n > 0 {
        lemma_last_open_below(notes, c, p, n - 1);
    }
}

/// The index of the most recently created note still open on `(c, p)`.
pub open spec fn last_open(notes: Seq<Note>, c: u8, p: u8) -> Option<int> {
    last_open_below(notes, c, p, notes.len() as int)
}

/// The timeline after one message at time `t`: a note-on appends an open
/// note; a note-off closes the latest open note of its channel and pitch, or
/// does nothing when none is open; other messages change nothing.
pub open spec fn apply(notes: Seq<Note>, m: NoteMsg, t: Duration) -> Seq<Note> {
    match m {
        NoteMsg::On { channel, pitch, velocity } => notes.push(
            Note { begin: t, end: None, channel, pitch, velocity },
        ),
        NoteMsg::Off { channel, pitch } => match last_open(notes, channel, pitch) {
            Some(i) => notes.update(i, notes[i].closed_at(t)),
            None => notes,
        },
        NoteMsg::Other => notes,
    }
}

/// Every note well formed, and no note begun or ended after `latest`.
pub open spec fn timeline_wf(notes: Seq<Note>, latest: int) -> bool {
    forall|i: int|
        0 <= i < notes.len() ==> {
            &&& (#[trigger] notes[i]).wf()
            &&& notes[i].begin@ <= latest
            &&& match notes[i].end {
                Some(e) => e@ <= latest,
                None => true,
            }
        }
}

/// One note of a sample bucket.
#[derive(Debug, Clone, Copy, PartialEq, Eq, Structural)]
pub struct Atom {
    /// The note's pitch.
    pub scale: u8,
    pub channel: u8,
}

/// The distinct channel and pitch pairs sounding at one instant, in the
/// order in which the timeline first shows each.
pub type Line = Vec<Atom>;

pub open spec fn atom_of(n: Note) -> Atom {
    Atom { scale: n.pitch, channel: n.channel }
}

/// The channel and pitch of the notes of `notes` that sound at `t`, each pair
/// once, in the order of the first note that shows it.
pub open spec fn sounding_at(notes: Seq<Note>, t: int) -> Seq<Atom>
    decreases notes.len(),
{
    if notes.len() == 0 {
        Seq::empty()
    } else {
        let rest = sounding_at(notes.drop_last(), t);
        let x = notes.last();
        if x.active_at(t) && !rest.contains(atom_of(x)) {
            rest.push(atom_of(x))
        } else {
            rest
        }
    }
}

/// The set of channel and pitch pairs of the notes of `notes` sounding at `t`.
pub open spec fn pairs_sounding(notes: Seq<Note>, t: int) -> Set<Atom> {
    Set::new(
        |a: Atom| exists|i: int| 0 <= i < notes.len() && notes[i].active_at(t) && atom_of(notes[i]) == a,
    )
}

/// What `sounding_at` lists holds each pair once, and exactly the pairs
/// sounding at `t`.
pub proof fn lemma_sounding_at_is_set(notes: Seq<Note>, t: int)
    ensures
        sounding_at(notes, t).no_duplicates(),
        sounding_at(notes, t).to_set() == pairs_sounding(notes, t),
    decreases notes.len(),
{
    if notes.len() > 0 {
        let init = notes.drop_last();
        let x = notes.last();
        let rest = sounding_at(init, t);
        lemma_sounding_at_is_set(init, t);
        assert(rest.to_set().contains(atom_of(x)) == rest.contains(atom_of(x)));
        assert forall|a: Atom| #[trigger]
            sounding_at(notes, t).to_set().contains(a) == pairs_sounding(notes, t).contains(a) by {
            assert(rest.to_set().contains(a) == rest.contains(a));
            assert(sounding_at(notes, t).to_set().contains(a) == sounding_at(notes, t).contains(a));
            if pairs_sounding(init, t).contains(a) {
                let i = choose|i: int|
                    0 <= i < init.len() && init[i].active_at(t) && atom_of(init[i]) == a;
                assert(notes[i] == init[i]);
            }
            if pairs_sounding(notes, t).contains(a) {
                let i = choose|i: int|
                    0 <= i < notes.len() && notes[i].active_at(t) && atom_of(notes[i]) == a;
                if i < init.len() {
                    assert(init[i] == notes[i]);
                    assert(pairs_sounding(init, t).contains(a));
                }
            }
            if x.active_at(t) && !rest.contains(atom_of(x)) {
                assert(rest.push(atom_of(x)).contains(a) == (rest.contains(a) || a == atom_of(x))) by {
                    if rest.push(atom_of(x)).contains(a) {
                        let j = choose|j: int| 0 <= j < rest.len() + 1 && rest.push(atom_of(x))[j] == a;
                        if j < rest.len() {
                            assert(rest[j] == a);
                        }
                    }
                    if rest.contains(a) {
                        let j = choose|j: int| 0 <= j < rest.len() && rest[j] == a;
                        assert(rest.push(atom_of(x))[j] == a);
                    }
                    assert(rest.push(atom_of(x))[rest.len() as int] == atom_of(x));
                }
            }
        }
        assert(sounding_at(notes, t).to_set() =~= pairs_sounding(notes, t));
    }
}

proof fn lemma_sounding_at_push(s: Seq<Note>, x: Note, t: int)
    ensures
        sounding_at(s.push(x), t) == if x.active_at(t) && !sounding_at(s, t).contains(atom_of(x)) {
            sounding_at(s, t).push(atom_of(x))
        } else {
            sounding_at(s, t)
        },
{
    assert(s.push(x).drop_last() =~= s);
}

/// The notes of `notes` that may sound somewhere in `[b, e)`, in order.
pub open spec fn candidates(notes: Seq<Note>, b: int, e: int) -> Seq<Note> {
    notes.filter(|n: Note| n.overlaps(b, e))
}

/// The instant of bucket `k` when `[b, e)` is cut into `count` buckets:
/// `b + k * interval`, with `interval = (e - b) / count` rounded down.
pub open spec fn instant_of(b: int, e: int, count: int, k: int) -> int {
    b + k * ((e - b) / count)
}

/// Bucket `k` of a sample of `notes` over `[b, e)` in `count` buckets; every
/// bucket of an empty or reversed window is empty.
pub open spec fn bucket(notes: Seq<Note>, b: int, e: int, count: int, k: int) -> Seq<Atom> {
    if e <= b {
        Seq::empty()
    } else {
        sounding_at(notes, instant_of(b, e, count, k))
    }
}

/// A sample of `notes` over `[b, e)` in `count` buckets.
pub open spec fn is_sample(r: Seq<Line>, notes: Seq<Note>, b: int, e: int, count: int) -> bool {
    &&& r.len() == count
    &&& forall|k: int| 0 <= k < count ==> (#[trigger] r[k])@ == bucket(notes, b, e, count, k)
}

proof fn lemma_candidates_push(s: Seq<Note>, x: Note, b: int, e: int)
    ensures
        candidates(s.push(x), b, e) == if x.overlaps(b, e) {
            candidates(s, b, e).push(x)
        } else {
            candidates(s, b, e)
        },
{
    reveal(Seq::filter);
    assert(s.push(x).drop_last() =~= s);
}

/// Within the window, the candidates sound exactly as the whole timeline does.
proof fn lemma_candidates_sound_alike(notes: Seq<Note>, b: int, e: int, t: int)
    requires
        b <= t < e,
    ensures
        sounding_at(candidates(notes, b, e), t) == sounding_at(notes, t),
    decreases notes.len(),
{
    if notes.len() == 0 {
        reveal(Seq::filter);
        assert(candidates(notes, b, e) =~= Seq::<Note>::empty());
    } else {
        let init = notes.drop_last();
        let x = notes.last();
        assert(notes =~= init.push(x));
        lemma_candidates_sound_alike(init, b, e, t);
        lemma_candidates_push(init, x, b, e);
        lemma_sounding_at_push(init, x, t);
        lemma_sounding_at_push(candidates(init, b, e), x, t);
    }
}

/// Whether `line` already lists channel `c` and pitch `p`.
fn holds_pair(line: &Line, c: u8, p: u8) -> (r: bool)
    ensures
        r == line@.contains((Atom { scale: p, channel: c })),
{
    let mut q: usize = 0;
    while q < line.len()
        invariant
            q <= line@.len(),
            forall|i: int| 0 <= i < q ==> line@[i] != (Atom { scale: p, channel: c }),
        decreases line.len() - q,
    {
        if line[q].scale == p && line[q].channel == c {
            assert(line@[q as int] == (Atom { scale: p, channel: c }));
            return true;
        }
        q = q + 1;
    }
    false
}

/// The append-only timeline of notes.
///
/// Notes are never removed or reordered; the only change to a note after it
/// was appended is its closing.
pub struct PianoRoll {
    notes: Vec<Note>,
    latest: Duration,
}

impl View for PianoRoll {
    type V = Seq<Note>;

    closed spec fn view(&self) -> Seq<Note> {
        self.notes@
    }
}

impl PianoRoll {
    /// The timestamp of the latest message applied.
    pub closed spec fn last_stamp(&self) -> int {
        self.latest@
    }

    pub open spec fn wf(&self) -> bool {
        timeline_wf(self@, self.last_stamp())
    }

    /// An empty timeline that accepts messages of any time.
    pub fn new() -> (r: PianoRoll)
        ensures
            r@ == Seq::<Note>::empty(),
            r.last_stamp() == i64::MIN,
            r.wf(),
    {
        PianoRoll { notes: Vec::new(), latest: Duration::earliest() }
    }

    pub fn len(&self) -> (r: usize)
        ensures
            r == self@.len(),
    {
        self.notes.len()
    }

    pub fn get(&self, i: usize) -> (r: Note)
        requires
            i < self@.len(),
        ensures
            r == self@[i as int],
    {
        self.notes[i]
    }

    /// The timestamp of the latest message applied.
    pub fn latest(&self) -> (r: Duration)
        ensures
            r@ == self.last_stamp(),
    {
        self.latest
    }

    /// The index of the latest note still open on `(c, p)`.
    fn find_last_open(&self, c: u8, p: u8) -> (r: Option<usize>)
        ensures
            match r {
                Some(i) => i < self@.len() && last_open(self@, c, p) == Some(i as int),
                None => last_open(self@, c, p) is None,
            },
    {
        let mut i: usize = self.notes.len();
        while i > 0
            invariant
                i <= self.notes@.len(),
                last_open_below(self@, c, p, i as int) == last_open(self@, c, p),
            decreases i,
        {
            let n = &self.notes[i - 1];
            if n.channel == c && n.pitch == p && n.end.is_none() {
                proof {
                    lemma_last_open_below(self@, c, p, i as int);
                }
                return Some(i - 1);
            }
            i = i - 1;
        }
        None
    }

    /// Samples the window `[range_begin, range_end)` at `sample_num` evenly
    /// spaced instants; bucket `k` lists the channel and pitch of each note
    /// sounding at instant `k`, in the order of the timeline.
    pub fn draw(&self, range_begin: Duration, range_end: Duration, sample_num: u32) -> (r: Vec<Line>)
        ensures
            is_sample(r@, self@, range_begin@, range_end@, sample_num as int),
            sample_num == 0 ==> r@.len() == 0,
            range_end@ <= range_begin@ ==> forall|k: int| 0 <= k < r@.len() ==> (#[trigger] r@[k])@.len() == 0,
            forall|k: int| 0 <= k < r@.len() ==> (#[trigger] r@[k])@.no_duplicates(),
            range_begin@ < range_end@ ==> forall|k: int|
                0 <= k < r@.len() ==> (#[trigger] r@[k])@.to_set() == pairs_sounding(
                    self@,
                    instant_of(range_begin@, range_end@, sample_num as int, k),
                ),
    {
        let mut buf: Vec<Line> = Vec::new();
        if sample_num == 0 {
            return buf;
        }
        if range_end.nanos <= range_begin.nanos {
            for k in 0..sample_num
                invariant
                    range_end@ <= range_begin@,
                    buf@.len() == k,
                    forall|m: int|
                        0 <= m < k ==> (#[trigger] buf@[m])@ == bucket(
                            self@,
                            range_begin@,
                            range_end@,
                            sample_num as int,
                            m,
                        ),
            {
                buf.push(Vec::new());
            }
            proof {
                assert forall|k: int| 0 <= k < buf@.len() implies (#[trigger] buf@[k])@.no_duplicates() by {
                    assert(buf@[k]@.len() == 0);
                }
            }
            return buf;
        }
        let ghost b = range_begin@;
        let ghost e = range_end@;
        let mut cands: Vec<Note> = Vec::new();
        for i in 0..self.notes.len()
            invariant
                b == range_begin@,
                e == range_end@,
                cands@ == candidates(self@.take(i as int), b, e),
        {
            let n = self.notes[i];
            proof {
                assert(self@.take(i + 1) =~= self@.take(i as int).push(n));
                lemma_candidates_push(self@.take(i as int), n, b, e);
            }
            if n.overlaps_window(&range_begin, &range_end) {
                cands.push(n);
            }
        }
        assert(self@.take(self@.len() as int) =~= self@);
        let diff: i128 = range_end.nanos as i128 - range_begin.nanos as i128;
        let interval: i128 = diff / (sample_num as i128);
        for k in 0..sample_num
            invariant
                b == range_begin@,
                e == range_end@,
                0 < sample_num,
                b < e,
                diff == e - b,
                interval as int == (diff as int) / (sample_num as int),
                cands@ == candidates(self@, b, e),
                buf@.len() == k,
                forall|m: int|
                    0 <= m < k ==> (#[trigger] buf@[m])@ == bucket(self@, b, e, sample_num as int, m),
        {
            assert(0 <= k * interval <= diff && (interval == 0 || k * interval <= diff - interval))
                by (nonlinear_arith)
                requires
                    0 <= k < sample_num,
                    sample_num <= u32::MAX,
                    0 < diff,
                    interval as int == (diff as int) / (sample_num as int),
            {
                assert(sample_num * interval <= diff);
                assert(k * interval <= (sample_num - 1) * interval);
            }
            let t: i128 = range_begin.nanos as i128 + (k as i128) * interval;
            assert(t as int == instant_of(b, e, sample_num as int, k as int));
            let mut line: Line = Vec::new();
            for j in 0..cands.len()
                invariant
                    line@ == sounding_at(cands@.take(j as int), t as int),
            {
                let n = cands[j];
                proof {
                    assert(cands@.take(j + 1) =~= cands@.take(j as int).push(n));
                    lemma_sounding_at_push(cands@.take(j as int), n, t as int);
                }
                if n.is_active_at(t) && !holds_pair(&line, n.channel, n.pitch) {
                    line.push(Atom { scale: n.pitch, channel: n.channel });
                }
            }
            proof {
                assert(cands@.take(cands@.len() as int) =~= cands@);
                lemma_candidates_sound_alike(self@, b, e, t as int);
                assert(line@ == bucket(self@, b, e, sample_num as int, k as int));
            }
            buf.push(line);
        }
        proof {
            assert forall|k: int| 0 <= k < buf@.len() implies {
                &&& (#[trigger] buf@[k])@.no_duplicates()
                &&& buf@[k]@.to_set() == pairs_sounding(self@, instant_of(b, e, sample_num as int, k))
            } by {
                lemma_sounding_at_is_set(self@, instant_of(b, e, sample_num as int, k));
            }
        }
        buf
    }

    /// Applies one decoded message stamped `timestamp`.
    pub fn apply_msg(&mut self, msg: NoteMsg, timestamp: Duration)
        requires
            old(self).wf(),
            msg.wf(),
            old(self).last_stamp() <= timestamp@,
        ensures
            final(self).wf(),
            final(self)@ == apply(old(self)@, msg, timestamp),
            final(self).last_stamp() == timestamp@,
    {
        match msg {
            NoteMsg::On { channel, pitch, velocity } => {
                self.notes.push(Note { begin: timestamp, end: None, channel, pitch, velocity });
            },
            NoteMsg::Off { channel, pitch } => {
                proof {
                    lemma_last_open_below(self@, channel, pitch, self@.len() as int);
                }
                match self.find_last_open(channel, pitch) {
                    Some(i) => {
                        self.notes[i].end = Some(timestamp);
                    },
                    None => {},
                }
            },
            NoteMsg::Other => {},
        }
        self.latest = timestamp;
        assert(self.notes@ =~= apply(old(self)@, msg, timestamp));
    }

    /// Decodes one raw message and applies it: a note-on appends an open
    /// note, a note-off closes the latest open note of its channel and pitch,
    /// and anything else, undecodable bytes included, changes nothing.
    pub fn on_event(&mut self, midi: &MidiData)
        requires
            old(self).wf(),
            old(self).last_stamp() <= midi.timestamp@,
        ensures
            final(self).wf(),
            final(self)@ == apply(old(self)@, note_msg_of(midi.message@), midi.timestamp),
            final(self).last_stamp() == midi.timestamp@,
    {
        let msg = decode(midi.message.as_slice());
        proof {
            lemma_note_msg_of_wf(midi.message@);
        }
        self.apply_msg(msg, midi.timestamp);
    }
}

} // verus!
