use mirmidivi::{Atom, Duration, MidiData, PianoRoll};

fn event(message: Vec<u8>, secs: i64) -> MidiData {
    MidiData { message, timestamp: Duration::seconds(secs) }
}

fn six_events() -> Vec<MidiData> {
    vec![
        event(vec![0x90, 0x60, 0x64], 2),
        event(vec![0x80, 0x60, 0x64], 3),
        event(vec![0x90, 0x7F, 0x64], 4),
        event(vec![0x80, 0x7F, 0x64], 5),
        event(vec![0x90, 0x01, 0x64], 6),
        event(vec![0x80, 0x01, 0x64], 7),
    ]
}

fn roll_of(events: &[MidiData]) -> PianoRoll {
    let mut roll = PianoRoll::new();
    for e in events {
        roll.on_event(e);
    }
    roll
}

#[test]
fn pianoroll_new() {
    let pianoroll = roll_of(&six_events());

    let line = 100;
    let frame = pianoroll.draw(Duration::seconds(0), Duration::seconds(15), line);
    assert_eq!(frame.len(), line as usize);

    let mut elem_exists: bool = false;
    frame.iter().for_each(|elem| {
        if !elem.is_empty() {
            elem_exists = true;
        }
    });

    println!("{:#?}", frame);

    assert!(elem_exists);
}

#[test]
fn six_events_stay_within_their_spans() {
    let roll = roll_of(&six_events());
    let frame = roll.draw(Duration::seconds(0), Duration::seconds(15), 100);
    assert_eq!(frame.len(), 100);
    let spans: [(u8, i64, i64); 3] = [(0x60, 2, 3), (0x7F, 4, 5), (0x01, 6, 7)];
    for (k, bucket) in frame.iter().enumerate() {
        // 15 s over 100 buckets: instant k lies at k * 150 ms.
        let t_ms = k as i64 * 150;
        for (pitch, from, to) in spans {
            let expected = from * 1000 < t_ms && t_ms < to * 1000;
            let present = bucket.iter().any(|a| a.scale == pitch && a.channel == 0);
            assert_eq!(present, expected, "bucket {} pitch {:#x}", k, pitch);
        }
        assert!(bucket.len() <= 1);
    }
    assert_eq!(frame[14], vec![Atom { scale: 0x60, channel: 0 }]);
    assert!(frame[13].is_empty());
    assert!(frame[20].is_empty());
}

#[test]
fn note_on_then_off_gives_one_closed_note() {
    let roll = roll_of(&[event(vec![0x93, 0x40, 0x50], 1), event(vec![0x83, 0x40, 0x00], 4)]);
    assert_eq!(roll.len(), 1);
    let n = roll.get(0);
    assert_eq!(n.begin, Duration::seconds(1));
    assert_eq!(n.end, Some(Duration::seconds(4)));
    assert_eq!((n.channel, n.pitch, n.velocity), (3, 0x40, 0x50));
}

#[test]
fn note_on_then_other_messages_then_off() {
    let roll = roll_of(&[
        event(vec![0x90, 0x40, 0x50], 1),
        event(vec![0x90, 0x41, 0x50], 2),
        event(vec![0xB0, 0x07, 0x64], 2),
        event(vec![0x81, 0x40, 0x00], 3),
        event(vec![0x80, 0x40, 0x00], 5),
    ]);
    assert_eq!(roll.len(), 2);
    assert_eq!(roll.get(0).end, Some(Duration::seconds(5)));
    assert_eq!(roll.get(1).end, None);
}

#[test]
fn unmatched_note_off_changes_nothing() {
    let mut roll = roll_of(&[event(vec![0x90, 0x40, 0x50], 1), event(vec![0x80, 0x40, 0x00], 2)]);
    let before: Vec<_> = (0..roll.len()).map(|i| roll.get(i)).collect();
    roll.on_event(&event(vec![0x80, 0x40, 0x00], 3));
    roll.on_event(&event(vec![0x80, 0x22, 0x00], 3));
    let after: Vec<_> = (0..roll.len()).map(|i| roll.get(i)).collect();
    assert_eq!(before, after);
}

#[test]
fn note_off_on_empty_timeline_adds_nothing() {
    let roll = roll_of(&[event(vec![0x80, 0x40, 0x00], 2)]);
    assert_eq!(roll.len(), 0);
}

#[test]
fn retriggered_notes_close_latest_first() {
    let roll = roll_of(&[
        event(vec![0x90, 0x40, 0x10], 1),
        event(vec![0x90, 0x40, 0x20], 2),
        event(vec![0x80, 0x40, 0x00], 3),
        event(vec![0x80, 0x40, 0x00], 4),
    ]);
    assert_eq!(roll.len(), 2);
    assert_eq!(roll.get(0).velocity, 0x10);
    assert_eq!(roll.get(0).end, Some(Duration::seconds(4)));
    assert_eq!(roll.get(1).velocity, 0x20);
    assert_eq!(roll.get(1).end, Some(Duration::seconds(3)));
}

#[test]
fn sampling_twice_gives_the_same_frame() {
    let roll = roll_of(&six_events());
    let a = roll.draw(Duration::seconds(1), Duration::seconds(9), 37);
    let b = roll.draw(Duration::seconds(1), Duration::seconds(9), 37);
    assert_eq!(a, b);
}

#[test]
fn zero_buckets_give_an_empty_frame() {
    let roll = roll_of(&six_events());
    assert!(roll.draw(Duration::seconds(0), Duration::seconds(15), 0).is_empty());
}

#[test]
fn reversed_window_gives_empty_buckets() {
    let roll = roll_of(&six_events());
    let frame = roll.draw(Duration::seconds(8), Duration::seconds(1), 12);
    assert_eq!(frame.len(), 12);
    assert!(frame.iter().all(|b| b.is_empty()));
    let frame = roll.draw(Duration::seconds(3), Duration::seconds(3), 5);
    assert_eq!(frame.len(), 5);
    assert!(frame.iter().all(|b| b.is_empty()));
}

#[test]
fn open_note_covers_the_rest_of_the_window() {
    let roll = roll_of(&[event(vec![0x90, 0x30, 0x40], 2)]);
    let frame = roll.draw(Duration::seconds(0), Duration::seconds(10), 5);
    assert_eq!(frame.len(), 5);
    // Instants 0 s, 2 s, 4 s, 6 s, 8 s: a note begun at 2 s sounds after it.
    assert!(frame[0].is_empty());
    assert!(frame[1].is_empty());
    for k in 2..5 {
        assert_eq!(frame[k], vec![Atom { scale: 0x30, channel: 0 }]);
    }
}

#[test]
fn open_note_begun_before_the_window_is_sampled() {
    let roll = roll_of(&[event(vec![0x90, 0x30, 0x40], 2)]);
    let frame = roll.draw(Duration::seconds(20), Duration::seconds(30), 4);
    assert!(frame.iter().all(|b| b == &vec![Atom { scale: 0x30, channel: 0 }]));
}

#[test]
fn bucket_lists_overlapping_notes_in_timeline_order() {
    let roll = roll_of(&[
        event(vec![0x92, 0x10, 0x40], 1),
        event(vec![0x95, 0x20, 0x40], 1),
        event(vec![0x90, 0x10, 0x40], 2),
    ]);
    let frame = roll.draw(Duration::seconds(3), Duration::seconds(4), 1);
    assert_eq!(
        frame[0],
        vec![
            Atom { scale: 0x10, channel: 2 },
            Atom { scale: 0x20, channel: 5 },
            Atom { scale: 0x10, channel: 0 },
        ]
    );
}

#[test]
fn interval_rounds_down_to_whole_nanoseconds() {
    let mut roll = PianoRoll::new();
    roll.on_event(&MidiData { message: vec![0x90, 0x10, 0x40], timestamp: Duration::nanoseconds(1) });
    // 10 ns over 3 buckets: instants 0, 3 and 6 ns.
    let frame = roll.draw(Duration::nanoseconds(0), Duration::nanoseconds(10), 3);
    assert!(frame[0].is_empty());
    assert_eq!(frame[1].len(), 1);
    assert_eq!(frame[2].len(), 1);
}

#[test]
fn retriggered_pair_appears_once_per_bucket() {
    let roll = roll_of(&[
        event(vec![0x90, 0x40, 0x10], 1),
        event(vec![0x91, 0x22, 0x10], 1),
        event(vec![0x90, 0x40, 0x20], 2),
    ]);
    let frame = roll.draw(Duration::seconds(3), Duration::seconds(5), 2);
    for bucket in &frame {
        assert_eq!(
            bucket,
            &vec![Atom { scale: 0x40, channel: 0 }, Atom { scale: 0x22, channel: 1 }]
        );
    }
    // Once the later note closes, the earlier one still shows the pair.
    let mut roll = roll;
    roll.on_event(&event(vec![0x80, 0x40, 0x00], 6));
    let frame = roll.draw(Duration::seconds(7), Duration::seconds(8), 1);
    assert_eq!(
        frame[0],
        vec![Atom { scale: 0x40, channel: 0 }, Atom { scale: 0x22, channel: 1 }]
    );
}
