use mirmidivi::{Duration, MidiData, PianoRoll};

fn apply(roll: &mut PianoRoll, message: Vec<u8>, secs: i64) {
    roll.on_event(&MidiData { message, timestamp: Duration::seconds(secs) });
}

#[test]
fn note_on_takes_channel_from_status_byte() {
    let mut roll = PianoRoll::new();
    apply(&mut roll, vec![0x9F, 0x7F, 0x01], 1);
    let n = roll.get(0);
    assert_eq!((n.channel, n.pitch, n.velocity), (15, 0x7F, 0x01));
    assert_eq!(n.begin, Duration::seconds(1));
    assert_eq!(n.end, None);
}

#[test]
fn note_on_with_zero_velocity_is_still_a_note_on() {
    let mut roll = PianoRoll::new();
    apply(&mut roll, vec![0x90, 0x40, 0x64], 1);
    apply(&mut roll, vec![0x90, 0x40, 0x00], 2);
    assert_eq!(roll.len(), 2);
    assert_eq!(roll.get(1).velocity, 0);
    assert_eq!(roll.get(0).end, None);
}

#[test]
fn note_off_of_another_channel_does_not_close() {
    let mut roll = PianoRoll::new();
    apply(&mut roll, vec![0x90, 0x40, 0x64], 1);
    apply(&mut roll, vec![0x81, 0x40, 0x00], 2);
    assert_eq!(roll.get(0).end, None);
}

#[test]
fn other_and_malformed_messages_are_ignored() {
    let mut roll = PianoRoll::new();
    apply(&mut roll, vec![], 1);
    apply(&mut roll, vec![0x90, 0x40], 1);
    apply(&mut roll, vec![0x90, 0x80, 0x10], 1);
    apply(&mut roll, vec![0xB0, 0x07, 0x64], 1);
    apply(&mut roll, vec![0xC0, 0x05], 1);
    apply(&mut roll, vec![0xF8], 1);
    apply(&mut roll, vec![0x40, 0x40, 0x40], 1);
    assert_eq!(roll.len(), 0);
}

#[test]
fn bytes_after_a_note_message_are_ignored() {
    let mut roll = PianoRoll::new();
    apply(&mut roll, vec![0x91, 0x40, 0x64, 0x42, 0x64], 1);
    assert_eq!(roll.len(), 1);
    assert_eq!(roll.get(0).pitch, 0x40);
    assert_eq!(roll.get(0).channel, 1);
}

#[test]
fn latest_follows_applied_messages() {
    let mut roll = PianoRoll::new();
    apply(&mut roll, vec![0xB0, 0x07, 0x64], 4);
    assert_eq!(roll.latest(), Duration::seconds(4));
}

#[test]
fn control_change_after_a_note_on_keeps_it_a_note_on() {
    let mut roll = PianoRoll::new();
    apply(&mut roll, vec![0x92, 0x40, 0x64, 0xB2, 0x58, 0x10], 1);
    assert_eq!(roll.len(), 1);
    assert_eq!(roll.get(0).velocity, 0x64);
    assert_eq!(roll.get(0).channel, 2);
}
