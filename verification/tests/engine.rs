use noteholder::engine::{MidiEvent, NoteHolder};
use noteholder::keys::{shifted_note, NOTE_COUNT};
use noteholder::params::{NoteHolderParams, NoteParams};

fn params(velocity: i32, channel: i32, octave_offset: i32, on: &[usize]) -> NoteHolderParams {
    NoteHolderParams {
        velocity,
        channel,
        octave_offset,
        notes: (0..NOTE_COUNT).map(|i| NoteParams { on: on.contains(&i) }).collect(),
    }
}

fn on(channel: u8, note: u8, velocity: u8) -> MidiEvent {
    MidiEvent::NoteOn { channel, note, velocity }
}

fn off(channel: u8, note: u8) -> MidiEvent {
    MidiEvent::NoteOff { channel, note }
}

fn active_keys(h: &NoteHolder) -> Vec<usize> {
    (0..NOTE_COUNT).filter(|&i| h.is_active(i) == Some(true)).collect()
}

#[test]
fn default_params() {
    let p = NoteHolderParams::default();
    assert_eq!(p.velocity, 100);
    assert_eq!(p.channel, 1);
    assert_eq!(p.octave_offset, 0);
    assert_eq!(p.notes.len(), NOTE_COUNT);
    assert!(p.notes.iter().all(|n| !n.on));
    assert!(p.is_valid());
}

#[test]
fn params_out_of_range_are_not_valid() {
    assert!(!params(0, 1, 0, &[]).is_valid());
    assert!(!params(128, 1, 0, &[]).is_valid());
    assert!(!params(100, 0, 0, &[]).is_valid());
    assert!(!params(100, 17, 0, &[]).is_valid());
    assert!(!params(100, 1, 5, &[]).is_valid());
    assert!(!params(100, 1, -5, &[]).is_valid());
    let mut short = params(100, 1, 0, &[]);
    short.notes.pop();
    assert!(!short.is_valid());
    assert!(params(1, 16, -4, &[]).is_valid());
    assert!(params(127, 1, 4, &[]).is_valid());
}

#[test]
fn fresh_engine_is_silent() {
    let mut h = NoteHolder::default();
    assert_eq!(active_keys(&h), Vec::<usize>::new());
    assert_eq!(h.is_active(NOTE_COUNT), None);
    assert_eq!(h.process(&NoteHolderParams::default()), vec![]);
}

#[test]
fn toggling_a_key_on_sends_one_note_on() {
    let mut h = NoteHolder::default();
    let p = params(100, 1, 0, &[0]);
    assert_eq!(h.process(&p), vec![on(0, 36, 100)]);
    assert_eq!(active_keys(&h), vec![0]);
    // Held: nothing more is sent while the key stays on.
    assert_eq!(h.process(&p), vec![]);
}

#[test]
fn several_notes_are_held_at_once() {
    let mut h = NoteHolder::default();
    let p = params(100, 1, 0, &[0, 4, 7, 48]);
    assert_eq!(
        h.process(&p),
        vec![on(0, 36, 100), on(0, 40, 100), on(0, 43, 100), on(0, 84, 100)]
    );
    assert_eq!(active_keys(&h), vec![0, 4, 7, 48]);
}

#[test]
fn toggling_a_key_off_sends_note_off() {
    let mut h = NoteHolder::default();
    h.process(&params(100, 1, 0, &[0, 4]));
    assert_eq!(h.process(&params(100, 1, 0, &[4])), vec![off(0, 36)]);
    assert_eq!(active_keys(&h), vec![4]);
}

#[test]
fn channel_and_velocity_follow_params() {
    let mut h = NoteHolder::default();
    assert_eq!(h.process(&params(64, 3, 0, &[2])), vec![on(2, 38, 64)]);
    assert_eq!(h.process(&params(64, 16, 0, &[])), vec![off(15, 38)]);
}

#[test]
fn octave_change_retriggers_held_notes() {
    let mut h = NoteHolder::default();
    h.process(&params(100, 1, 0, &[0, 1]));
    // Key 1 toggled off and key 2 toggled on in the same block as the change.
    let p = params(100, 1, 1, &[0, 2]);
    assert_eq!(h.process(&p), vec![off(0, 36), on(0, 48, 100), off(0, 37)]);
    assert_eq!(active_keys(&h), vec![0]);
    // Key 2 starts in the next block, at the new octave.
    assert_eq!(h.process(&p), vec![on(0, 50, 100)]);
    assert_eq!(active_keys(&h), vec![0, 2]);
    assert_eq!(h.process(&p), vec![]);
}

#[test]
fn octave_change_releases_at_the_old_octave() {
    let mut h = NoteHolder::default();
    // The first block only adopts the octave offset; the second starts the key.
    assert_eq!(h.process(&params(100, 1, -2, &[10])), vec![]);
    assert_eq!(h.process(&params(100, 1, -2, &[10])), vec![on(0, 22, 100)]);
    assert_eq!(h.process(&params(100, 1, 4, &[10])), vec![off(0, 22), on(0, 94, 100)]);
    assert_eq!(h.process(&params(100, 1, 4, &[])), vec![off(0, 94)]);
}

#[test]
fn reset_releases_every_active_note() {
    let mut h = NoteHolder::default();
    let p = params(100, 1, 0, &[0, 5]);
    h.process(&p);
    h.reset();
    assert_eq!(active_keys(&h), vec![0, 5]);
    assert_eq!(h.process(&p), vec![off(0, 36), off(0, 41)]);
    assert_eq!(active_keys(&h), Vec::<usize>::new());
    // The toggles are untouched, so the next block starts the notes again.
    assert_eq!(h.process(&p), vec![on(0, 36, 100), on(0, 41, 100)]);
}

#[test]
fn reset_flush_uses_the_octave_the_notes_were_sent_with() {
    let mut h = NoteHolder::default();
    h.process(&params(100, 1, 0, &[0]));
    h.reset();
    let p = params(100, 1, 1, &[0]);
    assert_eq!(h.process(&p), vec![off(0, 36)]);
    assert_eq!(h.process(&p), vec![on(0, 48, 100)]);
}

#[test]
fn reset_with_nothing_held_sends_nothing() {
    let mut h = NoteHolder::default();
    h.reset();
    assert_eq!(h.process(&params(100, 1, 0, &[])), vec![]);
}

#[test]
fn all_notes_off_releases_everything() {
    let mut h = NoteHolder::default();
    let all: Vec<usize> = (0..NOTE_COUNT).collect();
    let started = h.process(&params(100, 1, 0, &all));
    assert_eq!(started.len(), NOTE_COUNT);
    let released = h.process(&params(100, 1, 0, &[]));
    assert_eq!(released.len(), NOTE_COUNT);
    assert!(released.iter().all(|e| matches!(e, MidiEvent::NoteOff { .. })));
    assert_eq!(active_keys(&h), Vec::<usize>::new());
}

/// A receiver counting each (channel, note) pair: NoteOn adds one, NoteOff
/// takes one away.
fn apply(receiver: &mut Vec<(u8, u8)>, events: &[MidiEvent]) {
    for e in events {
        match *e {
            MidiEvent::NoteOn { channel, note, .. } => receiver.push((channel, note)),
            MidiEvent::NoteOff { channel, note } => {
                if let Some(k) = receiver.iter().position(|&x| x == (channel, note)) {
                    receiver.remove(k);
                }
            }
        }
    }
}

fn held(h: &NoteHolder, channel: u8, octave: i32) -> Vec<(u8, u8)> {
    let mut v: Vec<(u8, u8)> = active_keys(h).iter().map(|&i| (channel, shifted_note(i, octave))).collect();
    v.sort();
    v
}

#[test]
fn receiver_stays_in_step_with_held_notes() {
    let mut h = NoteHolder::default();
    let mut receiver: Vec<(u8, u8)> = Vec::new();
    let script: Vec<(i32, Vec<usize>, bool)> = vec![
        (0, vec![0, 3, 48], false),
        (0, vec![3, 10], false),
        (4, vec![3, 10, 44, 45, 46], false),
        (4, vec![3, 10, 44, 45, 46, 47, 48], false),
        (4, vec![44, 45, 48], true),
        (-4, vec![0, 1, 12, 13], false),
        (-4, vec![0, 1, 12, 13], false),
        (2, vec![1, 13], true),
        (2, vec![], false),
    ];
    for (octave, keys, reset_first) in script {
        if reset_first {
            h.reset();
        }
        let events = h.process(&params(90, 5, octave, &keys));
        apply(&mut receiver, &events);
        receiver.sort();
        assert_eq!(receiver, held(&h, 4, octave));
    }
    assert!(receiver.is_empty());
}

#[test]
fn engine_settles_within_two_blocks() {
    let mut h = NoteHolder::default();
    h.process(&params(100, 1, 0, &[1, 2, 3]));
    let p = params(100, 1, 3, &[2, 3, 4, 40]);
    h.process(&p);
    h.process(&p);
    assert_eq!(active_keys(&h), vec![2, 3, 4, 40]);
    assert_eq!(h.process(&p), vec![]);
    assert_eq!(active_keys(&h), vec![2, 3, 4, 40]);
}

#[test]
fn every_event_conforms_to_params() {
    let mut h = NoteHolder::default();
    let all: Vec<usize> = (0..NOTE_COUNT).collect();
    for (vel, ch, oct) in [(1, 1, 4), (127, 16, -4), (50, 9, 4), (50, 9, 0)] {
        let events = h.process(&params(vel, ch, oct, &all));
        for e in events {
            match e {
                MidiEvent::NoteOn { channel, note, velocity } => {
                    assert_eq!(channel as i32, ch - 1);
                    assert!(note <= 127);
                    assert_eq!(velocity as i32, vel);
                }
                MidiEvent::NoteOff { channel, note } => {
                    assert_eq!(channel as i32, ch - 1);
                    assert!(note <= 127);
                }
            }
        }
    }
}
