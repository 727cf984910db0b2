//! The note engine: which keys have had a NoteOn sent, and the NoteOn /
//! NoteOff events that one processing block sends.

use vstd::prelude::*;
use crate::keys::{NOTE_COUNT, shifted_note, shifted_note_spec};
use crate::params::{NoteHolderParams, ParamsView, OCTAVE_MIN, OCTAVE_MAX, OCTAVE_DEFAULT};

verus! {

/// A MIDI event sent at the start of a block.
#[derive(PartialEq, Eq, Structural, Debug, Clone, Copy)]
pub enum MidiEvent {
    /// Start `note` on `channel` (0-based) with `velocity` in `1..=127`.
    NoteOn { channel: u8, note: u8, velocity: u8 },
    /// Release `note` on `channel` (0-based).
    NoteOff { channel: u8, note: u8 },
}

/// The engine state: `active[i]` holds when key `i` has had a NoteOn sent and
/// no NoteOff since; `pending` asks the next block to release everything;
/// `prev` is the octave offset that the active notes were sent with.
pub struct EngineState {
    pub active: Seq<bool>,
    pub pending: bool,
    pub prev: int,
}

impl EngineState {
    /// One flag per key, and an octave offset within the parameter's range.
    pub open spec fn wf(self) -> bool {
        &&& self.active.len() == NOTE_COUNT
        &&& OCTAVE_MIN <= self.prev <= OCTAVE_MAX
    }
}

/// The 0-based channel that events are sent on.
pub open spec fn event_channel(p: ParamsView) -> u8 {
    (p.channel - 1) as u8
}

/// The velocity of every NoteOn.
pub open spec fn event_velocity(p: ParamsView) -> u8 {
    p.velocity as u8
}

/// NoteOff for key `idx` as sent under `octave`.
pub open spec fn off_event(ch: u8, idx: int, octave: int) -> MidiEvent {
    MidiEvent::NoteOff { channel: ch, note: shifted_note_spec(idx, octave) as u8 }
}

/// NoteOn for key `idx` under `octave`.
pub open spec fn on_event(ch: u8, idx: int, octave: int, vel: u8) -> MidiEvent {
    MidiEvent::NoteOn { channel: ch, note: shifted_note_spec(idx, octave) as u8, velocity: vel }
}

/// The events of keys `0..n`, key by key, `f(i)` being those of key `i`.
pub open spec fn concat_upto(f: spec_fn(int) -> Seq<MidiEvent>, n: nat) -> Seq<MidiEvent>
    decreases n,
{
    if n == 0 {
        Seq::empty()
    } else {
        concat_upto(f, (n - 1) as nat) + f(n - 1)
    }
}

/// Release after a reset: a NoteOff for key `i` if it is active.
pub open spec fn flush_at(active: Seq<bool>, ch: u8, prev: int, i: int) -> Seq<MidiEvent> {
    if active[i] {
        seq![off_event(ch, i, prev)]
    } else {
        Seq::empty()
    }
}

/// Octave change: an active key is released at the old octave, then sent
/// again at the new one if it is still toggled on.
pub open spec fn retrigger_at(
    active: Seq<bool>,
    wants: Seq<bool>,
    ch: u8,
    vel: u8,
    prev: int,
    octave: int,
    i: int,
) -> Seq<MidiEvent> {
    if active[i] {
        if wants[i] {
            seq![off_event(ch, i, prev), on_event(ch, i, octave, vel)]
        } else {
            seq![off_event(ch, i, prev)]
        }
    } else {
        Seq::empty()
    }
}

/// Normal block: a key toggled on but not active is started; a key active
/// but toggled off is released.
pub open spec fn sync_at(
    active: Seq<bool>,
    wants: Seq<bool>,
    ch: u8,
    vel: u8,
    octave: int,
    i: int,
) -> Seq<MidiEvent> {
    if wants[i] && !active[i] {
        seq![on_event(ch, i, octave, vel)]
    } else if !wants[i] && active[i] {
        seq![off_event(ch, i, octave)]
    } else {
        Seq::empty()
    }
}

/// `flush_at` as a function of the key.
pub open spec fn flush_fn(active: Seq<bool>, ch: u8, prev: int) -> spec_fn(int) -> Seq<MidiEvent> {
    |i: int| flush_at(active, ch, prev, i)
}

/// `retrigger_at` as a function of the key.
pub open spec fn retrigger_fn(
    active: Seq<bool>,
    wants: Seq<bool>,
    ch: u8,
    vel: u8,
    prev: int,
    octave: int,
) -> spec_fn(int) -> Seq<MidiEvent> {
    |i: int| retrigger_at(active, wants, ch, vel, prev, octave, i)
}

/// `sync_at` as a function of the key.
pub open spec fn sync_fn(
    active: Seq<bool>,
    wants: Seq<bool>,
    ch: u8,
    vel: u8,
    octave: int,
) -> spec_fn(int) -> Seq<MidiEvent> {
    |i: int| sync_at(active, wants, ch, vel, octave, i)
}

/// The release events of keys `0..n`.
pub open spec fn flush_prefix(active: Seq<bool>, ch: u8, prev: int, n: nat) -> Seq<MidiEvent> {
    concat_upto(flush_fn(active, ch, prev), n)
}

/// The retrigger events of keys `0..n`.
pub open spec fn retrigger_prefix(
    active: Seq<bool>,
    wants: Seq<bool>,
    ch: u8,
    vel: u8,
    prev: int,
    octave: int,
    n: nat,
) -> Seq<MidiEvent> {
    concat_upto(retrigger_fn(active, wants, ch, vel, prev, octave), n)
}

/// The NoteOn / NoteOff events of keys `0..n` in a normal block.
pub open spec fn sync_prefix(
    active: Seq<bool>,
    wants: Seq<bool>,
    ch: u8,
    vel: u8,
    octave: int,
    n: nat,
) -> Seq<MidiEvent> {
    concat_upto(sync_fn(active, wants, ch, vel, octave), n)
}

/// One processing block: from the state and the parameters to the next
/// state and the events sent.
pub open spec fn step(s: EngineState, p: ParamsView) -> (EngineState, Seq<MidiEvent>) {
    let ch = event_channel(p);
    let vel = event_velocity(p);
    let n = s.active.len();
    if s.pending {
        // Post-reset flush: release everything, adopt the octave offset.
        (
            EngineState { active: Seq::new(n, |i: int| false), pending: false, prev: p.octave_offset },
            flush_prefix(s.active, ch, s.prev, n),
        )
    } else if p.octave_offset != s.prev {
        // Octave offset changed: retrigger all held notes.
        (
            EngineState {
                active: Seq::new(n, |i: int| s.active[i] && p.wants[i]),
                pending: false,
                prev: p.octave_offset,
            },
            retrigger_prefix(s.active, p.wants, ch, vel, s.prev, p.octave_offset, n),
        )
    } else {
        // Normal note-on / note-off detection.
        (
            EngineState { active: Seq::new(n, |i: int| p.wants[i]), pending: false, prev: s.prev },
            sync_prefix(s.active, p.wants, ch, vel, s.prev, n),
        )
    }
}

/// The state that `reset` leaves: the same, with a flush pending.
pub open spec fn reset_state(s: EngineState) -> EngineState {
    EngineState { pending: true, ..s }
}

/// The plugin's DSP state.
pub struct NoteHolder {
    /// Which notes have had NoteOn sent (not yet NoteOff).
    note_active: Vec<bool>,
    /// Set by reset() so the next process() flushes NoteOff for all active notes.
    pending_all_notes_off: bool,
    /// Octave offset that the active notes were sent with.
    prev_octave_offset: i32,
}

impl View for NoteHolder {
    type V = EngineState;

    closed spec fn view(&self) -> EngineState {
        EngineState {
            active: self.note_active@,
            pending: self.pending_all_notes_off,
            prev: self.prev_octave_offset as int,
        }
    }
}

/// Releases every active key: a NoteOff for each, sent under `octave`.
fn release_all(active: &mut Vec<bool>, channel: u8, octave: i32) -> (events: Vec<MidiEvent>)
    requires
        old(active)@.len() == NOTE_COUNT,
        OCTAVE_MIN <= octave <= OCTAVE_MAX,
    ensures
        final(active)@ == Seq::new(NOTE_COUNT as nat, |i: int| false),
        events@ == flush_prefix(old(active)@, channel, octave as int, NOTE_COUNT as nat),
{
    let ghost before = active@;
    let mut events: Vec<MidiEvent> = Vec::new();
    let mut i: usize = 0;
    while i < NOTE_COUNT
        invariant
            OCTAVE_MIN <= octave <= OCTAVE_MAX,
            i <= NOTE_COUNT,
            before.len() == NOTE_COUNT,
            active@.len() == NOTE_COUNT,
            forall|j: int| 0 <= j < i ==> !(#[trigger] active@[j]),
            forall|j: int| i <= j < NOTE_COUNT ==> #[trigger] active@[j] == before[j],
            events@ == flush_prefix(before, channel, octave as int, i as nat),
        decreases NOTE_COUNT - i,
    {
        if active[i] {
            let note = shifted_note(i, octave);
            events.push(MidiEvent::NoteOff { channel, note });
            active.set(i, false);
        }
        assert(events@ == flush_prefix(before, channel, octave as int, (i + 1) as nat));
        i = i + 1;
    }
    assert(active@ =~= Seq::new(NOTE_COUNT as nat, |i: int| false));
    events
}

/// Releases every active key at octave `prev`, and starts it again at
/// `octave` if it is still toggled on.
fn retrigger_all(
    active: &mut Vec<bool>,
    notes: &NoteHolderParams,
    channel: u8,
    velocity: u8,
    prev: i32,
    octave: i32,
) -> (events: Vec<MidiEvent>)
    requires
        old(active)@.len() == NOTE_COUNT,
        notes@.wants.len() == NOTE_COUNT,
        OCTAVE_MIN <= prev <= OCTAVE_MAX,
        OCTAVE_MIN <= octave <= OCTAVE_MAX,
    ensures
        final(active)@ == Seq::new(
            NOTE_COUNT as nat,
            |i: int| old(active)@[i] && notes@.wants[i],
        ),
        events@ == retrigger_prefix(
            old(active)@,
            notes@.wants,
            channel,
            velocity,
            prev as int,
            octave as int,
            NOTE_COUNT as nat,
        ),
{
    let ghost before = active@;
    let ghost wants = notes@.wants;
    let mut events: Vec<MidiEvent> = Vec::new();
    let mut i: usize = 0;
    while i < NOTE_COUNT
        invariant
            OCTAVE_MIN <= prev <= OCTAVE_MAX,
            OCTAVE_MIN <= octave <= OCTAVE_MAX,
            i <= NOTE_COUNT,
            before.len() == NOTE_COUNT,
            wants == notes@.wants,
            wants.len() == NOTE_COUNT,
            notes.notes@.len() == NOTE_COUNT,
            active@.len() == NOTE_COUNT,
            forall|j: int| 0 <= j < i ==> #[trigger] active@[j] == (before[j] && wants[j]),
            forall|j: int| i <= j < NOTE_COUNT ==> #[trigger] active@[j] == before[j],
            events@ == retrigger_prefix(
                before,
                wants,
                channel,
                velocity,
                prev as int,
                octave as int,
                i as nat,
            ),
        decreases NOTE_COUNT - i,
    {
        if active[i] {
            let old_note = shifted_note(i, prev);
            events.push(MidiEvent::NoteOff { channel, note: old_note });
            if notes.notes[i].on {
                let new_note = shifted_note(i, octave);
                events.push(MidiEvent::NoteOn { channel, note: new_note, velocity });
            } else {
                active.set(i, false);
            }
        }
        assert(wants[i as int] == notes.notes@[i as int].on);
        assert(events@ =~= retrigger_prefix(
            before,
            wants,
            channel,
            velocity,
            prev as int,
            octave as int,
            (i + 1) as nat,
        ));
        i = i + 1;
    }
    assert(active@ =~= Seq::new(NOTE_COUNT as nat, |i: int| before[i] && wants[i]));
    events
}

/// Starts the keys toggled on but not active, and releases the keys active
/// but toggled off, all under `octave`.
fn sync_all(
    active: &mut Vec<bool>,
    notes: &NoteHolderParams,
    channel: u8,
    velocity: u8,
    octave: i32,
) -> (events: Vec<MidiEvent>)
    requires
        old(active)@.len() == NOTE_COUNT,
        notes@.wants.len() == NOTE_COUNT,
        OCTAVE_MIN <= octave <= OCTAVE_MAX,
    ensures
        final(active)@ == Seq::new(NOTE_COUNT as nat, |i: int| notes@.wants[i]),
        events@ == sync_prefix(
            old(active)@,
            notes@.wants,
            channel,
            velocity,
            octave as int,
            NOTE_COUNT as nat,
        ),
{
    let ghost before = active@;
    let ghost wants = notes@.wants;
    let mut events: Vec<MidiEvent> = Vec::new();
    let mut i: usize = 0;
    while i < NOTE_COUNT
        invariant
            OCTAVE_MIN <= octave <= OCTAVE_MAX,
            i <= NOTE_COUNT,
            before.len() == NOTE_COUNT,
            wants == notes@.wants,
            wants.len() == NOTE_COUNT,
            notes.notes@.len() == NOTE_COUNT,
            active@.len() == NOTE_COUNT,
            forall|j: int| 0 <= j < i ==> #[trigger] active@[j] == wants[j],
            forall|j: int| i <= j < NOTE_COUNT ==> #[trigger] active@[j] == before[j],
            events@ == sync_prefix(before, wants, channel, velocity, octave as int, i as nat),
        decreases NOTE_COUNT - i,
    {
        let want = notes.notes[i].on;
        let note = shifted_note(i, octave);
        if want && !active[i] {
            events.push(MidiEvent::NoteOn { channel, note, velocity });
            active.set(i, true);
        } else if !want && active[i] {
            events.push(MidiEvent::NoteOff { channel, note });
            active.set(i, false);
        }
        assert(wants[i as int] == notes.notes@[i as int].on);
        assert(events@ =~= sync_prefix(
            before,
            wants,
            channel,
            velocity,
            octave as int,
            (i + 1) as nat,
        ));
        i = i + 1;
    }
    assert(active@ =~= Seq::new(NOTE_COUNT as nat, |i: int| wants[i]));
    events
}

impl NoteHolder {
    /// One flag per key, and an octave offset within the parameter's range.
    pub open spec fn wf(&self) -> bool {
        self@.wf()
    }

    /// Signals the next `process` to send NoteOff for all active notes.
    /// The key toggles are left as they are.
    pub fn reset(&mut self)
        ensures
            final(self)@ == reset_state(old(self)@),
    {
        self.pending_all_notes_off = true;
    }

    /// Runs one block: returns the events to send, in order, and updates
    /// which notes are active, as `step` states.
    pub fn process(&mut self, params: &NoteHolderParams) -> (events: Vec<MidiEvent>)
        requires
            old(self).wf(),
            params.wf(),
        ensures
            final(self).wf(),
            (final(self)@, events@) == step(old(self)@, params@),
    {
        let channel: u8 = (params.channel - 1) as u8;
        let velocity: u8 = params.velocity as u8;
        let octave_offset: i32 = params.octave_offset;

        if self.pending_all_notes_off {
            self.pending_all_notes_off = false;
            let events = release_all(&mut self.note_active, channel, self.prev_octave_offset);
            self.prev_octave_offset = octave_offset;
            return events;
        }
        if octave_offset != self.prev_octave_offset {
            let events = retrigger_all(
                &mut self.note_active,
                params,
                channel,
                velocity,
                self.prev_octave_offset,
                octave_offset,
            );
            self.prev_octave_offset = octave_offset;
            return events;
        }
        sync_all(&mut self.note_active, params, channel, velocity, octave_offset)
    }

    /// Whether key `idx` has had a NoteOn sent and no NoteOff since;
    /// `None` past the last key.
    pub fn is_active(&self, idx: usize) -> (r: Option<bool>)
        ensures
            idx < self@.active.len() ==> r == Some(self@.active[idx as int]),
            idx >= self@.active.len() ==> r is None,
    {
        if idx < self.note_active.len() {
            Some(self.note_active[idx])
        } else {
            None
        }
    }
}

impl Default for NoteHolder {
    /// No note active, no flush pending, no octave offset.
    fn default() -> (h: Self)
        ensures
            h.wf(),
            h@ == (EngineState {
                active: Seq::new(NOTE_COUNT as nat, |i: int| false),
                pending: false,
                prev: OCTAVE_DEFAULT as int,
            }),
    {
        let mut note_active: Vec<bool> = Vec::new();
        let mut i: usize = 0;
        while i < NOTE_COUNT
            invariant
                i <= NOTE_COUNT,
                note_active@.len() == i,
                forall|j: int| 0 <= j < i ==> !(#[trigger] note_active@[j]),
            decreases NOTE_COUNT - i,
        {
            note_active.push(false);
            i = i + 1;
        }
        let h = NoteHolder {
            note_active,
            pending_all_notes_off: false,
            prev_octave_offset: OCTAVE_DEFAULT,
        };
        assert(h@.active =~= Seq::new(NOTE_COUNT as nat, |i: int| false));
        h
    }
}

} // verus!
