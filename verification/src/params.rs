//! The plugin's parameters as plain values: velocity, MIDI channel, octave
//! offset and one toggle per key.

use vstd::prelude::*;
use crate::keys::NOTE_COUNT;

verus! {

/// Lowest note velocity.
pub const VELOCITY_MIN: i32 = 1;
/// Highest note velocity.
pub const VELOCITY_MAX: i32 = 127;
/// Velocity of a fresh instance.
pub const VELOCITY_DEFAULT: i32 = 100;

/// Lowest MIDI channel, counted from one.
pub const CHANNEL_MIN: i32 = 1;
/// Highest MIDI channel, counted from one.
pub const CHANNEL_MAX: i32 = 16;
/// MIDI channel of a fresh instance.
pub const CHANNEL_DEFAULT: i32 = 1;

/// Lowest octave offset.
pub const OCTAVE_MIN: i32 = -4;
/// Highest octave offset.
pub const OCTAVE_MAX: i32 = 4;
/// Octave offset of a fresh instance.
pub const OCTAVE_DEFAULT: i32 = 0;

/// Toggle state of one key: whether the user has latched it on.
pub struct NoteParams {
    pub on: bool,
}

/// The parameter values that the note engine reads.
pub struct NoteHolderParams {
    /// Velocity of every NoteOn, `1..=127`.
    pub velocity: i32,
    /// MIDI channel, `1..=16`.
    pub channel: i32,
    /// Shifts every sent note by N octaves (`-4..=4`).
    pub octave_offset: i32,
    /// Toggle state for each key (C2 = index 0 .. C6 = index 48).
    pub notes: Vec<NoteParams>,
}

/// What the note engine reads of the parameters.
pub struct ParamsView {
    pub velocity: int,
    pub channel: int,
    pub octave_offset: int,
    /// `wants[i]`: key `i` is toggled on.
    pub wants: Seq<bool>,
}

impl ParamsView {
    /// Every value lies in its parameter's range and there is one toggle per key.
    pub open spec fn wf(self) -> bool {
        &&& VELOCITY_MIN <= self.velocity <= VELOCITY_MAX
        &&& CHANNEL_MIN <= self.channel <= CHANNEL_MAX
        &&& OCTAVE_MIN <= self.octave_offset <= OCTAVE_MAX
        &&& self.wants.len() == NOTE_COUNT
    }
}

impl View for NoteHolderParams {
    type V = ParamsView;

    open spec fn view(&self) -> ParamsView {
        ParamsView {
            velocity: self.velocity as int,
            channel: self.channel as int,
            octave_offset: self.octave_offset as int,
            wants: self.notes@.map_values(|n: NoteParams| n.on),
        }
    }
}

impl NoteHolderParams {
    /// Every value lies in its parameter's range and there is one toggle per key.
    pub open spec fn wf(&self) -> bool {
        self@.wf()
    }

    /// Tests `wf`.
    pub fn is_valid(&self) -> (b: bool)
        ensures
            b == self.wf(),
    {
        VELOCITY_MIN <= self.velocity && self.velocity <= VELOCITY_MAX && CHANNEL_MIN
            <= self.channel && self.channel <= CHANNEL_MAX && OCTAVE_MIN <= self.octave_offset
            && self.octave_offset <= OCTAVE_MAX && self.notes.len() == NOTE_COUNT
    }
}

impl Default for NoteHolderParams {
    /// Velocity 100, channel 1, no octave offset, every key off.
    fn default() -> (p: Self)
        ensures
            p.wf(),
            p.velocity == VELOCITY_DEFAULT,
            p.channel == CHANNEL_DEFAULT,
            p.octave_offset == OCTAVE_DEFAULT,
            forall|i: int| 0 <= i < NOTE_COUNT ==> !(#[trigger] p@.wants[i]),
    {
        let mut notes: Vec<NoteParams> = Vec::new();
        let mut i: usize = 0;
        while i < NOTE_COUNT
            invariant
                i <= NOTE_COUNT,
                notes@.len() == i,
                forall|j: int| 0 <= j < i ==> !(#[trigger] notes@[j]).on,
            decreases NOTE_COUNT - i,
        {
            notes.push(NoteParams { on: false });
            i = i + 1;
        }
        NoteHolderParams {
            velocity: VELOCITY_DEFAULT,
            channel: CHANNEL_DEFAULT,
            octave_offset: OCTAVE_DEFAULT,
            notes,
        }
    }
}

} // verus!
