//! The keyboard: its range, which keys are black, where each key sits, and
//! how a key index maps to the MIDI note that is sent.

use vstd::prelude::*;

verus! {

/// Lowest key on the keyboard (C2).
pub const NOTE_MIN: u8 = 36;

/// Highest key on the keyboard (C6).
pub const NOTE_MAX: u8 = 84;

/// Number of keys on the keyboard (`NOTE_MAX - NOTE_MIN + 1`).
pub const NOTE_COUNT: usize = 49;

/// Highest valid MIDI note number.
pub const MIDI_NOTE_MAX: i32 = 127;

/// A value forced into the MIDI note range `0..=127`.
pub open spec fn clamp_midi(v: int) -> int {
    if v < 0 {
        0
    } else if v > 127 {
        127
    } else {
        v
    }
}

/// The MIDI note sent for the key at index `idx` (0 = `NOTE_MIN`) under an
/// octave offset.
pub open spec fn shifted_note_spec(idx: int, octave_offset: int) -> int {
    clamp_midi(NOTE_MIN + idx + octave_offset * 12)
}

/// The inputs on which `shifted_note` computes without an `i32` overflow.
pub open spec fn shifted_note_in_range(idx: int, octave_offset: int) -> bool {
    &&& 0 <= idx
    &&& NOTE_MIN + idx <= i32::MAX
    &&& i32::MIN <= octave_offset * 12 <= i32::MAX
    &&& i32::MIN <= NOTE_MIN + idx + octave_offset * 12 <= i32::MAX
}

/// MIDI note number sent for key at `idx` given the current octave offset.
pub fn shifted_note(idx: usize, octave_offset: i32) -> (note: u8)
    requires
        shifted_note_in_range(idx as int, octave_offset as int),
    ensures
        note as int == shifted_note_spec(idx as int, octave_offset as int),
        note <= 127,
{
    let shift: i32 = octave_offset * 12;
    let v: i32 = NOTE_MIN as i32 + idx as i32 + shift;
    let c: i32 = if v < 0 {
        0
    } else if v > MIDI_NOTE_MAX {
        MIDI_NOTE_MAX
    } else {
        v
    };
    c as u8
}

/// Whether a pitch class (0 = C .. 11 = B) is a black key.
pub open spec fn is_black_class(pc: int) -> bool {
    pc == 1 || pc == 3 || pc == 6 || pc == 8 || pc == 10
}

/// Whether a MIDI note is a black key.
pub open spec fn is_black_spec(note: int) -> bool {
    is_black_class(note % 12)
}

/// Whether `note` is a black key.
pub fn is_black(note: u8) -> (b: bool)
    ensures
        b == is_black_spec(note as int),
{
    let pc: u8 = note % 12;
    pc == 1 || pc == 3 || pc == 6 || pc == 8 || pc == 10
}

/// Offset of a pitch class inside its octave, in half white-key units.
/// White keys sit at their left edge, black keys at their centre.
pub open spec fn class_offset_halves(pc: int) -> int {
    if pc == 0 {
        0
    } else if pc == 1 {
        1
    } else if pc == 2 {
        2
    } else if pc == 3 {
        3
    } else if pc == 4 {
        4
    } else if pc == 5 {
        6
    } else if pc == 6 {
        7
    } else if pc == 7 {
        8
    } else if pc == 8 {
        9
    } else if pc == 9 {
        10
    } else if pc == 10 {
        11
    } else if pc == 11 {
        12
    } else {
        0
    }
}

/// X position of `note` from MIDI 0, in half white-key units: each octave
/// spans seven white keys.
pub open spec fn wk_x_halves_spec(note: int) -> int {
    (note / 12) * 14 + class_offset_halves(note % 12)
}

/// X position of `note` in half white-key units from MIDI 0
/// (twice its position in white-key units).
/// White keys: left edge. Black keys: centre.
pub fn wk_x_halves(note: u8) -> (x: u32)
    ensures
        x as int == wk_x_halves_spec(note as int),
{
    let octave: u32 = (note / 12) as u32;
    let offset: u32 = match note % 12 {
        0 => 0,
        1 => 1,
        2 => 2,
        3 => 3,
        4 => 4,
        5 => 6,
        6 => 7,
        7 => 8,
        8 => 9,
        9 => 10,
        10 => 11,
        11 => 12,
        _ => 0,
    };
    octave * 14 + offset
}

/// Number of white keys among the notes `lo..=hi`.
pub open spec fn white_count_spec(lo: int, hi: int) -> nat
    decreases hi - lo + 1,
{
    if hi < lo {
        0
    } else {
        white_count_spec(lo, hi - 1) + (if is_black_spec(hi) {
            0nat
        } else {
            1nat
        })
    }
}

/// Number of white keys among the notes `lo..=hi` (zero when `hi < lo`).
pub fn white_key_count(lo: u8, hi: u8) -> (n: usize)
    ensures
        n as int == white_count_spec(lo as int, hi as int),
{
    if hi < lo {
        return 0;
    }
    let mut count: usize = 0;
    let mut note: u16 = lo as u16;
    while note <= hi as u16
        invariant
            lo <= hi,
            lo <= note <= hi as int + 1,
            count as int == white_count_spec(lo as int, note - 1),
            count <= note - lo,
        decreases hi as int + 1 - note,
    {
        if !is_black(note as u8) {
            count = count + 1;
        }
        note = note + 1;
    }
    count
}

/// Index of the first key of the given colour, at or after `from`, whose
/// hit flag is set (`hits[i]` stands for the key `NOTE_MIN + i`).
pub open spec fn first_hit_from(hits: Seq<bool>, black: bool, from: int) -> Option<int>
    decreases hits.len() - from,
{
    if from < 0 || from >= hits.len() {
        None
    } else if hits[from] && is_black_spec(NOTE_MIN + from) == black {
        Some(from)
    } else {
        first_hit_from(hits, black, from + 1)
    }
}

/// The key picked by a click: the lowest hit black key, since black keys are
/// drawn on top; otherwise the lowest hit white key; otherwise none.
pub open spec fn pick_key_spec(hits: Seq<bool>) -> Option<int> {
    match first_hit_from(hits, true, 0) {
        Some(i) => Some(NOTE_MIN + i),
        None => match first_hit_from(hits, false, 0) {
            Some(i) => Some(NOTE_MIN + i),
            None => None,
        },
    }
}

fn first_hit(hits: &Vec<bool>, black: bool) -> (r: Option<usize>)
    requires
        hits.len() == NOTE_COUNT,
    ensures
        match first_hit_from(hits@, black, 0) {
            Some(i) => r == Some(i as usize) && 0 <= i < NOTE_COUNT,
            None => r is None,
        },
        r matches Some(i) ==> i < NOTE_COUNT,
{
    let mut i: usize = 0;
    while i < hits.len()
        invariant
            hits.len() == NOTE_COUNT,
            0 <= i <= hits.len(),
            first_hit_from(hits@, black, 0) == first_hit_from(hits@, black, i as int),
        decreases hits.len() - i,
    {
        let note: u8 = NOTE_MIN + i as u8;
        if hits[i] && is_black(note) == black {
            return Some(i);
        }
        i = i + 1;
    }
    None
}

/// Chooses the key under the pointer. `hits[i]` tells whether the drawn
/// rectangle of key `NOTE_MIN + i` contains the pointer.
pub fn pick_key(hits: &Vec<bool>) -> (r: Option<u8>)
    requires
        hits.len() == NOTE_COUNT,
    ensures
        match pick_key_spec(hits@) {
            Some(n) => r == Some(n as u8) && NOTE_MIN <= n <= NOTE_MAX,
            None => r is None,
        },
{
    match first_hit(hits, true) {
        Some(i) => Some(NOTE_MIN + i as u8),
        None => match first_hit(hits, false) {
            Some(i) => Some(NOTE_MIN + i as u8),
            None => None,
        },
    }
}

} // verus!
