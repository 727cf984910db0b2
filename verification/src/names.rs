//! Note names with octave numbers, e.g. "C2", "F#4", "B-1".

use vstd::prelude::*;
use vstd::string::StringExecFns;
use crate::keys::clamp_midi;

verus! {

/// Name of a pitch class (0 = C .. 11 = B), sharps for black keys.
pub open spec fn pitch_class_name(pc: int) -> Seq<char> {
    if pc == 0 {
        seq!['C']
    } else if pc == 1 {
        seq!['C', '#']
    } else if pc == 2 {
        seq!['D']
    } else if pc == 3 {
        seq!['D', '#']
    } else if pc == 4 {
        seq!['E']
    } else if pc == 5 {
        seq!['F']
    } else if pc == 6 {
        seq!['F', '#']
    } else if pc == 7 {
        seq!['G']
    } else if pc == 8 {
        seq!['G', '#']
    } else if pc == 9 {
        seq!['A']
    } else if pc == 10 {
        seq!['A', '#']
    } else {
        seq!['B']
    }
}

/// The decimal digit character for `d` in `0..=9`.
pub open spec fn digit_char(d: int) -> char {
    seq!['0', '1', '2', '3', '4', '5', '6', '7', '8', '9'][d]
}

/// Decimal text of a natural number, without leading zeros.
pub open spec fn nat_decimal(n: nat) -> Seq<char>
    decreases n,
{
    if n < 10 {
        seq![digit_char(n as int)]
    } else {
        nat_decimal(n / 10) + seq![digit_char((n % 10) as int)]
    }
}

/// Decimal text of an integer, with a leading '-' when negative.
pub open spec fn int_decimal(v: int) -> Seq<char> {
    if v < 0 {
        seq!['-'] + nat_decimal((-v) as nat)
    } else {
        nat_decimal(v as nat)
    }
}

/// The MIDI note named for key `key_note` under an octave offset.
pub open spec fn named_midi(key_note: int, octave_offset: int) -> int {
    clamp_midi(key_note + octave_offset * 12)
}

/// The name of a MIDI note in `0..=127`: pitch class, then octave number,
/// MIDI 60 being "C4".
pub open spec fn midi_note_name(midi: int) -> Seq<char> {
    pitch_class_name(midi % 12) + int_decimal(midi / 12 - 1)
}

/// Name shown for key `key_note` under an octave offset.
pub open spec fn note_name_spec(key_note: int, octave_offset: int) -> Seq<char> {
    midi_note_name(named_midi(key_note, octave_offset))
}

/// The inputs on which `note_name_display` computes without an `i32` overflow.
pub open spec fn note_name_in_range(key_note: int, octave_offset: int) -> bool {
    &&& i32::MIN <= octave_offset * 12 <= i32::MAX
    &&& i32::MIN <= key_note + octave_offset * 12 <= i32::MAX
}

fn pitch_class_str(pc: u8) -> (s: &'static str)
    requires
        pc < 12,
    ensures
        s@ == pitch_class_name(pc as int),
{
    match pc {
        0 => {
            proof {
                reveal_strlit("C");
            }
            assert("C"@ =~= pitch_class_name(0));
            "C"
        },
        1 => {
            proof {
                reveal_strlit("C#");
            }
            assert("C#"@ =~= pitch_class_name(1));
            "C#"
        },
        2 => {
            proof {
                reveal_strlit("D");
            }
            assert("D"@ =~= pitch_class_name(2));
            "D"
        },
        3 => {
            proof {
                reveal_strlit("D#");
            }
            assert("D#"@ =~= pitch_class_name(3));
            "D#"
        },
        4 => {
            proof {
                reveal_strlit("E");
            }
            assert("E"@ =~= pitch_class_name(4));
            "E"
        },
        5 => {
            proof {
                reveal_strlit("F");
            }
            assert("F"@ =~= pitch_class_name(5));
            "F"
        },
        6 => {
            proof {
                reveal_strlit("F#");
            }
            assert("F#"@ =~= pitch_class_name(6));
            "F#"
        },
        7 => {
            proof {
                reveal_strlit("G");
            }
            assert("G"@ =~= pitch_class_name(7));
            "G"
        },
        8 => {
            proof {
                reveal_strlit("G#");
            }
            assert("G#"@ =~= pitch_class_name(8));
            "G#"
        },
        9 => {
            proof {
                reveal_strlit("A");
            }
            assert("A"@ =~= pitch_class_name(9));
            "A"
        },
        10 => {
            proof {
                reveal_strlit("A#");
            }
            assert("A#"@ =~= pitch_class_name(10));
            "A#"
        },
        _ => {
            proof {
                reveal_strlit("B");
            }
            assert("B"@ =~= pitch_class_name(11));
            "B"
        },
    }
}

fn octave_str(octave: i32) -> (s: &'static str)
    requires
        -1 <= octave <= 9,
    ensures
        s@ == int_decimal(octave as int),
{
    proof {
        reveal_with_fuel(nat_decimal, 1);
    }
    match octave {
        -1 => {
            proof {
                reveal_strlit("-1");
            }
            assert("-1"@ =~= int_decimal(-1));
            "-1"
        },
        0 => {
            proof {
                reveal_strlit("0");
            }
            assert("0"@ =~= int_decimal(0));
            "0"
        },
        1 => {
            proof {
                reveal_strlit("1");
            }
            assert("1"@ =~= int_decimal(1));
            "1"
        },
        2 => {
            proof {
                reveal_strlit("2");
            }
            assert("2"@ =~= int_decimal(2));
            "2"
        },
        3 => {
            proof {
                reveal_strlit("3");
            }
            assert("3"@ =~= int_decimal(3));
            "3"
        },
        4 => {
            proof {
                reveal_strlit("4");
            }
            assert("4"@ =~= int_decimal(4));
            "4"
        },
        5 => {
            proof {
                reveal_strlit("5");
            }
            assert("5"@ =~= int_decimal(5));
            "5"
        },
        6 => {
            proof {
                reveal_strlit("6");
            }
            assert("6"@ =~= int_decimal(6));
            "6"
        },
        7 => {
            proof {
                reveal_strlit("7");
            }
            assert("7"@ =~= int_decimal(7));
            "7"
        },
        8 => {
            proof {
                reveal_strlit("8");
            }
            assert("8"@ =~= int_decimal(8));
            "8"
        },
        _ => {
            proof {
                reveal_strlit("9");
            }
            assert("9"@ =~= int_decimal(9));
            "9"
        },
    }
}

/// Note name string including octave, accounting for octave offset.
/// e.g. key C2 (MIDI 36) with offset +1 gives "C3".
pub fn note_name_display(key_note: u8, octave_offset: i32) -> (name: String)
    requires
        note_name_in_range(key_note as int, octave_offset as int),
    ensures
        name@ == note_name_spec(key_note as int, octave_offset as int),
{
    let shift: i32 = octave_offset * 12;
    let raw: i32 = key_note as i32 + shift;
    let midi: i32 = if raw < 0 {
        0
    } else if raw > 127 {
        127
    } else {
        raw
    };
    let octave: i32 = midi / 12 - 1;
    let pc: u8 = (midi % 12) as u8;
    let mut name = String::from_str(pitch_class_str(pc));
    name.append(octave_str(octave));
    name
}

} // verus!
