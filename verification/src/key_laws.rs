//! Properties of the keyboard functions: the note sent for a key, the key a
//! click picks, the black-key pattern, and note names.

use vstd::prelude::*;
use crate::keys::{
    NOTE_COUNT,
    NOTE_MIN,
    NOTE_MAX,
    shifted_note_spec,
    is_black_spec,
    white_count_spec,
    first_hit_from,
    pick_key_spec,
};
use crate::names::{int_decimal, midi_note_name, note_name_spec, nat_decimal, pitch_class_name};

verus! {

// ── The note sent for a key ──────────────────────────────────────────────────

/// The note sent for key `idx` under octave offset `o`:
/// - it is always a valid MIDI note;
/// - with no offset it is the key's own note (C2 is MIDI 36);
/// - one octave more raises it by exactly 12 semitones, unless that leaves
///   the MIDI range;
/// - it rises (weakly) with the key and with the offset;
/// - past either end of the MIDI range it sticks to that end.
pub proof fn lemma_shifted_note_octaves(idx: int, o: int)
    requires
        0 <= idx,
    ensures
        0 <= shifted_note_spec(idx, o) <= 127,
        NOTE_MIN + idx <= 127 ==> shifted_note_spec(idx, 0) == NOTE_MIN + idx,
        0 <= shifted_note_spec(idx, o) + 12 <= 127 && 0 <= NOTE_MIN + idx + 12 * o
            ==> shifted_note_spec(idx, o + 1) == shifted_note_spec(idx, o) + 12,
        0 <= NOTE_MIN + idx + 12 * o <= 127 ==> shifted_note_spec(idx, o) - 12 * o == NOTE_MIN
            + idx,
        shifted_note_spec(idx, o) <= shifted_note_spec(idx + 1, o),
        shifted_note_spec(idx, o) <= shifted_note_spec(idx, o + 1),
        NOTE_MIN + idx + 12 * o > 127 ==> shifted_note_spec(idx, o) == 127,
        NOTE_MIN + idx + 12 * o < 0 ==> shifted_note_spec(idx, o) == 0,
{
}

// ── The key a click picks ────────────────────────────────────────────────────

proof fn lemma_first_hit_from(hits: Seq<bool>, black: bool, from: int)
    requires
        0 <= from <= hits.len(),
    ensures
        match first_hit_from(hits, black, from) {
            Some(i) => {
                &&& from <= i < hits.len()
                &&& hits[i]
                &&& is_black_spec(NOTE_MIN + i) == black
                &&& forall|j: int|
                    from <= j < i ==> !(#[trigger] hits[j] && is_black_spec(NOTE_MIN + j)
                        == black)
            },
            None => forall|j: int|
                from <= j < hits.len() ==> !(#[trigger] hits[j] && is_black_spec(NOTE_MIN + j)
                    == black),
        },
    decreases hits.len() - from,
{
    if from < hits.len() {
        lemma_first_hit_from(hits, black, from + 1);
    }
}

/// A click picks a key exactly when it lands on some key, and the key it
/// picks is one the click landed on: a black key if it landed on any black
/// key (they are drawn on top), otherwise a white one, and the lowest such.
pub proof fn lemma_pick_key_picks_a_hit_key(hits: Seq<bool>)
    requires
        hits.len() == NOTE_COUNT,
    ensures
        (exists|i: int| 0 <= i < NOTE_COUNT && #[trigger] hits[i]) <==> pick_key_spec(
            hits,
        ) is Some,
        pick_key_spec(hits) matches Some(n) ==> {
            &&& NOTE_MIN <= n <= NOTE_MAX
            &&& hits[n - NOTE_MIN]
            &&& (is_black_spec(n) <==> exists|i: int|
                0 <= i < NOTE_COUNT && #[trigger] hits[i] && is_black_spec(NOTE_MIN + i))
            &&& forall|j: int|
                0 <= j < NOTE_COUNT && NOTE_MIN + j < n && #[trigger] hits[j] ==> is_black_spec(
                    NOTE_MIN + j,
                ) != is_black_spec(n)
        },
{
    lemma_first_hit_from(hits, true, 0);
    lemma_first_hit_from(hits, false, 0);
    if exists|i: int| 0 <= i < NOTE_COUNT && #[trigger] hits[i] {
        let i = choose|i: int| 0 <= i < NOTE_COUNT && #[trigger] hits[i];
        assert(hits[i] && is_black_spec(NOTE_MIN + i) == is_black_spec(NOTE_MIN + i));
    }
}

/// A click that lands on exactly one key picks that key.
pub proof fn lemma_pick_key_single_hit(hits: Seq<bool>, i: int)
    requires
        hits.len() == NOTE_COUNT,
        0 <= i < NOTE_COUNT,
        hits[i],
        forall|j: int| 0 <= j < NOTE_COUNT && j != i ==> !(#[trigger] hits[j]),
    ensures
        pick_key_spec(hits) == Some(NOTE_MIN + i),
{
    lemma_pick_key_picks_a_hit_key(hits);
}

// ── The black-key pattern ────────────────────────────────────────────────────

/// Running count of white keys from C up to each pitch class of an octave.
pub open spec fn white_run_in_octave() -> Seq<nat> {
    seq![1nat, 1, 2, 2, 3, 4, 4, 5, 5, 6, 6, 7]
}

/// In every octave, counting from its C, the white keys come as on a piano:
/// C, D, E, F, G, A, B are white and the five keys between C–D, D–E, F–G,
/// G–A and A–B are black, seven white keys in all.
pub proof fn lemma_white_count_in_octave(c: int, r: int)
    requires
        c % 12 == 0,
        0 <= r < 12,
    ensures
        white_count_spec(c, c + r) == white_run_in_octave()[r],
    decreases r,
{
    assert((c + r) % 12 == r);
    if r > 0 {
        lemma_white_count_in_octave(c, r - 1);
    } else {
        assert(white_count_spec(c, c - 1) == 0);
    }
}

// ── Note names ───────────────────────────────────────────────────────────────

/// The white-key letters in order from C.
pub open spec fn white_letters() -> Seq<char> {
    seq!['C', 'D', 'E', 'F', 'G', 'A', 'B']
}

/// The octave number is written in decimal: `0..=9` as the digit with that
/// code above '0', and -1 as "-1".
pub proof fn lemma_octave_digits(v: int)
    requires
        -1 <= v <= 9,
    ensures
        v >= 0 ==> int_decimal(v).len() == 1 && int_decimal(v)[0] as int == '0' as int + v,
        v == -1 ==> int_decimal(v) == seq!['-', '1'],
{
    reveal_with_fuel(nat_decimal, 1);
    if v == -1 {
        assert(int_decimal(v) =~= seq!['-', '1']);
    }
}

/// The name of MIDI note `m` is its letter, a '#' for a black key, and its
/// octave number: a white key carries the letter of its place among the
/// white keys of its octave (C, D, E, F, G, A, B), and a black key the
/// letter of the white key just below it.
pub proof fn lemma_note_letters(m: int)
    requires
        0 <= m <= 127,
    ensures
        !is_black_spec(m) ==> midi_note_name(m) == seq![
            white_letters()[white_count_spec(m - m % 12, m) - 1],
        ] + int_decimal(m / 12 - 1),
        is_black_spec(m) ==> midi_note_name(m) == seq![midi_note_name(m - 1)[0], '#']
            + int_decimal(m / 12 - 1),
{
    let r = m % 12;
    let c = m - r;
    assert(c % 12 == 0);
    lemma_white_count_in_octave(c, r);
    assert(m == c + r);
    if is_black_spec(m) {
        assert((m - 1) % 12 == r - 1 && (m - 1) / 12 == m / 12);
        assert(midi_note_name(m - 1)[0] == pitch_class_name(r - 1)[0]);
        assert(midi_note_name(m) =~= seq![midi_note_name(m - 1)[0], '#'] + int_decimal(
            m / 12 - 1,
        ));
    } else {
        assert(midi_note_name(m) =~= seq![
            white_letters()[white_count_spec(m - m % 12, m) - 1],
        ] + int_decimal(m / 12 - 1));
    }
}

/// A note twelve semitones higher has the same letters and an octave
/// number one higher: both names are one prefix followed by the octave
/// number, `m / 12 - 1` for `m` and one more for `m + 12`.
pub proof fn lemma_note_name_next_octave(m: int)
    requires
        0 <= m <= 115,
    ensures
        ({
            let name = midi_note_name(m);
            let prefix = name.subrange(0, name.len() - int_decimal(m / 12 - 1).len());
            &&& name == prefix + int_decimal(m / 12 - 1)
            &&& midi_note_name(m + 12) == prefix + int_decimal(m / 12)
        }),
{
    assert((m + 12) % 12 == m % 12 && (m + 12) / 12 == m / 12 + 1);
    let p = pitch_class_name(m % 12);
    let name = midi_note_name(m);
    let prefix = name.subrange(0, name.len() - int_decimal(m / 12 - 1).len());
    assert(prefix =~= p);
    assert(name =~= prefix + int_decimal(m / 12 - 1));
    assert(midi_note_name(m + 12) =~= prefix + int_decimal(m / 12));
}

/// The name shown for a key under an octave offset is the name of the note
/// that offset moves it to, or of the nearest end of the MIDI range.
pub proof fn lemma_note_name_follows_offset(k: int, o: int)
    ensures
        0 <= k + 12 * o <= 127 ==> note_name_spec(k, o) == midi_note_name(k + 12 * o),
        k + 12 * o < 0 ==> note_name_spec(k, o) == midi_note_name(0),
        k + 12 * o > 127 ==> note_name_spec(k, o) == midi_note_name(127),
        note_name_spec(k, o) == note_name_spec(k + 12 * o, 0),
{
}

} // verus!
