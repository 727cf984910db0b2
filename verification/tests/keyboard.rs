use noteholder::keys::{
    is_black, pick_key, shifted_note, white_key_count, wk_x_halves, NOTE_COUNT, NOTE_MAX,
    NOTE_MIN,
};
use noteholder::names::note_name_display;

#[test]
fn keyboard_spans_c2_to_c6() {
    assert_eq!(NOTE_MIN, 36);
    assert_eq!(NOTE_MAX, 84);
    assert_eq!(NOTE_COUNT, (NOTE_MAX - NOTE_MIN + 1) as usize);
    assert_eq!(NOTE_COUNT, 49);
}

#[test]
fn shifted_note_without_offset_is_the_key() {
    assert_eq!(shifted_note(0, 0), 36);
    assert_eq!(shifted_note(48, 0), 84);
    assert_eq!(shifted_note(5, 0), 41);
}

#[test]
fn shifted_note_moves_by_octaves() {
    assert_eq!(shifted_note(0, 1), 48);
    assert_eq!(shifted_note(0, -1), 24);
    assert_eq!(shifted_note(5, -1), 29);
    assert_eq!(shifted_note(10, 3), 82);
}

#[test]
fn shifted_note_clamps_to_midi_range() {
    // 36 + 48 + 48 = 132 is above the MIDI range.
    assert_eq!(shifted_note(48, 4), 127);
    assert_eq!(shifted_note(43, 4), 127);
    assert_eq!(shifted_note(42, 4), 126);
    // 36 - 48 = -12 is below it.
    assert_eq!(shifted_note(0, -4), 0);
    assert_eq!(shifted_note(12, -4), 0);
    assert_eq!(shifted_note(13, -4), 1);
}

#[test]
fn black_keys_are_the_sharps() {
    for n in [37u8, 39, 42, 44, 46, 61, 1, 3, 6, 8, 10] {
        assert!(is_black(n), "{} should be black", n);
    }
    for n in [36u8, 38, 40, 41, 43, 45, 47, 0, 60, 84, 127] {
        assert!(!is_black(n), "{} should be white", n);
    }
}

#[test]
fn key_positions_in_half_white_keys() {
    assert_eq!(wk_x_halves(0), 0);
    assert_eq!(wk_x_halves(1), 1);
    assert_eq!(wk_x_halves(2), 2);
    assert_eq!(wk_x_halves(4), 4);
    assert_eq!(wk_x_halves(5), 6);
    assert_eq!(wk_x_halves(6), 7);
    assert_eq!(wk_x_halves(11), 12);
    assert_eq!(wk_x_halves(12), 14);
    assert_eq!(wk_x_halves(36), 42);
    assert_eq!(wk_x_halves(37), 43);
    assert_eq!(wk_x_halves(84), 98);
    assert_eq!(wk_x_halves(255), 21 * 14 + 3);
}

#[test]
fn key_positions_increase_with_pitch() {
    for n in 0u8..255 {
        assert!(wk_x_halves(n) < wk_x_halves(n + 1));
    }
}

#[test]
fn white_keys_sit_on_whole_units_black_keys_between() {
    for n in 0u8..=255 {
        assert_eq!(is_black(n), wk_x_halves(n) % 2 == 1);
        if is_black(n) && n < 255 {
            assert_eq!(wk_x_halves(n - 1) + 1, wk_x_halves(n));
            assert_eq!(wk_x_halves(n) + 1, wk_x_halves(n + 1));
        }
    }
}

#[test]
fn white_keys_of_the_keyboard() {
    assert_eq!(white_key_count(NOTE_MIN, NOTE_MAX), 29);
    assert_eq!(white_key_count(0, 11), 7);
    assert_eq!(white_key_count(37, 37), 0);
    assert_eq!(white_key_count(36, 36), 1);
    assert_eq!(white_key_count(84, 36), 0);
    assert_eq!(white_key_count(0, 255), 149);
}

fn hits(keys: &[u8]) -> Vec<bool> {
    (NOTE_MIN..=NOTE_MAX).map(|n| keys.contains(&n)).collect()
}

#[test]
fn pick_key_none_when_nothing_is_hit() {
    assert_eq!(pick_key(&hits(&[])), None);
}

#[test]
fn pick_key_prefers_black_keys_drawn_on_top() {
    // A point on C#2 also lies inside the rectangles of C2 and D2.
    assert_eq!(pick_key(&hits(&[36, 37, 38])), Some(37));
    assert_eq!(pick_key(&hits(&[84, 46])), Some(46));
}

#[test]
fn pick_key_white_key_when_no_black_key_is_hit() {
    assert_eq!(pick_key(&hits(&[40])), Some(40));
    assert_eq!(pick_key(&hits(&[84])), Some(84));
    assert_eq!(pick_key(&hits(&[41, 40])), Some(40));
}

#[test]
fn pick_key_lowest_of_several_black_keys() {
    assert_eq!(pick_key(&hits(&[49, 42, 36])), Some(42));
}

#[test]
fn note_names_of_the_keyboard() {
    assert_eq!(note_name_display(36, 0), "C2");
    assert_eq!(note_name_display(37, 0), "C#2");
    assert_eq!(note_name_display(60, 0), "C4");
    assert_eq!(note_name_display(70, 0), "A#4");
    assert_eq!(note_name_display(71, 0), "B4");
    assert_eq!(note_name_display(84, 0), "C6");
}

#[test]
fn note_name_follows_octave_offset() {
    // Key C2 (MIDI 36) with offset +1 is shown as "C3".
    assert_eq!(note_name_display(36, 1), "C3");
    assert_eq!(note_name_display(36, -1), "C1");
    assert_eq!(note_name_display(42, 2), "F#4");
}

#[test]
fn note_name_clamps_to_midi_range() {
    assert_eq!(note_name_display(0, 0), "C-1");
    assert_eq!(note_name_display(11, 0), "B-1");
    assert_eq!(note_name_display(127, 0), "G9");
    assert_eq!(note_name_display(84, 4), "G9");
    assert_eq!(note_name_display(37, -4), "C-1");
    assert_eq!(note_name_display(255, 0), "G9");
}

#[test]
fn every_key_has_a_distinct_name() {
    let names: Vec<String> = (NOTE_MIN..=NOTE_MAX).map(|n| note_name_display(n, 0)).collect();
    for i in 0..names.len() {
        for j in 0..i {
            assert_ne!(names[i], names[j]);
        }
    }
}
