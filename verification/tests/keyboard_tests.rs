use shade::keyboard::{
    clamped_note, unison_string_count, unison_strings_for_midi_note, voice_string_count,
    reference_string_index, modal_volume_divisor, NoteName,
};

#[test]
fn note_labels() {
    assert_eq!(NoteName::A3.label(), "A3 (220 Hz)");
    assert_eq!(NoteName::C4.label(), "C4 (261.6 Hz)");
    assert_eq!(NoteName::E5.label(), "E5 (659.3 Hz)");
}

#[test]
fn notes_clamp_to_piano_range() {
    assert_eq!(clamped_note(0), 21);
    assert_eq!(clamped_note(21), 21);
    assert_eq!(clamped_note(60), 60);
    assert_eq!(clamped_note(108), 108);
    assert_eq!(clamped_note(127), 108);
}

#[test]
fn unison_counts_by_register() {
    assert_eq!(unison_string_count(21), 1);
    assert_eq!(unison_string_count(32), 1);
    assert_eq!(unison_string_count(33), 2);
    assert_eq!(unison_string_count(44), 2);
    assert_eq!(unison_string_count(45), 3);
    assert_eq!(unison_strings_for_midi_note(0), 1);
    assert_eq!(unison_strings_for_midi_note(127), 3);
}

#[test]
fn voice_string_count_bounds() {
    assert_eq!(voice_string_count(0), 1);
    assert_eq!(voice_string_count(2), 2);
    assert_eq!(voice_string_count(7), 3);
}

#[test]
fn reference_string_is_middle() {
    assert_eq!(reference_string_index(1), 0);
    assert_eq!(reference_string_index(2), 0);
    assert_eq!(reference_string_index(3), 1);
}

#[test]
fn modal_volume_divisors() {
    assert_eq!(modal_volume_divisor(1, 0, 0), 2);
    assert_eq!(modal_volume_divisor(3, 2, 0), 4);
    assert_eq!(modal_volume_divisor(1, 1, 5), 8);
}
