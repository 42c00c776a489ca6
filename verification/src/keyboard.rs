//! The discrete part of the note layout: which MIDI notes are modelled,
//! how many unison strings a note has and which of them the hammer is
//! aligned to, and the named test notes of the single-note engine.

use vstd::prelude::*;

verus! {

/// Lowest modelled MIDI note (A0).
pub const LOWEST_NOTE: u8 = 21;

/// Highest modelled MIDI note (C8).
pub const HIGHEST_NOTE: u8 = 108;

/// Most unison strings a note has.
pub const MAXIMUM_UNISON_STRINGS: usize = 3;

pub open spec fn spec_clamped_note(midi_note: u8) -> u8 {
    if midi_note < LOWEST_NOTE {
        LOWEST_NOTE
    } else if midi_note > HIGHEST_NOTE {
        HIGHEST_NOTE
    } else {
        midi_note
    }
}

pub open spec fn spec_unison_string_count(note: u8) -> usize {
    if note < 33 {
        1
    } else if note < 45 {
        2
    } else {
        3
    }
}

/// The MIDI note clamped to the modelled range `LOWEST_NOTE..=HIGHEST_NOTE`.
pub fn clamped_note(midi_note: u8) -> (r: u8)
    ensures
        r == spec_clamped_note(midi_note),
        LOWEST_NOTE <= r <= HIGHEST_NOTE,
{
    if midi_note < LOWEST_NOTE {
        LOWEST_NOTE
    } else if midi_note > HIGHEST_NOTE {
        HIGHEST_NOTE
    } else {
        midi_note
    }
}

/// Number of strings of a (modelled) note: one below note 33, two below
/// note 45, three from there up.
pub fn unison_string_count(note: u8) -> (r: usize)
    ensures
        r == spec_unison_string_count(note),
        1 <= r <= MAXIMUM_UNISON_STRINGS,
{
    if note < 33 {
        1
    } else if note < 45 {
        2
    } else {
        3
    }
}

/// Number of strings of a struck MIDI note, after clamping it to the
/// modelled range.
pub fn unison_strings_for_midi_note(midi_note: u8) -> (r: usize)
    ensures
        r == spec_unison_string_count(spec_clamped_note(midi_note)),
        1 <= r <= MAXIMUM_UNISON_STRINGS,
{
    unison_string_count(clamped_note(midi_note))
}

/// Number of strings a voice builds for a design asking for `requested`:
/// at least one and at most `MAXIMUM_UNISON_STRINGS`.
pub fn voice_string_count(requested: usize) -> (r: usize)
    ensures
        r == if requested < 1 {
            1
        } else if requested > MAXIMUM_UNISON_STRINGS {
            MAXIMUM_UNISON_STRINGS
        } else {
            requested
        },
{
    if requested < 1 {
        1
    } else if requested > MAXIMUM_UNISON_STRINGS {
        MAXIMUM_UNISON_STRINGS
    } else {
        requested
    }
}

/// The string whose lateral offset the hammer's resting angle is computed
/// for: the middle one (the lower middle one of two).
pub fn reference_string_index(string_count: usize) -> (r: usize)
    requires
        string_count >= 1,
    ensures
        r == (string_count - 1) / 2,
        r < string_count,
{
    (string_count - 1) / 2
}

/// Divisor of the room volume giving the modal volume of room mode
/// `(x, y, z)`: two to the number of nonzero mode indices.
pub fn modal_volume_divisor(index_x: usize, index_y: usize, index_z: usize) -> (r: usize)
    ensures
        r == (if index_x > 0 { 2usize } else { 1usize }) * (if index_y > 0 { 2usize } else { 1usize }) * (if index_z
            > 0 {
            2usize
        } else {
            1usize
        }),
        1 <= r <= 8,
{
    let mut divisor: usize = 1;
    if index_x > 0 {
        divisor = divisor * 2;
    }
    if index_y > 0 {
        divisor = divisor * 2;
    }
    if index_z > 0 {
        divisor = divisor * 2;
    }
    divisor
}

/// The notes the single-note engine can render.
#[derive(Clone, Copy, Debug, PartialEq, Eq, Structural)]
pub enum NoteName {
    A3,
    C4,
    E5,
}

/// Display label of a note: its name and nominal frequency.
pub open spec fn note_label(note: NoteName) -> Seq<char> {
    match note {
        NoteName::A3 => "A3 (220 Hz)"@,
        NoteName::C4 => "C4 (261.6 Hz)"@,
        NoteName::E5 => "E5 (659.3 Hz)"@,
    }
}

impl NoteName {
    /// The note's display label.
    pub fn label(&self) -> (r: &'static str)
        ensures
            r@ == note_label(*self),
    {
        match self {
            NoteName::A3 => "A3 (220 Hz)",
            NoteName::C4 => "C4 (261.6 Hz)",
            NoteName::E5 => "E5 (659.3 Hz)",
        }
    }
}

} // verus!
