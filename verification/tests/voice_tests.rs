use shade::voices::{VoiceTable, VoiceTag, MidiChannel, MidiKey, NUM_VOICES, KEY_COUNT};
use shade::noise::strike_noise_seed;

fn key(n: u8) -> MidiKey {
    MidiKey::Number(n)
}

const CH0: MidiChannel = MidiChannel::Number(0);

#[test]
fn new_table_is_empty() {
    let table = VoiceTable::new();
    assert_eq!(table.active_count(), 0);
    assert!(!table.any_active());
    assert!(!table.sustain_pedal_down());
    assert_eq!(table.next_voice_counter(), 0);
    for note in 0..KEY_COUNT as u8 {
        assert!(!table.is_key_held(note));
    }
}

#[test]
fn first_note_takes_first_slot() {
    let mut table = VoiceTable::new();
    let plan = table.note_on(VoiceTag::Id(5), CH0, key(60));
    assert_eq!(plan.slot, 0);
    assert_eq!(plan.note, 60);
    assert_eq!(plan.internal_voice_id, 0);
    assert_eq!(plan.noise_seed, strike_noise_seed(0, 60));
    assert!(plan.replaced.is_empty());
    assert!(plan.stolen.is_none());
    let slot = table.slot(0).unwrap();
    assert_eq!(slot.voice_id, VoiceTag::Id(5));
    assert_eq!(slot.note, 60);
    assert!(!slot.releasing);
    assert!(table.is_key_held(60));
    assert_eq!(table.next_voice_counter(), 1);
    assert_eq!(table.active_count(), 1);
}

#[test]
fn retrigger_replaces_same_key() {
    let mut table = VoiceTable::new();
    table.note_on(VoiceTag::Id(1), CH0, key(60));
    table.note_on(VoiceTag::Id(2), CH0, key(64));
    let plan = table.note_on(VoiceTag::Id(3), CH0, key(60));
    assert_eq!(plan.replaced.len(), 1);
    assert_eq!(plan.replaced[0].0, 0);
    assert_eq!(plan.replaced[0].1.voice_id, VoiceTag::Id(1));
    assert_eq!(plan.slot, 0);
    assert_eq!(table.active_count(), 2);
    assert_eq!(table.slot(0).unwrap().internal_voice_id, 2);
}

#[test]
fn same_note_other_channel_is_kept() {
    let mut table = VoiceTable::new();
    table.note_on(VoiceTag::Id(1), CH0, key(60));
    let plan = table.note_on(VoiceTag::Id(2), MidiChannel::Number(1), key(60));
    assert!(plan.replaced.is_empty());
    assert_eq!(plan.slot, 1);
    assert_eq!(table.active_count(), 2);
}

#[test]
fn full_table_steals_oldest() {
    let mut table = VoiceTable::new();
    for n in 0..NUM_VOICES as u8 {
        table.note_on(VoiceTag::Id(n as i32), CH0, key(40 + n));
    }
    assert_eq!(table.active_count(), NUM_VOICES);
    let plan = table.note_on(VoiceTag::Id(100), CH0, key(90));
    let (index, stolen) = plan.stolen.unwrap();
    assert_eq!(index, 0);
    assert_eq!(stolen.internal_voice_id, 0);
    assert_eq!(plan.slot, 0);
    assert_eq!(table.active_count(), NUM_VOICES);
    let next = table.note_on(VoiceTag::Id(101), CH0, key(91));
    assert_eq!(next.stolen.unwrap().1.internal_voice_id, 1);
    assert_eq!(next.slot, 1);
}

#[test]
fn stealing_prefers_oldest_anywhere() {
    let mut table = VoiceTable::new();
    for n in 0..NUM_VOICES as u8 {
        table.note_on(VoiceTag::Id(n as i32), CH0, key(40 + n));
    }
    // Retrigger the first key: its voice becomes the newest.
    table.note_on(VoiceTag::Id(50), CH0, key(40));
    let plan = table.note_on(VoiceTag::Id(51), CH0, key(100));
    assert_eq!(plan.slot, 1);
    assert_eq!(plan.stolen.unwrap().1.note, 41);
}

#[test]
fn note_off_releases_addressed_voice() {
    let mut table = VoiceTable::new();
    table.note_on(VoiceTag::Id(1), CH0, key(60));
    table.note_on(VoiceTag::Id(2), CH0, key(62));
    let plan = table.note_off(VoiceTag::Wildcard, CH0, key(62));
    assert_eq!(plan.targets, vec![1]);
    assert!(plan.starts_release);
    assert!(table.slot(1).unwrap().releasing);
    assert!(!table.slot(0).unwrap().releasing);
    assert!(!table.is_key_held(62));
    assert!(table.is_key_held(60));
}

#[test]
fn note_off_by_voice_id() {
    let mut table = VoiceTable::new();
    table.note_on(VoiceTag::Id(7), CH0, key(60));
    let plan = table.note_off(VoiceTag::Id(7), MidiChannel::Number(3), key(1));
    assert_eq!(plan.targets, vec![0]);
}

#[test]
fn wildcard_note_off_addresses_wildcard_voices() {
    let mut table = VoiceTable::new();
    table.note_on(VoiceTag::Wildcard, CH0, key(60));
    table.note_on(VoiceTag::Wildcard, CH0, key(61));
    let plan = table.note_off(VoiceTag::Wildcard, CH0, key(99));
    assert_eq!(plan.targets, vec![0, 1]);
}

#[test]
fn sustain_defers_release_until_pedal_lifts() {
    let mut table = VoiceTable::new();
    table.note_on(VoiceTag::Id(1), CH0, key(60));
    table.note_on(VoiceTag::Id(2), CH0, key(64));
    assert!(table.set_sustain_pedal(true).is_empty());
    let plan = table.note_off(VoiceTag::Id(1), CH0, key(60));
    assert_eq!(plan.targets, vec![0]);
    assert!(!plan.starts_release);
    assert!(!table.slot(0).unwrap().releasing);
    let released = table.set_sustain_pedal(false);
    assert_eq!(released, vec![0]);
    assert!(table.slot(0).unwrap().releasing);
    assert!(!table.slot(1).unwrap().releasing);
}

#[test]
fn repeated_pedal_state_does_nothing() {
    let mut table = VoiceTable::new();
    table.note_on(VoiceTag::Id(1), CH0, key(60));
    table.note_off(VoiceTag::Id(1), CH0, key(60));
    assert!(table.set_sustain_pedal(false).is_empty());
    assert!(table.set_sustain_pedal(true).is_empty());
    assert!(table.set_sustain_pedal(true).is_empty());
}

#[test]
fn choke_removes_addressed_voices() {
    let mut table = VoiceTable::new();
    table.note_on(VoiceTag::Id(1), CH0, key(60));
    table.note_on(VoiceTag::Id(2), CH0, key(62));
    table.note_on(VoiceTag::Id(3), CH0, key(64));
    let removed = table.choke(VoiceTag::Id(3), CH0, key(60));
    assert_eq!(removed.len(), 2);
    assert_eq!(removed[0].0, 0);
    assert_eq!(removed[1].0, 2);
    assert_eq!(table.active_count(), 1);
    assert!(table.slot(1).is_some());
}

#[test]
fn remove_frees_slot() {
    let mut table = VoiceTable::new();
    table.note_on(VoiceTag::Id(1), CH0, key(60));
    let taken = table.remove(0);
    assert_eq!(taken.unwrap().note, 60);
    assert!(table.slot(0).is_none());
    assert_eq!(table.remove(0), None);
}

#[test]
fn wildcard_key_counts_as_note_zero() {
    let mut table = VoiceTable::new();
    let plan = table.note_on(VoiceTag::Id(1), CH0, MidiKey::Wildcard);
    assert_eq!(plan.note, 0);
    assert!(table.is_key_held(0));
    assert_eq!(MidiKey::Wildcard.number_or_zero(), 0);
}

#[test]
fn high_note_uses_last_held_entry() {
    let mut table = VoiceTable::new();
    table.note_on(VoiceTag::Id(1), CH0, key(200));
    assert!(table.is_key_held(127));
    assert!(table.is_key_held(255));
}

#[test]
fn reset_clears_everything() {
    let mut table = VoiceTable::new();
    table.note_on(VoiceTag::Id(1), CH0, key(60));
    table.set_sustain_pedal(true);
    table.reset();
    assert_eq!(table.active_count(), 0);
    assert!(!table.is_key_held(60));
    assert!(!table.sustain_pedal_down());
    assert_eq!(table.next_voice_counter(), 0);
}

#[test]
fn at_most_one_voice_per_key_and_channel() {
    let mut table = VoiceTable::new();
    let notes = [60u8, 62, 60, 64, 60, 62, 65, 67, 69, 71, 72, 60];
    for (i, n) in notes.iter().enumerate() {
        table.note_on(VoiceTag::Id(i as i32), CH0, key(*n));
        for a in 0..NUM_VOICES {
            for b in (a + 1)..NUM_VOICES {
                if let (Some(x), Some(y)) = (table.slot(a), table.slot(b)) {
                    assert!(!(x.note == y.note && x.channel == y.channel));
                    assert_ne!(x.internal_voice_id, y.internal_voice_id);
                }
            }
        }
    }
}
