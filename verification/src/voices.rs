//! Polyphony bookkeeping of the instrument: which of the fixed number of
//! voice slots sound which key, retriggering, voice stealing, the held-key
//! table, the sustain pedal, note-off, choke and termination.
//!
//! Each operation changes the table and returns what the audio code has to
//! do with the voice engines that sit beside the slots (adopt the string
//! state of a retriggered voice, start a damper release, report a voice as
//! terminated to the host).

use vstd::prelude::*;
use crate::noise::{spec_strike_noise_seed, strike_noise_seed};

verus! {

/// Number of voice slots.
pub const NUM_VOICES: usize = 8;

/// Number of entries of the held-key table (MIDI key numbers 0..=127).
pub const KEY_COUNT: usize = 128;

/// The host's identifier of a voice.
#[derive(Clone, Copy, Debug, PartialEq, Eq, Structural)]
pub enum VoiceTag {
    Wildcard,
    Id(i32),
}

/// The MIDI channel of a note event.
#[derive(Clone, Copy, Debug, PartialEq, Eq, Structural)]
pub enum MidiChannel {
    Wildcard,
    Number(u8),
}

/// The MIDI key of a note event.
#[derive(Clone, Copy, Debug, PartialEq, Eq, Structural)]
pub enum MidiKey {
    Wildcard,
    Number(u8),
}

/// The note number of a key; a wildcard key counts as note 0.
pub open spec fn key_note(key: MidiKey) -> u8 {
    match key {
        MidiKey::Wildcard => 0u8,
        MidiKey::Number(n) => n,
    }
}

impl MidiKey {
    /// The key's note number, 0 for a wildcard key.
    pub fn number_or_zero(&self) -> (r: u8)
        ensures
            r == key_note(*self),
    {
        match self {
            MidiKey::Wildcard => 0u8,
            MidiKey::Number(n) => *n,
        }
    }
}

/// Index into the held-key table for a note: the note, capped at 127.
pub open spec fn held_index(note: u8) -> int {
    if note < 128 {
        note as int
    } else {
        127
    }
}

/// The bookkeeping data of one sounding voice.
#[derive(Clone, Copy, Debug, PartialEq, Eq, Structural)]
pub struct VoiceSlot {
    pub voice_id: VoiceTag,
    /// Strike counter value when the voice was started; the smallest one
    /// is the oldest voice.
    pub internal_voice_id: u64,
    pub channel: MidiChannel,
    pub key: MidiKey,
    pub note: u8,
    pub releasing: bool,
}

/// Whether a note-off or choke event addresses a voice: by the host's voice
/// identifier, or by channel and key.
pub open spec fn addresses(slot: VoiceSlot, voice_id: VoiceTag, channel: MidiChannel, key: MidiKey) -> bool {
    voice_id == slot.voice_id || (channel == slot.channel && key == slot.key)
}

/// Whether a voice sounds the given note on the given channel (the test a
/// note-on uses to find the voice it retriggers).
pub open spec fn sounds(slot: VoiceSlot, note: u8, channel: MidiChannel) -> bool {
    slot.note == note && slot.channel == channel
}

/// Number of occupied slots.
pub open spec fn occupied_count(s: Seq<Option<VoiceSlot>>) -> nat
    decreases s.len(),
{
    if s.len() == 0 {
        0
    } else {
        occupied_count(s.drop_last()) + if s.last() is Some { 1nat } else { 0nat }
    }
}

/// No two occupied slots sound the same note on the same channel.
pub open spec fn keys_unique(s: Seq<Option<VoiceSlot>>) -> bool {
    forall|i: int, j: int|
        0 <= i < s.len() && 0 <= j < s.len() && i != j && (#[trigger] s[i]) is Some && (#[trigger] s[j]) is Some
            ==> !sounds(s[i]->0, s[j]->0.note, s[j]->0.channel)
}

/// Every occupied slot carries a strike counter value below `counter`.
pub open spec fn ids_below(s: Seq<Option<VoiceSlot>>, counter: u64) -> bool {
    forall|i: int| 0 <= i < s.len() && (#[trigger] s[i]) is Some ==> s[i]->0.internal_voice_id < counter
}

/// Occupied slots carry pairwise distinct strike counter values.
pub open spec fn ids_distinct(s: Seq<Option<VoiceSlot>>) -> bool {
    forall|i: int, j: int|
        0 <= i < s.len() && 0 <= j < s.len() && i != j && (#[trigger] s[i]) is Some && (#[trigger] s[j]) is Some
            ==> s[i]->0.internal_voice_id != s[j]->0.internal_voice_id
}

/// `v` lists, in increasing order, exactly the slot indices below `n` that
/// satisfy `p`.
pub open spec fn lists_upto(v: Seq<usize>, p: spec_fn(int) -> bool, n: int) -> bool {
    &&& forall|j: int| 0 <= j < v.len() ==> (#[trigger] v[j]) < n && p(v[j] as int)
    &&& forall|j: int, k: int| 0 <= j < k < v.len() ==> (#[trigger] v[j]) < (#[trigger] v[k])
    &&& forall|i: int| 0 <= i < n && #[trigger] p(i) ==> exists|j: int| 0 <= j < v.len() && v[j] == i
}

/// `v` lists, in increasing order, exactly the slot indices that satisfy
/// `p`.
pub open spec fn lists_exactly(v: Seq<usize>, p: spec_fn(int) -> bool) -> bool {
    lists_upto(v, p, NUM_VOICES as int)
}

/// `v` lists, in increasing slot order, exactly the occupied slots of `s`
/// below `n` whose content satisfies `p`, each with that content.
pub open spec fn lists_slots_upto(
    v: Seq<(usize, VoiceSlot)>,
    s: Seq<Option<VoiceSlot>>,
    p: spec_fn(VoiceSlot) -> bool,
    n: int,
) -> bool {
    &&& forall|j: int|
        0 <= j < v.len() ==> {
            &&& (#[trigger] v[j]).0 < n
            &&& s[v[j].0 as int] == Some(v[j].1)
            &&& p(v[j].1)
        }
    &&& forall|j: int, k: int| 0 <= j < k < v.len() ==> (#[trigger] v[j]).0 < (#[trigger] v[k]).0
    &&& forall|i: int|
        0 <= i < n && (#[trigger] s[i]) is Some && p(s[i]->0) ==> exists|j: int| 0 <= j < v.len() && v[j].0 == i
}

/// `v` lists, in increasing slot order, exactly the occupied slots of `s`
/// whose content satisfies `p`, each with that content.
pub open spec fn lists_slots_exactly(
    v: Seq<(usize, VoiceSlot)>,
    s: Seq<Option<VoiceSlot>>,
    p: spec_fn(VoiceSlot) -> bool,
) -> bool {
    lists_slots_upto(v, s, p, NUM_VOICES as int)
}

/// `after` is `before` with every occupied slot whose content satisfies
/// `p` emptied.
pub open spec fn emptied_where(
    before: Seq<Option<VoiceSlot>>,
    after: Seq<Option<VoiceSlot>>,
    p: spec_fn(VoiceSlot) -> bool,
) -> bool {
    &&& after.len() == before.len()
    &&& forall|i: int|
        0 <= i < before.len() ==> #[trigger] after[i] == if before[i] is Some && p(before[i]->0) {
            None
        } else {
            before[i]
        }
}

/// Emptying slots keeps keys unique, counter values below the counter and
/// counter values distinct.
pub proof fn lemma_emptying_keeps_invariants(
    before: Seq<Option<VoiceSlot>>,
    after: Seq<Option<VoiceSlot>>,
    counter: u64,
)
    requires
        after.len() == before.len(),
        forall|i: int| 0 <= i < before.len() ==> #[trigger] after[i] == before[i] || after[i] is None,
    ensures
        keys_unique(before) ==> keys_unique(after),
        ids_below(before, counter) ==> ids_below(after, counter),
        ids_distinct(before) ==> ids_distinct(after),
{
    assert forall|i: int, j: int|
        0 <= i < after.len() && 0 <= j < after.len() && i != j && (#[trigger] after[i]) is Some
            && (#[trigger] after[j]) is Some implies after[i] == before[i] && after[j] == before[j] by {}
    assert forall|i: int| 0 <= i < after.len() && (#[trigger] after[i]) is Some implies after[i] == before[i] by {}
}

/// `slot` with its releasing flag raised when `raise` holds.
pub open spec fn flagged(slot: VoiceSlot, raise: bool) -> VoiceSlot {
    VoiceSlot {
        voice_id: slot.voice_id,
        internal_voice_id: slot.internal_voice_id,
        channel: slot.channel,
        key: slot.key,
        note: slot.note,
        releasing: slot.releasing || raise,
    }
}

/// `after` is `before` with the releasing flag raised (when `raise` holds)
/// on every occupied slot whose content satisfies `p`.
pub open spec fn flagged_where(
    before: Seq<Option<VoiceSlot>>,
    after: Seq<Option<VoiceSlot>>,
    p: spec_fn(VoiceSlot) -> bool,
    raise: bool,
) -> bool {
    &&& after.len() == before.len()
    &&& forall|i: int|
        0 <= i < before.len() ==> #[trigger] after[i] == if before[i] is Some && p(before[i]->0) {
            Some(flagged(before[i]->0, raise))
        } else {
            before[i]
        }
}

/// Raising releasing flags keeps keys unique, counter values below the
/// counter and counter values distinct.
pub proof fn lemma_flagging_keeps_invariants(
    before: Seq<Option<VoiceSlot>>,
    after: Seq<Option<VoiceSlot>>,
    p: spec_fn(VoiceSlot) -> bool,
    raise: bool,
    counter: u64,
)
    requires
        flagged_where(before, after, p, raise),
    ensures
        keys_unique(before) ==> keys_unique(after),
        ids_below(before, counter) ==> ids_below(after, counter),
        ids_distinct(before) ==> ids_distinct(after),
{
    assert forall|i: int| 0 <= i < after.len() implies (#[trigger] after[i] is Some) == (before[i] is Some) && (
    after[i] is Some ==> after[i]->0.note == before[i]->0.note && after[i]->0.channel == before[i]->0.channel
        && after[i]->0.internal_voice_id == before[i]->0.internal_voice_id) by {}
}

/// Which voices an operation marks.
enum Mark {
    /// Voices a note-off event addresses.
    Addressed(VoiceTag, MidiChannel, MidiKey),
    /// Voices whose note the held-key table does not mark as held.
    KeyNotHeld,
}

spec fn marks(mark: Mark, held: Seq<bool>, slot: VoiceSlot) -> bool {
    match mark {
        Mark::Addressed(voice_id, channel, key) => addresses(slot, voice_id, channel, key),
        Mark::KeyNotHeld => !held[held_index(slot.note)],
    }
}

/// The slots with every voice sounding `note` on `channel` taken out.
pub open spec fn cleared_for(s: Seq<Option<VoiceSlot>>, note: u8, channel: MidiChannel) -> Seq<Option<VoiceSlot>> {
    Seq::new(s.len(), |i: int| if s[i] is Some && sounds(s[i]->0, note, channel) { None } else { s[i] })
}

/// Some slot is free.
pub open spec fn has_free(s: Seq<Option<VoiceSlot>>) -> bool {
    exists|k: int| 0 <= k < s.len() && #[trigger] s[k] is None
}

/// `k` is the first free slot.
pub open spec fn is_first_free(s: Seq<Option<VoiceSlot>>, k: int) -> bool {
    &&& 0 <= k < s.len()
    &&& s[k] is None
    &&& forall|j: int| 0 <= j < k ==> #[trigger] s[j] is Some
}

/// `k` holds the oldest voice (the smallest strike counter value), and no
/// earlier slot holds a voice as old.
pub open spec fn is_first_oldest(s: Seq<Option<VoiceSlot>>, k: int) -> bool {
    &&& 0 <= k < s.len()
    &&& s[k] is Some
    &&& forall|j: int| 0 <= j < s.len() && (#[trigger] s[j]) is Some ==> s[k]->0.internal_voice_id <= s[j]->0.internal_voice_id
    &&& forall|j: int| 0 <= j < k && (#[trigger] s[j]) is Some ==> s[k]->0.internal_voice_id < s[j]->0.internal_voice_id
}

/// The slot data of a voice started by a note-on.
pub open spec fn started_voice(voice_id: VoiceTag, counter: u64, channel: MidiChannel, key: MidiKey) -> VoiceSlot {
    VoiceSlot {
        voice_id,
        internal_voice_id: counter,
        channel,
        key,
        note: key_note(key),
        releasing: false,
    }
}

/// Which voices an operation takes out of their slots.
enum Selection {
    /// Voices a note-off or choke event addresses.
    Addressed(VoiceTag, MidiChannel, MidiKey),
    /// Voices sounding a note on a channel.
    Sounding(u8, MidiChannel),
}

spec fn selects(selection: Selection, slot: VoiceSlot) -> bool {
    match selection {
        Selection::Addressed(voice_id, channel, key) => addresses(slot, voice_id, channel, key),
        Selection::Sounding(note, channel) => sounds(slot, note, channel),
    }
}

impl Selection {
    fn matches(&self, slot: &VoiceSlot) -> (r: bool)
        ensures
            r == selects(*self, *slot),
    {
        match self {
            Selection::Addressed(voice_id, channel, key) => {
                *voice_id == slot.voice_id || (*channel == slot.channel && *key == slot.key)
            },
            Selection::Sounding(note, channel) => slot.note == *note && *channel == slot.channel,
        }
    }
}

/// What the audio code does for a note-on, besides building the new voice.
pub struct NoteOnPlan {
    /// The note number that was struck.
    pub note: u8,
    /// Seed of the strike's randomness.
    pub noise_seed: u64,
    /// Strike counter value of the new voice.
    pub internal_voice_id: u64,
    /// Voices that sounded the same note on the same channel, in slot
    /// order: the new voice takes over their string state and they are
    /// reported as terminated.
    pub replaced: Vec<(usize, VoiceSlot)>,
    /// The voice stolen to make room, reported as terminated.
    pub stolen: Option<(usize, VoiceSlot)>,
    /// The slot the new voice occupies.
    pub slot: usize,
}

/// What the audio code does for a note-off.
pub struct NoteOffPlan {
    /// Slots addressed by the event, in order; each gets its key-release
    /// noise.
    pub targets: Vec<usize>,
    /// Whether the addressed voices also start their damper release (the
    /// sustain pedal is up).
    pub starts_release: bool,
}

/// The voice slots with the held-key table, the sustain pedal and the
/// strike counter.
pub struct VoiceTable {
    slots: Vec<Option<VoiceSlot>>,
    next_internal_voice_id: u64,
    held_keys: Vec<bool>,
    sustain_pedal_down: bool,
}

impl VoiceTable {
    pub closed spec fn slots(&self) -> Seq<Option<VoiceSlot>> {
        self.slots@
    }

    pub closed spec fn counter(&self) -> u64 {
        self.next_internal_voice_id
    }

    pub closed spec fn held(&self) -> Seq<bool> {
        self.held_keys@
    }

    pub closed spec fn pedal(&self) -> bool {
        self.sustain_pedal_down
    }

    /// The table has one entry per voice slot and one per key.
    pub open spec fn wf(&self) -> bool {
        &&& self.slots().len() == NUM_VOICES
        &&& self.held().len() == KEY_COUNT
    }

    /// The state of a freshly started or reset instrument.
    pub open spec fn is_initial(&self) -> bool {
        &&& self.wf()
        &&& forall|i: int| 0 <= i < NUM_VOICES ==> #[trigger] self.slots()[i] is None
        &&& forall|k: int| 0 <= k < KEY_COUNT ==> !(#[trigger] self.held()[k])
        &&& self.counter() == 0
        &&& !self.pedal()
    }

    /// An empty table: no voice, no key held, pedal up, counter at zero.
    pub fn new() -> (r: Self)
        ensures
            r.is_initial(),
    {
        let mut slots: Vec<Option<VoiceSlot>> = Vec::new();
        let mut i: usize = 0;
        while i < NUM_VOICES
            invariant
                i <= NUM_VOICES,
                slots@.len() == i,
                forall|j: int| 0 <= j < i ==> #[trigger] slots@[j] is None,
            decreases NUM_VOICES - i,
        {
            slots.push(None);
            i = i + 1;
        }
        let mut held_keys: Vec<bool> = Vec::new();
        let mut k: usize = 0;
        while k < KEY_COUNT
            invariant
                k <= KEY_COUNT,
                held_keys@.len() == k,
                forall|j: int| 0 <= j < k ==> !(#[trigger] held_keys@[j]),
            decreases KEY_COUNT - k,
        {
            held_keys.push(false);
            k = k + 1;
        }
        VoiceTable { slots, next_internal_voice_id: 0, held_keys, sustain_pedal_down: false }
    }

    /// Forgets every voice, releases every key, lifts the pedal and
    /// restarts the strike counter.
    pub fn reset(&mut self)
        ensures
            final(self).is_initial(),
    {
        *self = VoiceTable::new();
    }

    /// The content of slot `index`.
    pub fn slot(&self, index: usize) -> (r: Option<VoiceSlot>)
        requires
            self.wf(),
            index < NUM_VOICES,
        ensures
            r == self.slots()[index as int],
    {
        self.slots[index]
    }

    /// Whether the sustain pedal is down.
    pub fn sustain_pedal_down(&self) -> (r: bool)
        ensures
            r == self.pedal(),
    {
        self.sustain_pedal_down
    }

    /// Whether the key table marks `note` as held.
    pub fn is_key_held(&self, note: u8) -> (r: bool)
        requires
            self.wf(),
        ensures
            r == self.held()[held_index(note)],
    {
        let index: usize = if note < 128 { note as usize } else { 127 };
        self.held_keys[index]
    }

    /// The strike counter value the next voice will get.
    pub fn next_voice_counter(&self) -> (r: u64)
        ensures
            r == self.counter(),
    {
        self.next_internal_voice_id
    }

    /// Number of sounding voices.
    pub fn active_count(&self) -> (r: usize)
        requires
            self.wf(),
        ensures
            r == occupied_count(self.slots()),
    {
        let mut count: usize = 0;
        let mut i: usize = 0;
        while i < NUM_VOICES
            invariant
                i <= NUM_VOICES,
                self.wf(),
                count == occupied_count(self.slots().take(i as int)),
                count <= i,
            decreases NUM_VOICES - i,
        {
            assert(self.slots().take(i + 1).drop_last() == self.slots().take(i as int));
            if self.slots[i].is_some() {
                count = count + 1;
            }
            i = i + 1;
        }
        assert(self.slots().take(NUM_VOICES as int) == self.slots());
        count
    }

    /// Whether any voice sounds.
    pub fn any_active(&self) -> (r: bool)
        requires
            self.wf(),
        ensures
            r == exists|i: int| 0 <= i < NUM_VOICES && #[trigger] self.slots()[i] is Some,
    {
        let mut i: usize = 0;
        while i < NUM_VOICES
            invariant
                i <= NUM_VOICES,
                self.wf(),
                forall|j: int| 0 <= j < i ==> #[trigger] self.slots()[j] is None,
            decreases NUM_VOICES - i,
        {
            if self.slots[i].is_some() {
                return true;
            }
            i = i + 1;
        }
        false
    }

    /// Takes the voice out of slot `index` (a voice that fell silent).
    pub fn remove(&mut self, index: usize) -> (r: Option<VoiceSlot>)
        requires
            old(self).wf(),
            index < NUM_VOICES,
        ensures
            final(self).wf(),
            r == old(self).slots()[index as int],
            final(self).slots() == old(self).slots().update(index as int, None),
            final(self).held() == old(self).held(),
            final(self).counter() == old(self).counter(),
            final(self).pedal() == old(self).pedal(),
            keys_unique(old(self).slots()) ==> keys_unique(final(self).slots()),
            ids_below(old(self).slots(), old(self).counter()) ==> ids_below(final(self).slots(), final(self).counter()),
            ids_distinct(old(self).slots()) ==> ids_distinct(final(self).slots()),
    {
        let r = self.slots[index];
        self.slots.set(index, None);
        proof {
            lemma_emptying_keeps_invariants(old(self).slots(), self.slots(), self.counter());
        }
        r
    }

    /// Empties every occupied slot whose voice the selection picks and
    /// returns those voices in slot order.
    fn take_selected(&mut self, selection: Selection) -> (removed: Vec<(usize, VoiceSlot)>)
        requires
            old(self).wf(),
        ensures
            final(self).wf(),
            lists_slots_exactly(removed@, old(self).slots(), |v: VoiceSlot| selects(selection, v)),
            emptied_where(old(self).slots(), final(self).slots(), |v: VoiceSlot| selects(selection, v)),
            final(self).held() == old(self).held(),
            final(self).counter() == old(self).counter(),
            final(self).pedal() == old(self).pedal(),
    {
        let ghost before = self.slots();
        let ghost p = |v: VoiceSlot| selects(selection, v);
        let mut removed: Vec<(usize, VoiceSlot)> = Vec::new();
        let mut i: usize = 0;
        while i < NUM_VOICES
            invariant
                i <= NUM_VOICES,
                self.wf(),
                before.len() == NUM_VOICES,
                p == (|v: VoiceSlot| selects(selection, v)),
                self.held() == old(self).held(),
                self.counter() == old(self).counter(),
                self.pedal() == old(self).pedal(),
                before == old(self).slots(),
                lists_slots_upto(removed@, before, p, i as int),
                forall|j: int|
                    0 <= j < NUM_VOICES ==> #[trigger] self.slots()[j] == if j < i && before[j] is Some && p(
                        before[j]->0,
                    ) {
                        None
                    } else {
                        before[j]
                    },
            decreases NUM_VOICES - i,
        {
            let current = self.slots[i];
            let ghost removed_before = removed@;
            assert(self.slots()[i as int] == before[i as int]);
            assert(current == before[i as int]);
            match current {
                Some(v) => {
                    assert(p(v) == selects(selection, v));
                    if selection.matches(&v) {
                        self.slots.set(i, None);
                        removed.push((i, v));
                        assert(removed@[removed@.len() - 1] == (i, v));
                        assert forall|j: int| 0 <= j < removed_before.len() implies #[trigger] removed@[j] == removed_before[j] by {}
                        assert forall|k: int|
                            0 <= k < i + 1 && (#[trigger] before[k]) is Some && p(before[k]->0) implies exists|j: int|
                            0 <= j < removed@.len() && removed@[j].0 == k by {
                            if k == i {
                                assert(removed@[removed@.len() - 1].0 == k);
                            } else {
                                let j0 = choose|j: int| 0 <= j < removed_before.len() && removed_before[j].0 == k;
                                assert(removed@[j0].0 == k);
                            }
                        }
                    }
                },
                None => {},
            }
            i = i + 1;
        }
        removed
    }

    /// Stops at once every voice the event addresses (by voice identifier,
    /// or by channel and key) and returns them in slot order, to be
    /// reported as terminated.
    pub fn choke(&mut self, voice_id: VoiceTag, channel: MidiChannel, key: MidiKey) -> (removed: Vec<(usize, VoiceSlot)>)
        requires
            old(self).wf(),
        ensures
            final(self).wf(),
            lists_slots_exactly(removed@, old(self).slots(), |v: VoiceSlot| addresses(v, voice_id, channel, key)),
            emptied_where(old(self).slots(), final(self).slots(), |v: VoiceSlot| addresses(v, voice_id, channel, key)),
            final(self).held() == old(self).held(),
            final(self).counter() == old(self).counter(),
            final(self).pedal() == old(self).pedal(),
            keys_unique(old(self).slots()) ==> keys_unique(final(self).slots()),
            ids_below(old(self).slots(), old(self).counter()) ==> ids_below(final(self).slots(), final(self).counter()),
            ids_distinct(old(self).slots()) ==> ids_distinct(final(self).slots()),
    {
        let selection = Selection::Addressed(voice_id, channel, key);
        let removed = self.take_selected(selection);
        proof {
            lemma_emptying_keeps_invariants(old(self).slots(), self.slots(), self.counter());
        }
        removed
    }

    /// Raises (when `raise` holds) the releasing flag of every occupied
    /// slot the mark picks, and lists those slots in order.
    fn flag_marked(&mut self, mark: Mark, raise: bool) -> (marked: Vec<usize>)
        requires
            old(self).wf(),
        ensures
            final(self).wf(),
            lists_exactly(
                marked@,
                |i: int| old(self).slots()[i] is Some && marks(mark, old(self).held(), old(self).slots()[i]->0),
            ),
            flagged_where(old(self).slots(), final(self).slots(), |v: VoiceSlot| marks(mark, old(self).held(), v), raise),
            final(self).held() == old(self).held(),
            final(self).counter() == old(self).counter(),
            final(self).pedal() == old(self).pedal(),
    {
        let ghost before = self.slots();
        let ghost held = self.held();
        let ghost p = |v: VoiceSlot| marks(mark, held, v);
        let ghost q = |i: int| before[i] is Some && marks(mark, held, before[i]->0);
        let mut marked: Vec<usize> = Vec::new();
        let mut i: usize = 0;
        while i < NUM_VOICES
            invariant
                i <= NUM_VOICES,
                self.wf(),
                before.len() == NUM_VOICES,
                before == old(self).slots(),
                held == old(self).held(),
                p == (|v: VoiceSlot| marks(mark, held, v)),
                q == (|i: int| before[i] is Some && marks(mark, held, before[i]->0)),
                self.held() == old(self).held(),
                self.counter() == old(self).counter(),
                self.pedal() == old(self).pedal(),
                lists_upto(marked@, q, i as int),
                forall|j: int|
                    0 <= j < NUM_VOICES ==> #[trigger] self.slots()[j] == if j < i && before[j] is Some && p(
                        before[j]->0,
                    ) {
                        Some(flagged(before[j]->0, raise))
                    } else {
                        before[j]
                    },
            decreases NUM_VOICES - i,
        {
            let current = self.slots[i];
            let ghost marked_before = marked@;
            assert(self.slots()[i as int] == before[i as int]);
            assert(current == before[i as int]);
            match current {
                Some(v) => {
                    let hit = match mark {
                        Mark::Addressed(voice_id, channel, key) => {
                            voice_id == v.voice_id || (channel == v.channel && key == v.key)
                        },
                        Mark::KeyNotHeld => {
                            let index: usize = if v.note < 128 { v.note as usize } else { 127 };
                            !self.held_keys[index]
                        },
                    };
                    assert(hit == p(v));
                    assert(q(i as int) == hit);
                    if hit {
                        let updated = VoiceSlot {
                            voice_id: v.voice_id,
                            internal_voice_id: v.internal_voice_id,
                            channel: v.channel,
                            key: v.key,
                            note: v.note,
                            releasing: v.releasing || raise,
                        };
                        self.slots.set(i, Some(updated));
                        marked.push(i);
                        assert(marked@[marked@.len() - 1] == i);
                        assert forall|j: int| 0 <= j < marked_before.len() implies #[trigger] marked@[j] == marked_before[j] by {}
                        assert forall|k: int| 0 <= k < i + 1 && #[trigger] q(k) implies exists|j: int|
                            0 <= j < marked@.len() && marked@[j] == k by {
                            if k == i {
                                assert(marked@[marked@.len() - 1] == k);
                            } else {
                                let j0 = choose|j: int| 0 <= j < marked_before.len() && marked_before[j] == k;
                                assert(marked@[j0] == k);
                            }
                        }
                    }
                },
                None => {
                    assert(!q(i as int));
                },
            }
            i = i + 1;
        }
        marked
    }

    /// Handles a key release: the key is no longer held; every voice the
    /// event addresses gets its key-release noise and, unless the sustain
    /// pedal is down, is marked releasing and starts its damper release.
    pub fn note_off(&mut self, voice_id: VoiceTag, channel: MidiChannel, key: MidiKey) -> (plan: NoteOffPlan)
        requires
            old(self).wf(),
        ensures
            final(self).wf(),
            plan.starts_release == !old(self).pedal(),
            lists_exactly(
                plan.targets@,
                |i: int| old(self).slots()[i] is Some && addresses(old(self).slots()[i]->0, voice_id, channel, key),
            ),
            flagged_where(
                old(self).slots(),
                final(self).slots(),
                |v: VoiceSlot| addresses(v, voice_id, channel, key),
                !old(self).pedal(),
            ),
            final(self).held() == old(self).held().update(held_index(key_note(key)), false),
            final(self).counter() == old(self).counter(),
            final(self).pedal() == old(self).pedal(),
            keys_unique(old(self).slots()) ==> keys_unique(final(self).slots()),
            ids_below(old(self).slots(), old(self).counter()) ==> ids_below(final(self).slots(), final(self).counter()),
            ids_distinct(old(self).slots()) ==> ids_distinct(final(self).slots()),
    {
        let note = key.number_or_zero();
        let index: usize = if note < 128 { note as usize } else { 127 };
        self.held_keys.set(index, false);
        let raise = !self.sustain_pedal_down;
        let ghost mid = self.held();
        let targets = self.flag_marked(Mark::Addressed(voice_id, channel, key), raise);
        proof {
            let q1 = |i: int| old(self).slots()[i] is Some && marks(Mark::Addressed(voice_id, channel, key), mid, old(self).slots()[i]->0);
            let q2 = |i: int| old(self).slots()[i] is Some && addresses(old(self).slots()[i]->0, voice_id, channel, key);
            assert(q1 =~= q2);
            assert(flagged_where(old(self).slots(), self.slots(), |v: VoiceSlot| addresses(v, voice_id, channel, key), raise)) by {
                assert forall|v: VoiceSlot| marks(Mark::Addressed(voice_id, channel, key), mid, v) == addresses(v, voice_id, channel, key) by {}
            }
            lemma_flagging_keeps_invariants(
                old(self).slots(),
                self.slots(),
                |v: VoiceSlot| addresses(v, voice_id, channel, key),
                raise,
                self.counter(),
            );
        }
        NoteOffPlan { targets, starts_release: raise }
    }

    /// Moves the sustain pedal. Only a change does anything: lifting the
    /// pedal marks every voice whose key is not held as releasing and
    /// returns those slots, which start their damper release; pressing it
    /// returns nothing.
    pub fn set_sustain_pedal(&mut self, pedal_down: bool) -> (released: Vec<usize>)
        requires
            old(self).wf(),
        ensures
            final(self).wf(),
            final(self).pedal() == pedal_down,
            pedal_down == old(self).pedal() || pedal_down ==> {
                &&& released@.len() == 0
                &&& final(self).slots() == old(self).slots()
            },
            !pedal_down && old(self).pedal() ==> {
                &&& lists_exactly(
                    released@,
                    |i: int| old(self).slots()[i] is Some && !old(self).held()[held_index(old(self).slots()[i]->0.note)],
                )
                &&& flagged_where(
                    old(self).slots(),
                    final(self).slots(),
                    |v: VoiceSlot| !old(self).held()[held_index(v.note)],
                    true,
                )
            },
            final(self).held() == old(self).held(),
            final(self).counter() == old(self).counter(),
            keys_unique(old(self).slots()) ==> keys_unique(final(self).slots()),
            ids_below(old(self).slots(), old(self).counter()) ==> ids_below(final(self).slots(), final(self).counter()),
            ids_distinct(old(self).slots()) ==> ids_distinct(final(self).slots()),
    {
        if pedal_down == self.sustain_pedal_down {
            return Vec::new();
        }
        self.sustain_pedal_down = pedal_down;
        if pedal_down {
            return Vec::new();
        }
        let ghost held = self.held();
        let released = self.flag_marked(Mark::KeyNotHeld, true);
        proof {
            assert(flagged_where(old(self).slots(), self.slots(), |v: VoiceSlot| !held[held_index(v.note)], true)) by {
                assert forall|v: VoiceSlot| marks(Mark::KeyNotHeld, held, v) == !held[held_index(v.note)] by {}
            }
            let q1 = |i: int| old(self).slots()[i] is Some && marks(Mark::KeyNotHeld, held, old(self).slots()[i]->0);
            let q2 = |i: int| old(self).slots()[i] is Some && !held[held_index(old(self).slots()[i]->0.note)];
            assert(q1 =~= q2);
            lemma_flagging_keeps_invariants(
                old(self).slots(),
                self.slots(),
                |v: VoiceSlot| !held[held_index(v.note)],
                true,
                self.counter(),
            );
        }
        released
    }

    /// Starts a voice for a note-on. Voices sounding the same note on the
    /// same channel are taken out first (the new voice adopts their string
    /// state). The new voice goes to the first free slot; when none is
    /// free, the oldest voice is stolen and its slot used. The key becomes
    /// held and the strike counter advances (wrapping).
    pub fn note_on(&mut self, voice_id: VoiceTag, channel: MidiChannel, key: MidiKey) -> (plan: NoteOnPlan)
        requires
            old(self).wf(),
        ensures
            final(self).wf(),
            plan.note == key_note(key),
            plan.internal_voice_id == old(self).counter(),
            plan.noise_seed == spec_strike_noise_seed(old(self).counter(), key_note(key)),
            lists_slots_exactly(plan.replaced@, old(self).slots(), |v: VoiceSlot| sounds(v, key_note(key), channel)),
            has_free(cleared_for(old(self).slots(), key_note(key), channel)) ==> {
                &&& is_first_free(cleared_for(old(self).slots(), key_note(key), channel), plan.slot as int)
                &&& plan.stolen is None
            },
            !has_free(cleared_for(old(self).slots(), key_note(key), channel)) ==> {
                &&& is_first_oldest(cleared_for(old(self).slots(), key_note(key), channel), plan.slot as int)
                &&& plan.stolen == Some((plan.slot, cleared_for(old(self).slots(), key_note(key), channel)[plan.slot as int]->0))
            },
            final(self).slots() == cleared_for(old(self).slots(), key_note(key), channel).update(
                plan.slot as int,
                Some(started_voice(voice_id, old(self).counter(), channel, key)),
            ),
            forall|i: int|
                0 <= i < NUM_VOICES ==> ((#[trigger] final(self).slots()[i]) is Some && sounds(
                    final(self).slots()[i]->0,
                    key_note(key),
                    channel,
                ) <==> i == plan.slot),
            final(self).counter() == vstd::wrapping::u64_specs::wrapping_add(old(self).counter(), 1),
            final(self).held() == old(self).held().update(held_index(key_note(key)), true),
            final(self).pedal() == old(self).pedal(),
            keys_unique(old(self).slots()) ==> keys_unique(final(self).slots()),
            ids_below(old(self).slots(), old(self).counter()) && old(self).counter() < u64::MAX ==> ids_below(
                final(self).slots(),
                final(self).counter(),
            ),
            ids_below(old(self).slots(), old(self).counter()) && ids_distinct(old(self).slots()) ==> ids_distinct(
                final(self).slots(),
            ),
    {
        let note = key.number_or_zero();
        let counter = self.next_internal_voice_id;
        let noise_seed = strike_noise_seed(counter, note);
        let ghost before = self.slots();
        let replaced = self.take_selected(Selection::Sounding(note, channel));
        let ghost cleared = self.slots();
        proof {
            assert(cleared =~= cleared_for(before, note, channel));
            let p1 = |v: VoiceSlot| selects(Selection::Sounding(note, channel), v);
            let p2 = |v: VoiceSlot| sounds(v, note, channel);
            assert(p1 =~= p2);
        }
        let mut slot: usize = NUM_VOICES;
        let mut i: usize = 0;
        while i < NUM_VOICES
            invariant_except_break
                slot == NUM_VOICES,
            invariant
                i <= NUM_VOICES,
                self.wf(),
                self.slots() == cleared,
                cleared.len() == NUM_VOICES,
                forall|j: int| 0 <= j < i ==> #[trigger] cleared[j] is Some,
            ensures
                slot == NUM_VOICES ==> forall|j: int| 0 <= j < NUM_VOICES ==> #[trigger] cleared[j] is Some,
                slot < NUM_VOICES ==> is_first_free(cleared, slot as int),
                slot <= NUM_VOICES,
            decreases NUM_VOICES - i,
        {
            if self.slots[i].is_none() {
                slot = i;
                break;
            }
            i = i + 1;
        }
        let mut stolen: Option<(usize, VoiceSlot)> = None;
        if slot == NUM_VOICES {
            assert(!has_free(cleared));
            assert(cleared[0] is Some);
            let mut best: usize = 0;
            let mut best_id: u64 = match self.slots[0] {
                Some(v) => v.internal_voice_id,
                None => 0,
            };
            let mut j: usize = 1;
            while j < NUM_VOICES
                invariant
                    1 <= j <= NUM_VOICES,
                    self.wf(),
                    self.slots() == cleared,
                    forall|k: int| 0 <= k < NUM_VOICES ==> #[trigger] cleared[k] is Some,
                    best < j,
                    cleared[best as int]->0.internal_voice_id == best_id,
                    forall|k: int| 0 <= k < j ==> best_id <= (#[trigger] cleared[k])->0.internal_voice_id,
                    forall|k: int| 0 <= k < best ==> best_id < (#[trigger] cleared[k])->0.internal_voice_id,
                decreases NUM_VOICES - j,
            {
                match self.slots[j] {
                    Some(v) => {
                        if v.internal_voice_id < best_id {
                            best = j;
                            best_id = v.internal_voice_id;
                        }
                    },
                    None => {},
                }
                j = j + 1;
            }
            let taken = self.slots[best];
            match taken {
                Some(v) => {
                    stolen = Some((best, v));
                },
                None => {},
            }
            slot = best;
            assert(is_first_oldest(cleared, slot as int));
        } else {
            assert(is_first_free(cleared, slot as int));
            assert(has_free(cleared));
        }
        let started = VoiceSlot {
            voice_id,
            internal_voice_id: counter,
            channel,
            key,
            note,
            releasing: false,
        };
        self.slots.set(slot, Some(started));
        self.next_internal_voice_id = counter.wrapping_add(1);
        let index: usize = if note < 128 { note as usize } else { 127 };
        self.held_keys.set(index, true);
        proof {
            let after = self.slots();
            assert(after == cleared.update(slot as int, Some(started_voice(voice_id, counter, channel, key))));
            if keys_unique(before) {
                assert forall|a: int, b: int|
                    0 <= a < after.len() && 0 <= b < after.len() && a != b && (#[trigger] after[a]) is Some
                        && (#[trigger] after[b]) is Some implies !sounds(after[a]->0, after[b]->0.note, after[b]->0.channel) by {
                    if a != slot && b != slot {
                        assert(cleared[a] == before[a]);
                        assert(cleared[b] == before[b]);
                    } else if a == slot {
                        assert(cleared[b] == before[b]);
                    } else {
                        assert(cleared[a] == before[a]);
                    }
                }
            }
            if ids_below(before, counter) {
                assert forall|a: int| 0 <= a < cleared.len() && (#[trigger] cleared[a]) is Some implies cleared[a]->0.internal_voice_id < counter by {
                    assert(cleared[a] == before[a]);
                }
                if counter < u64::MAX {
                    assert forall|a: int| 0 <= a < after.len() && (#[trigger] after[a]) is Some implies after[a]->0.internal_voice_id < self.next_internal_voice_id by {
                        if a != slot {
                            assert(cleared[a] is Some);
                        }
                    }
                }
                if ids_distinct(before) {
                    assert forall|a: int, b: int|
                        0 <= a < after.len() && 0 <= b < after.len() && a != b && (#[trigger] after[a]) is Some
                            && (#[trigger] after[b]) is Some implies after[a]->0.internal_voice_id != after[b]->0.internal_voice_id by {
                        if a != slot && b != slot {
                            assert(cleared[a] == before[a]);
                            assert(cleared[b] == before[b]);
                        } else if a == slot {
                            assert(cleared[b] is Some);
                        } else {
                            assert(cleared[a] is Some);
                        }
                    }
                }
            }
        }
        NoteOnPlan { note, noise_seed, internal_voice_id: counter, replaced, stolen, slot }
    }
}


/// The invariants the table keeps: keys unique, counter values below the
/// counter and pairwise distinct.
pub open spec fn healthy(s: Seq<Option<VoiceSlot>>, counter: u64) -> bool {
    &&& keys_unique(s)
    &&& ids_below(s, counter)
    &&& ids_distinct(s)
}

/// A fresh or reset table is healthy.
pub proof fn lemma_initial_table_is_healthy(t: VoiceTable)
    requires
        t.is_initial(),
    ensures
        healthy(t.slots(), t.counter()),
{
}

/// A note-off while the sustain pedal is down leaves every voice as it
/// was: raising no flag changes nothing.
pub proof fn lemma_held_by_pedal(
    before: Seq<Option<VoiceSlot>>,
    after: Seq<Option<VoiceSlot>>,
    p: spec_fn(VoiceSlot) -> bool,
)
    requires
        flagged_where(before, after, p, false),
    ensures
        after == before,
{
    assert forall|i: int| 0 <= i < before.len() implies #[trigger] after[i] == before[i] by {
        if before[i] is Some && p(before[i]->0) {
            assert(flagged(before[i]->0, false) == before[i]->0);
        }
    }
    assert(after =~= before);
}

/// A voice whose key is released while the sustain pedal is down keeps
/// sounding unchanged, and is marked releasing when the pedal is lifted
/// (provided its key was not struck again in between).
pub proof fn lemma_release_deferred_to_pedal_lift(
    t0: Seq<Option<VoiceSlot>>,
    held0: Seq<bool>,
    t1: Seq<Option<VoiceSlot>>,
    held1: Seq<bool>,
    t2: Seq<Option<VoiceSlot>>,
    voice_id: VoiceTag,
    channel: MidiChannel,
    key: MidiKey,
    i: int,
)
    requires
        held0.len() == KEY_COUNT,
        0 <= i < t0.len(),
        t0[i] is Some,
        t0[i]->0.note == key_note(key),
        flagged_where(t0, t1, |v: VoiceSlot| addresses(v, voice_id, channel, key), false),
        held1 == held0.update(held_index(key_note(key)), false),
        flagged_where(t1, t2, |v: VoiceSlot| !held1[held_index(v.note)], true),
    ensures
        t1[i] == t0[i],
        t2[i] is Some,
        t2[i]->0.releasing,
        t2[i]->0.note == t0[i]->0.note,
        t2[i]->0.internal_voice_id == t0[i]->0.internal_voice_id,
{
    lemma_held_by_pedal(t0, t1, |v: VoiceSlot| addresses(v, voice_id, channel, key));
    assert(t1[i] == t0[i]);
    assert(!held1[held_index(t1[i]->0.note)]);
}

/// Which voices a note-off or choke reaches: the voice with the event's
/// voice identifier, and the voice on the event's channel and key; an event
/// whose identifier differs and whose channel or key differs does not
/// reach it.
pub proof fn lemma_event_addressing(slot: VoiceSlot, voice_id: VoiceTag, channel: MidiChannel, key: MidiKey)
    ensures
        voice_id == slot.voice_id ==> addresses(slot, voice_id, channel, key),
        channel == slot.channel && key == slot.key ==> addresses(slot, voice_id, channel, key),
        voice_id != slot.voice_id && channel != slot.channel ==> !addresses(slot, voice_id, channel, key),
        voice_id != slot.voice_id && key != slot.key ==> !addresses(slot, voice_id, channel, key),
{
}

/// The held-key table has one entry per MIDI key: key `n < 128` uses entry
/// `n`, distinct keys use distinct entries, and notes above 127 share the
/// last entry.
pub proof fn lemma_one_held_entry_per_key(a: u8, b: u8)
    ensures
        0 <= held_index(a) < KEY_COUNT,
        a < 128 ==> held_index(a) == a,
        a >= 128 ==> held_index(a) == 127,
        a < 128 && b < 128 && a != b ==> held_index(a) != held_index(b),
{
}

/// Striking or releasing one key leaves the held flag of every other key
/// below 128 as it was.
pub proof fn lemma_other_keys_keep_held_flag(held: Seq<bool>, struck: u8, other: u8, flag: bool)
    requires
        held.len() == KEY_COUNT,
        struck < 128,
        other < 128,
        struck != other,
    ensures
        held.update(held_index(struck), flag)[held_index(other)] == held[held_index(other)],
        held.update(held_index(struck), flag)[held_index(struck)] == flag,
{
    lemma_one_held_entry_per_key(struck, other);
}

} // verus!
