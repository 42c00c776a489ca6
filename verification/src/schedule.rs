//! Scheduling of the audio callback: how a host buffer is cut into blocks
//! at note events, how engine steps are produced and buffered for the
//! resampled output, and how long the shared resonators keep ringing
//! after the last voice.

use vstd::prelude::*;

verus! {

/// Longest block rendered between two looks at the event queue.
pub const MAX_BLOCK_SIZE: usize = 64;

/// Number of engine steps kept for output interpolation.
pub const PRESSURE_RING_SIZE: u64 = 8;

/// Engine steps simulated after the last voice ends (0.75 s at 48 kHz).
pub const RINGOUT_STEPS: u64 = 36000;

pub open spec fn min_usize(a: int, b: int) -> int {
    if a <= b {
        a
    } else {
        b
    }
}

/// Position of the audio callback in the host buffer: the block
/// `[start, end)` about to be rendered.
pub struct BlockCursor {
    start: usize,
    end: usize,
    total: usize,
}

impl BlockCursor {
    pub closed spec fn block_start(&self) -> nat {
        self.start as nat
    }

    pub closed spec fn block_end(&self) -> nat {
        self.end as nat
    }

    pub closed spec fn buffer_len(&self) -> nat {
        self.total as nat
    }

    /// The block lies in the buffer, is at most `MAX_BLOCK_SIZE` long and
    /// is not empty unless the buffer is done.
    pub open spec fn wf(&self) -> bool {
        &&& self.block_start() <= self.block_end() <= self.buffer_len()
        &&& self.block_end() - self.block_start() <= MAX_BLOCK_SIZE
        &&& self.block_start() < self.buffer_len() ==> self.block_start() < self.block_end()
    }

    /// The first block of a buffer of `total` samples.
    pub fn new(total: usize) -> (r: Self)
        ensures
            r.wf(),
            r.block_start() == 0,
            r.block_end() == min_usize(MAX_BLOCK_SIZE as int, total as int),
            r.buffer_len() == total,
    {
        let end = if MAX_BLOCK_SIZE < total { MAX_BLOCK_SIZE } else { total };
        BlockCursor { start: 0, end, total }
    }

    pub fn start(&self) -> (r: usize)
        ensures
            r == self.block_start(),
    {
        self.start
    }

    pub fn end(&self) -> (r: usize)
        ensures
            r == self.block_end(),
    {
        self.end
    }

    /// Whether samples remain to be rendered.
    pub fn has_more(&self) -> (r: bool)
        ensures
            r == (self.block_start() < self.buffer_len()),
    {
        self.start < self.total
    }

    /// Whether an event at `timing` is handled before the current block is
    /// rendered.
    pub fn is_due(&self, timing: u32) -> (r: bool)
        ensures
            r == (timing as nat <= self.block_start()),
    {
        (timing as usize) <= self.start
    }

    /// Shortens the current block so that it ends where a pending event
    /// (one that is not yet due) takes effect; returns whether it did.
    pub fn cut_at(&mut self, timing: u32) -> (r: bool)
        requires
            old(self).wf(),
            old(self).block_start() < timing as nat,
        ensures
            final(self).wf(),
            r == ((timing as nat) < old(self).block_end()),
            final(self).block_start() == old(self).block_start(),
            final(self).buffer_len() == old(self).buffer_len(),
            final(self).block_end() == if r { timing as nat } else { old(self).block_end() },
    {
        let t = timing as usize;
        if t < self.end {
            self.end = t;
            true
        } else {
            false
        }
    }

    /// Moves on to the block after the one just rendered.
    pub fn advance(&mut self)
        requires
            old(self).wf(),
        ensures
            final(self).wf(),
            final(self).block_start() == old(self).block_end(),
            final(self).block_end() == min_usize(old(self).block_end() + MAX_BLOCK_SIZE, old(self).buffer_len() as int),
            final(self).buffer_len() == old(self).buffer_len(),
    {
        self.start = self.end;
        let room = self.total - self.start;
        self.end = if MAX_BLOCK_SIZE < room { self.start + MAX_BLOCK_SIZE } else { self.total };
    }
}

/// Every block of a buffer that still has samples to render is non-empty,
/// so rendering it moves the cursor forward and the callback's loop ends.
pub proof fn lemma_block_makes_progress(c: BlockCursor)
    requires
        c.wf(),
        c.block_start() < c.buffer_len(),
    ensures
        c.block_end() > c.block_start(),
        c.buffer_len() - c.block_end() < c.buffer_len() - c.block_start(),
{
}

/// The engine steps produced so far and the most recent of their outputs,
/// from which the output samples are interpolated.
pub struct EngineClock<T> {
    ring: Vec<T>,
    engine_steps_rendered: u64,
    output_samples_rendered: u64,
    recorded: Ghost<Seq<T>>,
}

impl<T: Copy> EngineClock<T> {
    /// Output of every engine step so far, by step number.
    pub closed spec fn recorded(&self) -> Seq<T> {
        self.recorded@
    }

    /// Slot `i` of the ring of recent step outputs.
    pub closed spec fn ring_slot(&self, i: int) -> T {
        self.ring@[i]
    }

    pub closed spec fn output_count(&self) -> nat {
        self.output_samples_rendered as nat
    }

    pub closed spec fn wf(&self) -> bool {
        &&& self.ring@.len() == PRESSURE_RING_SIZE
        &&& self.recorded@.len() == self.engine_steps_rendered
        &&& forall|s: int|
            self.recorded@.len() - PRESSURE_RING_SIZE <= s < self.recorded@.len() && 0 <= s ==> #[trigger] self.ring@[s
                % (PRESSURE_RING_SIZE as int)] == self.recorded@[s]
    }

    /// A clock at step zero, its ring filled with `fill`.
    pub fn new(fill: T) -> (r: Self)
        ensures
            r.wf(),
            r.recorded() == Seq::<T>::empty(),
            r.output_count() == 0,
            forall|i: int| 0 <= i < PRESSURE_RING_SIZE ==> r.ring_slot(i) == fill,
    {
        let mut ring: Vec<T> = Vec::new();
        let mut i: u64 = 0;
        while i < PRESSURE_RING_SIZE
            invariant
                i <= PRESSURE_RING_SIZE,
                ring@.len() == i,
                forall|j: int| 0 <= j < i ==> #[trigger] ring@[j] == fill,
            decreases PRESSURE_RING_SIZE - i,
        {
            ring.push(fill);
            i = i + 1;
        }
        EngineClock { ring, engine_steps_rendered: 0, output_samples_rendered: 0, recorded: Ghost(Seq::empty()) }
    }

    /// Back to step zero, the ring filled with `fill`.
    pub fn reset(&mut self, fill: T)
        ensures
            final(self).wf(),
            final(self).recorded() == Seq::<T>::empty(),
            final(self).output_count() == 0,
            forall|i: int| 0 <= i < PRESSURE_RING_SIZE ==> final(self).ring_slot(i) == fill,
    {
        *self = EngineClock::new(fill);
    }

    /// Number of engine steps produced.
    pub fn engine_steps_rendered(&self) -> (r: u64)
        requires
            self.wf(),
        ensures
            r == self.recorded().len(),
    {
        self.engine_steps_rendered
    }

    /// Number of output samples produced.
    pub fn output_samples_rendered(&self) -> (r: u64)
        ensures
            r == self.output_count(),
    {
        self.output_samples_rendered
    }

    /// Whether another engine step is needed before the output sample
    /// interpolated between steps `base_step` and `base_step + 1` can be
    /// produced.
    pub fn needs_engine_step(&self, base_step: u64) -> (r: bool)
        requires
            self.wf(),
            base_step <= u64::MAX - 2,
        ensures
            r == (self.recorded().len() < base_step + 2),
    {
        self.engine_steps_rendered < base_step + 2
    }

    /// Records the output of the next engine step.
    pub fn record_engine_step(&mut self, value: T)
        requires
            old(self).wf(),
            old(self).recorded().len() < u64::MAX,
        ensures
            final(self).wf(),
            final(self).recorded() == old(self).recorded().push(value),
            final(self).output_count() == old(self).output_count(),
    {
        let ghost n = self.engine_steps_rendered as int;
        let index = (self.engine_steps_rendered % PRESSURE_RING_SIZE) as usize;
        self.ring.set(index, value);
        self.engine_steps_rendered = self.engine_steps_rendered + 1;
        self.recorded = Ghost(self.recorded@.push(value));
        proof {
            assert forall|s: int|
                self.recorded@.len() - PRESSURE_RING_SIZE <= s < self.recorded@.len() && 0 <= s implies #[trigger] self.ring@[s
                % (PRESSURE_RING_SIZE as int)] == self.recorded@[s] by {
                if s != n {
                    assert(s % 8 != n % 8) by (nonlinear_arith)
                        requires
                            n - 8 < s < n,
                    {
                        assert(s % 8 != n % 8) by {
                            vstd::arithmetic::div_mod::lemma_fundamental_div_mod(s, 8);
                            vstd::arithmetic::div_mod::lemma_fundamental_div_mod(n, 8);
                        }
                    }
                }
            }
        }
    }

    /// The ring entries of steps `base_step` and `base_step + 1`; they are
    /// the outputs of those steps when both were produced and are among
    /// the last `PRESSURE_RING_SIZE` steps.
    pub fn interpolation_pair(&self, base_step: u64) -> (r: (T, T))
        requires
            self.wf(),
            base_step < u64::MAX,
        ensures
            r == (
                self.ring_slot(base_step as int % PRESSURE_RING_SIZE as int),
                self.ring_slot((base_step + 1) as int % PRESSURE_RING_SIZE as int),
            ),
            base_step + 2 <= self.recorded().len() && self.recorded().len() <= base_step + PRESSURE_RING_SIZE ==> r == (
                self.recorded()[base_step as int],
                self.recorded()[base_step + 1],
            ),
    {
        let first = self.ring[(base_step % PRESSURE_RING_SIZE) as usize];
        let second = self.ring[((base_step + 1) % PRESSURE_RING_SIZE) as usize];
        (first, second)
    }

    /// Counts one more output sample.
    pub fn finish_output_sample(&mut self)
        requires
            old(self).wf(),
            old(self).output_count() < u64::MAX,
        ensures
            final(self).wf(),
            final(self).recorded() == old(self).recorded(),
            final(self).output_count() == old(self).output_count() + 1,
            forall|i: int| final(self).ring_slot(i) == old(self).ring_slot(i),
    {
        self.output_samples_rendered = self.output_samples_rendered + 1;
    }
}

/// How many more engine steps the shared soundboard and room are
/// simulated once no voice sounds.
pub struct RingoutCounter {
    steps_remaining: u64,
}

/// Whether a step is simulated, and the counter after it.
pub open spec fn ringout_step(any_voice_active: bool, remaining: u64) -> (bool, u64) {
    if any_voice_active {
        (true, RINGOUT_STEPS)
    } else if remaining == 0 {
        (false, 0)
    } else {
        (true, (remaining - 1) as u64)
    }
}

/// Number of simulated steps among `n` consecutive steps without any
/// voice, starting from counter value `remaining`.
pub open spec fn idle_steps_simulated(remaining: u64, n: nat) -> nat
    decreases n,
{
    if n == 0 {
        0
    } else {
        let (simulated, next) = ringout_step(false, remaining);
        (if simulated { 1nat } else { 0nat }) + idle_steps_simulated(next, (n - 1) as nat)
    }
}

impl RingoutCounter {
    pub closed spec fn remaining(&self) -> u64 {
        self.steps_remaining
    }

    /// A counter with nothing left to ring out.
    pub fn new() -> (r: Self)
        ensures
            r.remaining() == 0,
    {
        RingoutCounter { steps_remaining: 0 }
    }

    /// Decides whether the coming engine step is simulated: always while a
    /// voice sounds (which re-arms the counter), and afterwards until the
    /// counter runs out.
    pub fn begin_step(&mut self, any_voice_active: bool) -> (r: bool)
        ensures
            (r, final(self).remaining()) == ringout_step(any_voice_active, old(self).remaining()),
            any_voice_active ==> r && final(self).remaining() == RINGOUT_STEPS,
            !any_voice_active ==> (r <==> old(self).remaining() > 0),
            !any_voice_active && old(self).remaining() > 0 ==> final(self).remaining() == old(self).remaining() - 1,
    {
        if !any_voice_active && self.steps_remaining == 0 {
            return false;
        }
        self.steps_remaining = if any_voice_active { RINGOUT_STEPS } else { self.steps_remaining - 1 };
        true
    }

    /// Forgets any pending ring-out.
    pub fn reset(&mut self)
        ensures
            final(self).remaining() == 0,
    {
        self.steps_remaining = 0;
    }
}

/// Once no voice sounds, exactly as many steps are simulated as the
/// counter held, then none.
pub proof fn lemma_ringout_length(remaining: u64, n: nat)
    ensures
        idle_steps_simulated(remaining, n) == if n <= remaining { n } else { remaining as nat },
    decreases n,
{
    if n > 0 {
        if remaining > 0 {
            lemma_ringout_length((remaining - 1) as u64, (n - 1) as nat);
        } else {
            lemma_ringout_length(0, (n - 1) as nat);
        }
    }
}

/// The counter after `k` consecutive steps during which a voice sounds.
pub open spec fn after_active_steps(remaining: u64, k: nat) -> u64
    decreases k,
{
    if k == 0 {
        remaining
    } else {
        ringout_step(true, after_active_steps(remaining, (k - 1) as nat)).1
    }
}

/// Every step during which a voice sounds is simulated and re-arms the
/// ring-out to its full length, whatever was left of it.
pub proof fn lemma_active_step_rearms(remaining: u64)
    ensures
        ringout_step(true, remaining).0,
        ringout_step(true, remaining).1 == RINGOUT_STEPS,
{
}

/// However long a note sounded, and whatever the counter was when it
/// started, the tail after it lasts exactly `RINGOUT_STEPS` steps: of `n`
/// following steps without a voice, `min(n, RINGOUT_STEPS)` are simulated.
pub proof fn lemma_tail_independent_of_note_length(remaining: u64, k: nat, n: nat)
    requires
        k >= 1,
    ensures
        after_active_steps(remaining, k) == RINGOUT_STEPS,
        idle_steps_simulated(after_active_steps(remaining, k), n) == if n <= RINGOUT_STEPS {
            n
        } else {
            RINGOUT_STEPS as nat
        },
{
    lemma_active_step_rearms(after_active_steps(remaining, (k - 1) as nat));
    lemma_ringout_length(RINGOUT_STEPS, n);
}

/// Engine sub-steps for one step: `steps_during_strike` while a hammer
/// strikes, one otherwise.
pub fn sub_step_count(strike_phase_active: bool, steps_during_strike: usize) -> (r: usize)
    ensures
        r == if strike_phase_active { steps_during_strike } else { 1 },
{
    if strike_phase_active {
        steps_during_strike
    } else {
        1
    }
}

} // verus!
