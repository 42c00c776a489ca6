//! A fixed-capacity history of the most recent samples of a signal (the
//! soundboard's volume acceleration, read back with a delay for the direct
//! and early-reflection sound field).

use vstd::prelude::*;
use vstd::arithmetic::div_mod::{
    lemma_add_mod_noop_right, lemma_mod_add_multiples_vanish, lemma_mod_equivalence, lemma_small_mod,
};

verus! {

/// Smallest capacity a history is created with.
pub const MINIMUM_HISTORY_CAPACITY: usize = 4;

/// Distinct positions less than `m` apart fall on distinct remainders.
proof fn lemma_mod_distinct(a: int, b: int, m: int)
    requires
        0 < m,
        0 <= a < b < a + m,
    ensures
        a % m != b % m,
{
    lemma_mod_equivalence(b, a, m);
    lemma_small_mod((b - a) as nat, m as nat);
}

/// Stepping `back` positions back from `total % m` (`back <= m`, `back <=
/// total`) lands on `(total - back) % m`.
proof fn lemma_step_back(total: int, back: int, m: int)
    requires
        0 < m,
        0 <= back <= m,
        back <= total,
    ensures
        ((total % m) + m - back) % m == (total - back) % m,
{
    lemma_add_mod_noop_right(m - back, total, m);
    lemma_mod_add_multiples_vanish(total - back, m);
    assert(m - back + total == m + (total - back));
}

pub struct SampleHistory<T> {
    samples: Vec<T>,
    write_index: usize,
    total_samples_pushed: usize,
    pushed: Ghost<Seq<T>>,
}

impl<T: Copy> SampleHistory<T> {
    /// Every value ever pushed, oldest first.
    pub closed spec fn pushed(&self) -> Seq<T> {
        self.pushed@
    }

    /// Number of values the history keeps.
    pub closed spec fn capacity(&self) -> nat {
        self.samples@.len()
    }

    /// Number of the most recent values that can still be read back.
    pub open spec fn available(&self) -> nat {
        if self.pushed().len() < self.capacity() {
            self.pushed().len()
        } else {
            self.capacity()
        }
    }

    pub closed spec fn wf(&self) -> bool {
        &&& self.samples@.len() >= MINIMUM_HISTORY_CAPACITY
        &&& self.total_samples_pushed == self.pushed@.len()
        &&& self.write_index as int == (self.total_samples_pushed as int) % (self.samples@.len() as int)
        &&& forall|j: int|
            self.pushed@.len() - self.available() <= j < self.pushed@.len() ==> #[trigger] self.samples@[j
                % (self.samples@.len() as int)] == self.pushed@[j]
    }

    /// An empty history that keeps `capacity` values (at least
    /// `MINIMUM_HISTORY_CAPACITY`), its storage filled with `fill`.
    pub fn new(capacity: usize, fill: T) -> (r: Self)
        ensures
            r.wf(),
            r.pushed() == Seq::<T>::empty(),
            r.capacity() == if capacity < MINIMUM_HISTORY_CAPACITY {
                MINIMUM_HISTORY_CAPACITY as nat
            } else {
                capacity as nat
            },
    {
        let size: usize = if capacity < MINIMUM_HISTORY_CAPACITY { MINIMUM_HISTORY_CAPACITY } else { capacity };
        let mut samples: Vec<T> = Vec::new();
        let mut i: usize = 0;
        while i < size
            invariant
                i <= size,
                samples@.len() == i,
            decreases size - i,
        {
            samples.push(fill);
            i = i + 1;
        }
        proof {
            lemma_small_mod(0, size as nat);
        }
        SampleHistory { samples, write_index: 0, total_samples_pushed: 0, pushed: Ghost(Seq::empty()) }
    }

    /// Number of values pushed so far.
    pub fn total_samples_pushed(&self) -> (r: usize)
        requires
            self.wf(),
        ensures
            r == self.pushed().len(),
    {
        self.total_samples_pushed
    }

    /// Appends a value, overwriting the oldest one once the history is
    /// full.
    pub fn push(&mut self, value: T)
        requires
            old(self).wf(),
            old(self).pushed().len() < usize::MAX,
        ensures
            final(self).wf(),
            final(self).pushed() == old(self).pushed().push(value),
            final(self).capacity() == old(self).capacity(),
    {
        let ghost old_pushed = self.pushed@;
        let ghost m = self.samples@.len() as int;
        let ghost total = self.total_samples_pushed as int;
        let w = self.write_index;
        proof {
            vstd::arithmetic::div_mod::lemma_mod_bound(total, m);
        }
        let len = self.samples.len();
        assert(w < len);
        self.samples.set(w, value);
        let next = w + 1;
        self.write_index = if next == len { 0 } else { next };
        self.total_samples_pushed = self.total_samples_pushed + 1;
        self.pushed = Ghost(old_pushed.push(value));
        proof {
            assert(self.write_index == (total + 1) % m) by {
                lemma_step_back(total + 1, 0, m);
                lemma_step_back(total + m, m - 1, m);
                lemma_mod_add_multiples_vanish(total, m);
                lemma_mod_add_multiples_vanish(total + 1, m);
                if next == m {
                    lemma_small_mod(0, m as nat);
                    assert((total % m) + 1 == m);
                    lemma_add_mod_noop_right(1, total, m);
                    lemma_mod_add_multiples_vanish(0, m);
                } else {
                    lemma_add_mod_noop_right(1, total, m);
                    lemma_small_mod((w + 1) as nat, m as nat);
                }
            }
            assert forall|j: int|
                self.pushed@.len() - self.available() <= j < self.pushed@.len() implies #[trigger] self.samples@[j
                % m] == self.pushed@[j] by {
                if j == total {
                } else {
                    lemma_mod_distinct(j, total, m);
                }
            }
        }
    }

    /// The two values `steps_back` and `steps_back + 1` pushes before the
    /// newest one (`steps_back == 0` names the newest value), or `None`
    /// when the older of them is no longer (or not yet) in the history.
    pub fn neighbours(&self, steps_back: usize) -> (r: Option<(T, T)>)
        requires
            self.wf(),
            steps_back < usize::MAX,
        ensures
            r is Some <==> steps_back + 1 < self.available(),
            r is Some ==> r->0 == (
                self.pushed()[self.pushed().len() - 1 - steps_back],
                self.pushed()[self.pushed().len() - 2 - steps_back],
            ),
    {
        let capacity = self.samples.len();
        let available = if self.total_samples_pushed < capacity { self.total_samples_pushed } else { capacity };
        if self.total_samples_pushed == 0 || steps_back + 1 >= available {
            return None;
        }
        let ghost m = capacity as int;
        let ghost total = self.total_samples_pushed as int;
        let newest = if self.write_index == 0 { capacity - 1 } else { self.write_index - 1 };
        let newer = if newest >= steps_back { newest - steps_back } else { capacity - (steps_back - newest) };
        let older = if newer >= 1 { newer - 1 } else { capacity - 1 };
        proof {
            lemma_step_back(total, 1, m);
            assert(newest == (total - 1) % m) by {
                if self.write_index == 0 {
                    lemma_small_mod((m - 1) as nat, m as nat);
                } else {
                    lemma_small_mod((self.write_index - 1) as nat, m as nat);
                    lemma_mod_add_multiples_vanish(self.write_index - 1, m);
                    assert(self.write_index + m - 1 == m + (self.write_index - 1));
                }
            }
            lemma_step_back(total - 1, steps_back as int, m);
            assert(newer == (total - 1 - steps_back) % m) by {
                lemma_small_mod(newer as nat, m as nat);
                if newest >= steps_back {
                    lemma_mod_add_multiples_vanish(newer as int, m);
                    assert(newest + m - steps_back == m + newer);
                }
            }
            lemma_step_back(total - 1 - steps_back, 1, m);
            assert(older == (total - 2 - steps_back) % m) by {
                lemma_small_mod(older as nat, m as nat);
                if newer >= 1 {
                    lemma_mod_add_multiples_vanish(older as int, m);
                    assert(newer + m - 1 == m + older);
                }
            }
        }
        Some((self.samples[newer], self.samples[older]))
    }
}

/// Pushing a value makes it the newest one and ages every earlier value
/// by one step: what was `k` steps back is now `k + 1` steps back.
pub proof fn lemma_push_ages_by_one<T>(before: Seq<T>, value: T, k: int)
    requires
        0 <= k < before.len(),
    ensures
        before.push(value)[before.push(value).len() - 1] == value,
        before.push(value)[before.push(value).len() - 1 - (k + 1)] == before[before.len() - 1 - k],
{
}

} // verus!
