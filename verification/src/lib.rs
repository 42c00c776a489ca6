//! Integer and bookkeeping logic of a physically modelled piano synthesizer:
//! the seeded xorshift generator, note tables, sample history, voice
//! allocation and the block/step scheduling of the audio callback.

pub mod rng;
pub mod noise;
pub mod voices;
pub mod history;
pub mod schedule;
pub mod keyboard;
