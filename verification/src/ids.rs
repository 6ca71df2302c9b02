//! Deterministic allocation of unique identifiers.
//!
//! An `IdTracker` owns a seeded random source of its own and the set of
//! identifiers it has already issued.  A fresh identifier is drawn uniformly
//! from the configured range and redrawn on collision; the redraw is bounded,
//! and exhausting the bound surfaces as an explicit error instead of looping
//! forever on an over-crowded identifier space.
use vstd::prelude::*;

use crate::config::{GenConfig, GenError};
use crate::rng::{rng_next_u32, rng_seed_state, stdrng_gen_u32, stdrng_state};
use std::collections::HashSet;

verus! {

broadcast use vstd::std_specs::hash::group_hash_axioms;

/// How many colliding draws are tolerated before the identifier space is
/// declared exhausted.
pub const ID_RETRY_LIMIT: u64 = 64;

/// The abstract state one generation run threads through every draw: the
/// structural random stream, the identifier allocator's own random stream,
/// and the set of identifiers issued so far.
pub ghost struct GenState {
    pub rng: int,
    pub id_rng: int,
    pub issued: Set<u32>,
}

/// One bounded identifier draw: redraw while the value collides, giving up
/// after `tries` draws.  Yields the drawn identifier (if any) and the random
/// state left behind.
pub open spec fn spec_draw_id(
    state: int,
    issued: Set<u32>,
    min_id: u32,
    max_id: u32,
    tries: nat,
) -> (Option<u32>, int)
    decreases tries,
{
    if tries == 0 {
        (None, state)
    } else {
        let (s2, v) = rng_next_u32(state, min_id, max_id);
        if issued.contains(v) {
            spec_draw_id(s2, issued, min_id, max_id, (tries - 1) as nat)
        } else {
            (Some(v), s2)
        }
    }
}

/// One identifier allocation as a step on the threaded generation state.
pub open spec fn spec_alloc_id(st: GenState, cfg: GenConfig) -> Result<(u32, GenState), GenError> {
    let (o, s2) = spec_draw_id(st.id_rng, st.issued, cfg.min_id, cfg.max_id, ID_RETRY_LIMIT as nat);
    match o {
        Some(id) => Ok(
            (id, GenState { id_rng: s2, issued: st.issued.insert(id), ..st }),
        ),
        None => Err(GenError::IdSpaceExhausted),
    }
}

/// Issues identifiers that are pairwise distinct for the lifetime of the
/// tracker, drawn from a seeded random source of its own.
pub struct IdTracker {
    ids: HashSet<u32>,
    rng: rand::rngs::StdRng,
}

impl IdTracker {
    /// The set of identifiers issued so far.
    pub closed spec fn issued(&self) -> Set<u32> {
        self.ids@
    }

    /// The abstract state of the tracker's own random source.
    pub closed spec fn state(&self) -> int {
        stdrng_state(self.rng)
    }

    /// A fresh tracker: nothing issued, random source seeded from `seed`.
    pub fn new(seed: u64) -> (r: IdTracker)
        ensures
            r.issued() == Set::<u32>::empty(),
            r.state() == rng_seed_state(seed),
    {
        IdTracker { ids: HashSet::new(), rng: crate::rng::seeded_rng(seed) }
    }

    /// Draw a fresh identifier from `[min_id, max_id)`.  On success the
    /// identifier was never issued before and is recorded as issued; after a
    /// bounded number of colliding draws the identifier space is reported
    /// exhausted.
    pub fn get_new_id(&mut self, settings: &GenConfig) -> (r: Result<u32, GenError>)
        requires
            settings.id_range_ok(),
        ensures
            ({
                let (o, s2) = spec_draw_id(
                    old(self).state(),
                    old(self).issued(),
                    settings.min_id,
                    settings.max_id,
                    ID_RETRY_LIMIT as nat,
                );
                match o {
                    Some(id) => {
                        &&& r == Ok::<u32, GenError>(id)
                        &&& final(self).state() == s2
                        &&& final(self).issued() == old(self).issued().insert(id)
                        &&& !old(self).issued().contains(id)
                        &&& settings.min_id <= id < settings.max_id
                    },
                    None => r == Err::<u32, GenError>(GenError::IdSpaceExhausted)
                        && final(self).issued() == old(self).issued(),
                }
            }),
    {
        let mut tries: u64 = ID_RETRY_LIMIT;
        while tries > 0
            invariant
                settings.id_range_ok(),
                self.issued() == old(self).issued(),
                spec_draw_id(
                    self.state(),
                    self.issued(),
                    settings.min_id,
                    settings.max_id,
                    tries as nat,
                ) == spec_draw_id(
                    old(self).state(),
                    old(self).issued(),
                    settings.min_id,
                    settings.max_id,
                    ID_RETRY_LIMIT as nat,
                ),
            decreases tries,
        {
            let id = stdrng_gen_u32(&mut self.rng, settings.min_id, settings.max_id);
            if !self.ids.contains(&id) {
                self.ids.insert(id);
                return Ok(id);
            }
            tries = tries - 1;
        }
        Err(GenError::IdSpaceExhausted)
    }
}

} // verus!
