//! Configuration surface of the generator, and its failure taxonomy.
use vstd::prelude::*;

verus! {

/// The knobs the generation pipeline consumes.  Each `min`/`max` pair bounds
/// a half-open interval `[min, max)`; an empty interval simply yields zero
/// items (or a constant distance) instead of failing.
#[derive(Clone, Copy, Debug, PartialEq, Eq, Structural)]
pub struct GenConfig {
    pub num_of_towns: usize,
    pub num_of_connections: u32,
    pub min_distance: u32,
    pub max_distance: u32,
    pub cost: u32,
    pub min_id: u32,
    pub max_id: u32,
    pub min_buildings: u32,
    pub max_buildings: u32,
    pub min_npcs: u32,
    pub max_npcs: u32,
    pub min_rooms: u32,
    pub max_rooms: u32,
    pub min_containers: u32,
    pub max_containers: u32,
}

impl GenConfig {
    /// Identifiers are drawn from `[min_id, max_id)`, which must be non-empty.
    pub open spec fn id_range_ok(self) -> bool {
        self.min_id < self.max_id
    }

    /// The largest distance any edge can carry under this configuration.
    pub open spec fn dist_bound(self) -> int {
        if self.min_distance < self.max_distance {
            self.max_distance - 1
        } else {
            self.min_distance as int
        }
    }

    /// Every edge cost `distance * cost` fits in a `u32`.
    pub open spec fn cost_mul_ok(self) -> bool {
        self.dist_bound() * self.cost <= u32::MAX
    }

    /// The up-front validity check: a configuration that fails it is rejected
    /// before any generation work starts.
    pub open spec fn valid(self) -> bool {
        self.id_range_ok() && self.cost_mul_ok()
    }

    /// Executable mirror of `valid`.
    pub fn check_valid(&self) -> (r: bool)
        ensures
            r == self.valid(),
    {
        let dist_bound: u64 = if self.min_distance < self.max_distance {
            (self.max_distance - 1) as u64
        } else {
            self.min_distance as u64
        };
        let cost = self.cost as u64;
        proof {
            assert(dist_bound * cost <= 0xffff_ffffu64 * 0xffff_ffffu64) by (nonlinear_arith)
                requires
                    dist_bound <= 0xffff_ffffu64,
                    cost <= 0xffff_ffffu64,
            ;
        }
        self.min_id < self.max_id && dist_bound * cost <= u32::MAX as u64
    }
}

/// How a generation run can fail.  Recoverable conditions (absent word lists,
/// malformed import lines) are absorbed locally and never surface here.
#[derive(Clone, Copy, Debug, PartialEq, Eq, Structural)]
pub enum GenError {
    /// The configuration was rejected up front: an empty identifier range, or
    /// a `distance * cost` product that can overflow.
    InvalidConfig,
    /// The identifier space is too crowded: a bounded number of fresh draws
    /// all collided with already-issued identifiers.
    IdSpaceExhausted,
}

/// The externally supplied word lists the name synthesizer draws from.  An
/// empty list makes the corresponding draw degrade to a sentinel string.
pub struct WordLists {
    pub town_prefixes: Vec<String>,
    pub town_roots: Vec<String>,
    pub town_suffixes: Vec<String>,
    pub surnames: Vec<String>,
    pub shops: Vec<String>,
    pub taverns: Vec<String>,
    pub temples: Vec<String>,
    pub names_male: Vec<String>,
    pub names_female: Vec<String>,
    pub names_unisex: Vec<String>,
}

/// The mathematical content of a set of word lists: each list as a sequence
/// of character sequences.
pub ghost struct WordListsM {
    pub town_prefixes: Seq<Seq<char>>,
    pub town_roots: Seq<Seq<char>>,
    pub town_suffixes: Seq<Seq<char>>,
    pub surnames: Seq<Seq<char>>,
    pub shops: Seq<Seq<char>>,
    pub taverns: Seq<Seq<char>>,
    pub temples: Seq<Seq<char>>,
    pub names_male: Seq<Seq<char>>,
    pub names_female: Seq<Seq<char>>,
    pub names_unisex: Seq<Seq<char>>,
}

impl View for WordLists {
    type V = WordListsM;

    open spec fn view(&self) -> WordListsM {
        WordListsM {
            town_prefixes: self.town_prefixes.deep_view(),
            town_roots: self.town_roots.deep_view(),
            town_suffixes: self.town_suffixes.deep_view(),
            surnames: self.surnames.deep_view(),
            shops: self.shops.deep_view(),
            taverns: self.taverns.deep_view(),
            temples: self.temples.deep_view(),
            names_male: self.names_male.deep_view(),
            names_female: self.names_female.deep_view(),
            names_unisex: self.names_unisex.deep_view(),
        }
    }
}

} // verus!
