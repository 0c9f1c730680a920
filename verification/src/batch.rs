//! The bookkeeping of batches of games: how many games ended on each high
//! card, and how many threads and generations an optimizing run uses.
use std::collections::BTreeMap;
use vstd::prelude::*;

use crate::board_state::Card;

verus! {

/// How often `card` occurs in `s`.
pub open spec fn occurrences(s: Seq<Card>, card: Card) -> nat
    decreases s.len(),
{
    if s.len() == 0 {
        0
    } else {
        occurrences(s.drop_last(), card) + if s.last() == card {
            1nat
        } else {
            0nat
        }
    }
}

proof fn lemma_occurrences_bound(s: Seq<Card>, card: Card)
    ensures
        occurrences(s, card) <= s.len(),
    decreases s.len(),
{
    if s.len() > 0 {
        lemma_occurrences_bound(s.drop_last(), card);
    }
}

/// How many games ended on each high card: every high card that occurs,
/// with the number of its occurrences, in increasing order of cards.
pub fn high_card_counts(high_cards: &Vec<Card>) -> (counts: BTreeMap<Card, usize>)
    ensures
        forall|card: Card| #[trigger]
            counts@.contains_key(card) <==> occurrences(high_cards@, card) > 0,
        forall|card: Card| #[trigger]
            counts@.contains_key(card) ==> counts@[card] == occurrences(high_cards@, card),
{
    let mut counts: BTreeMap<Card, usize> = BTreeMap::new();
    let mut i: usize = 0;
    while i < high_cards.len()
        invariant
            0 <= i <= high_cards@.len(),
            forall|card: Card| #[trigger]
                counts@.contains_key(card) <==> occurrences(high_cards@.take(i as int), card) > 0,
            forall|card: Card| #[trigger]
                counts@.contains_key(card) ==> counts@[card] == occurrences(
                    high_cards@.take(i as int),
                    card,
                ),
        decreases high_cards@.len() - i,
    {
        let card = high_cards[i];
        let ghost before = high_cards@.take(i as int);
        let ghost after = high_cards@.take(i + 1);
        proof {
            assert(after.drop_last() =~= before);
            lemma_occurrences_bound(before, card);
        }
        let current: usize = match counts.get(&card) {
            Some(count) => *count,
            None => 0,
        };
        counts.insert(card, current + 1);
        proof {
            assert forall|c: Card| #[trigger] counts@.contains_key(c) <==> occurrences(after, c) > 0 by {
                assert(after.drop_last() =~= before);
            }
            assert forall|c: Card| #[trigger] counts@.contains_key(c) implies counts@[c] == occurrences(
                after,
                c,
            ) by {
                assert(after.drop_last() =~= before);
            }
        }
        i = i + 1;
    }
    proof {
        assert(high_cards@.take(high_cards@.len() as int) =~= high_cards@);
    }
    counts
}

/// How many threads an optimizing run uses, how many generations it may take,
/// and after how many generations without progress it stops.
#[derive(Clone, Copy, Debug, PartialEq, Eq, Structural)]
pub struct RunLimits {
    pub threads: usize,
    pub max_generations: usize,
    pub tol_stagnation: usize,
}

/// The limits of an optimizing run: a profiling run uses one thread and three
/// generations; otherwise every physical core, capped by `max_threads` when
/// that is not 0, and 10 generations per feature for a rough run, 25 for a
/// full one. A rough run stops after half as many stagnant generations as
/// there are features, at least 15; a full one after as many as there are
/// features, at least 30.
pub open spec fn run_limits_spec(
    physical_cores: usize,
    max_threads: usize,
    algos_count: usize,
    profiling: bool,
    rough: bool,
) -> RunLimits {
    let cores = if profiling {
        1
    } else {
        physical_cores
    };
    RunLimits {
        threads: if max_threads > 0 && max_threads < cores {
            max_threads
        } else {
            cores
        },
        max_generations: if profiling {
            3
        } else if rough {
            (algos_count * 10) as usize
        } else {
            (algos_count * 25) as usize
        },
        tol_stagnation: if rough {
            if algos_count / 2 > 15 {
                algos_count / 2
            } else {
                15
            }
        } else {
            if algos_count > 30 {
                algos_count
            } else {
                30
            }
        },
    }
}

/// What the limits of a run are for: a profiling run uses one thread and
/// three generations, whatever else is asked; otherwise the run uses the
/// physical cores, never more than a cap that is not 0, and takes 10
/// generations per feature when rough and 25 when not; it stops after at least
/// 15 (rough) or 30 stagnant generations, and never fewer than half the
/// features (rough) or all of them.
pub open spec fn limits_follow_the_mode(
    limits: RunLimits,
    physical_cores: usize,
    max_threads: usize,
    algos_count: usize,
    profiling: bool,
    rough: bool,
) -> bool {
    &&& profiling ==> limits.threads == 1 && limits.max_generations == 3
    &&& !profiling ==> limits.threads <= physical_cores
    &&& !profiling && max_threads > 0 ==> limits.threads <= max_threads
    &&& !profiling ==> limits.threads == physical_cores || limits.threads == max_threads
    &&& !profiling && rough ==> limits.max_generations == 10 * algos_count
    &&& !profiling && !rough ==> limits.max_generations == 25 * algos_count
    &&& rough ==> limits.tol_stagnation >= 15 && limits.tol_stagnation >= algos_count / 2
    &&& rough ==> limits.tol_stagnation == 15 || limits.tol_stagnation == algos_count / 2
    &&& !rough ==> limits.tol_stagnation >= 30 && limits.tol_stagnation >= algos_count
    &&& !rough ==> limits.tol_stagnation == 30 || limits.tol_stagnation == algos_count
}

/// The limits of every run follow its mode: a profiling run is one thread and
/// three generations even when it is also rough, and the other runs take
/// their generations per feature and their threads from the cores and the cap.
pub proof fn law_run_limits_follow_the_mode(
    physical_cores: usize,
    max_threads: usize,
    algos_count: usize,
    profiling: bool,
    rough: bool,
)
    requires
        algos_count * 25 <= usize::MAX,
    ensures
        limits_follow_the_mode(
            run_limits_spec(physical_cores, max_threads, algos_count, profiling, rough),
            physical_cores,
            max_threads,
            algos_count,
            profiling,
            rough,
        ),
{
}

/// The limits of an optimizing run on a machine with `physical_cores`.
pub fn run_limits(
    physical_cores: usize,
    max_threads: usize,
    algos_count: usize,
    profiling: bool,
    rough: bool,
) -> (limits: RunLimits)
    requires
        algos_count * 25 <= usize::MAX,
    ensures
        limits == run_limits_spec(physical_cores, max_threads, algos_count, profiling, rough),
        limits_follow_the_mode(limits, physical_cores, max_threads, algos_count, profiling, rough),
{
    let mut threads = if profiling {
        1
    } else {
        physical_cores
    };
    if max_threads > 0 && max_threads < threads {
        threads = max_threads;
    }

    let max_generations = if profiling {
        3
    } else if rough {
        algos_count * 10
    } else {
        algos_count * 25
    };

    let tol_stagnation = if rough {
        if algos_count / 2 > 15 {
            algos_count / 2
        } else {
            15
        }
    } else {
        if algos_count > 30 {
            algos_count
        } else {
            30
        }
    };

    RunLimits { threads, max_generations, tol_stagnation }
}

} // verus!
