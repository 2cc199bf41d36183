//! Stateless aggregation of summary statistics over a snapshot of
//! scorecards: round counts, exact score sums for averaging, best and
//! worst totals, cumulative under/over par, and per-hole classification.

use vstd::prelude::*;
use crate::scorecard::{
    Scorecard,
    ScorecardView,
    complete_view,
    total_strokes_view,
    relative_to_par_view,
    lemma_total_bounds,
};

verus! {

/// Both a score and a par are known for this hole of this card.
pub open spec fn scored_pair(v: ScorecardView, h: u8) -> bool {
    v.scores.contains_key(h) && v.pars.contains_key(h)
}

/// Strokes minus par for a hole of a card.
pub open spec fn hole_diff(v: ScorecardView, h: u8) -> int {
    v.scores[h] - v.pars[h]
}

/// The classification of a strokes-minus-par difference: eagle-or-better,
/// birdie, par, bogey, double-bogey-or-worse, numbered 0 through 4 in
/// that order.
pub open spec fn class_of(d: int) -> int {
    if d <= -2 {
        0
    } else if d == -1 {
        1
    } else if d == 0 {
        2
    } else if d == 1 {
        3
    } else {
        4
    }
}

/// How many holes in 1..=h of this card carry a scored pair whose
/// difference falls in class `c`.
pub open spec fn class_count_to(v: ScorecardView, c: int, h: int) -> int
    decreases h,
{
    if h <= 0 {
        0
    } else {
        class_count_to(v, c, h - 1) + (if scored_pair(v, h as u8) && class_of(
            hole_diff(v, h as u8),
        ) == c {
            1int
        } else {
            0int
        })
    }
}

/// How many holes in 1..=h of this card carry a scored pair at all.
pub open spec fn pairs_count_to(v: ScorecardView, h: int) -> int
    decreases h,
{
    if h <= 0 {
        0
    } else {
        pairs_count_to(v, h - 1) + (if scored_pair(v, h as u8) {
            1int
        } else {
            0int
        })
    }
}

/// Number of complete cards in the snapshot.
pub open spec fn completed_count(s: Seq<Scorecard>) -> int
    decreases s.len(),
{
    if s.len() == 0 {
        0
    } else {
        completed_count(s.drop_last()) + (if complete_view(s.last()@) {
            1int
        } else {
            0int
        })
    }
}

/// Exact sum of total strokes over the complete cards; together with
/// `completed_count` it determines the arithmetic mean exactly.
pub open spec fn completed_total_sum(s: Seq<Scorecard>) -> int
    decreases s.len(),
{
    if s.len() == 0 {
        0
    } else {
        completed_total_sum(s.drop_last()) + (if complete_view(s.last()@) {
            total_strokes_view(s.last()@)
        } else {
            0int
        })
    }
}

/// Sum of the negative relative-to-par values over the complete cards.
pub open spec fn under_par_sum(s: Seq<Scorecard>) -> int
    decreases s.len(),
{
    if s.len() == 0 {
        0
    } else {
        under_par_sum(s.drop_last()) + (if complete_view(s.last()@) && relative_to_par_view(
            s.last()@,
        ) < 0 {
            relative_to_par_view(s.last()@)
        } else {
            0int
        })
    }
}

/// Sum of the positive relative-to-par values over the complete cards.
pub open spec fn over_par_sum(s: Seq<Scorecard>) -> int
    decreases s.len(),
{
    if s.len() == 0 {
        0
    } else {
        over_par_sum(s.drop_last()) + (if complete_view(s.last()@) && relative_to_par_view(
            s.last()@,
        ) > 0 {
            relative_to_par_view(s.last()@)
        } else {
            0int
        })
    }
}

/// The lowest total strokes over the complete cards, when any exist.
pub open spec fn best_total(s: Seq<Scorecard>) -> Option<int>
    decreases s.len(),
{
    if s.len() == 0 {
        None
    } else {
        let pre = best_total(s.drop_last());
        if !complete_view(s.last()@) {
            pre
        } else {
            let t = total_strokes_view(s.last()@);
            match pre {
                None => Some(t),
                Some(m) => Some(
                    if t < m {
                        t
                    } else {
                        m
                    },
                ),
            }
        }
    }
}

/// The highest total strokes over the complete cards, when any exist.
pub open spec fn worst_total(s: Seq<Scorecard>) -> Option<int>
    decreases s.len(),
{
    if s.len() == 0 {
        None
    } else {
        let pre = worst_total(s.drop_last());
        if !complete_view(s.last()@) {
            pre
        } else {
            let t = total_strokes_view(s.last()@);
            match pre {
                None => Some(t),
                Some(m) => Some(
                    if t > m {
                        t
                    } else {
                        m
                    },
                ),
            }
        }
    }
}

/// Class-`c` hole count accumulated over every complete card.
pub open spec fn class_total(s: Seq<Scorecard>, c: int) -> int
    decreases s.len(),
{
    if s.len() == 0 {
        0
    } else {
        class_total(s.drop_last(), c) + (if complete_view(s.last()@) {
            class_count_to(s.last()@, c, s.last()@.max_holes as int)
        } else {
            0int
        })
    }
}

/// Scored-pair count accumulated over every complete card.
pub open spec fn scored_pairs_total(s: Seq<Scorecard>) -> int
    decreases s.len(),
{
    if s.len() == 0 {
        0
    } else {
        scored_pairs_total(s.drop_last()) + (if complete_view(s.last()@) {
            pairs_count_to(s.last()@, s.last()@.max_holes as int)
        } else {
            0int
        })
    }
}

/// Summary statistics derived from a snapshot of scorecards. The exact
/// score sum is kept beside the completed-round count so that the mean
/// can be formed without loss; incomplete rounds are counted in
/// `total_rounds` but excluded from every scoring figure.
#[derive(Debug, Clone, PartialEq, Eq)]
pub struct PlayerStatistics {
    /// Count of all input scorecards, complete or not.
    pub total_rounds: usize,
    /// Count of complete input scorecards.
    pub completed_rounds: usize,
    /// Exact sum of total strokes over complete cards; dividing by
    /// `completed_rounds` (when nonzero) gives the exact mean score.
    pub completed_score_sum: u64,
    /// Lowest total strokes among complete cards, if any.
    pub best_score: Option<u16>,
    /// Highest total strokes among complete cards, if any.
    pub worst_score: Option<u16>,
    /// Sum of all negative relative-to-par values (stays non-positive).
    pub total_under_par: i64,
    /// Sum of all positive relative-to-par values (stays non-negative).
    pub total_over_par: i64,
    /// Holes played two or more strokes under par.
    pub eagles: u64,
    /// Holes played one stroke under par.
    pub birdies: u64,
    /// Holes played at par.
    pub pars: u64,
    /// Holes played one stroke over par.
    pub bogeys: u64,
    /// Holes played two or more strokes over par.
    pub double_bogeys: u64,
}

impl PlayerStatistics {
    /// Aggregates a snapshot of scorecards into summary statistics. The
    /// input slice is never mutated and the result depends only on its
    /// contents.
    pub fn from_scorecards(scorecards: &[Scorecard]) -> (stats: PlayerStatistics)
        requires
            forall|i: int| 0 <= i < scorecards@.len() ==> (#[trigger] scorecards@[i]).wf(),
            scorecards@.len() * 3825 <= i64::MAX,
        ensures
            stats.total_rounds == scorecards@.len(),
            stats.completed_rounds == completed_count(scorecards@),
            stats.completed_score_sum == completed_total_sum(scorecards@),
            match stats.best_score {
                Some(b) => best_total(scorecards@) == Some(b as int),
                None => best_total(scorecards@) is None,
            },
            match stats.worst_score {
                Some(w) => worst_total(scorecards@) == Some(w as int),
                None => worst_total(scorecards@) is None,
            },
            stats.total_under_par == under_par_sum(scorecards@),
            stats.total_over_par == over_par_sum(scorecards@),
            stats.eagles == class_total(scorecards@, 0),
            stats.birdies == class_total(scorecards@, 1),
            stats.pars == class_total(scorecards@, 2),
            stats.bogeys == class_total(scorecards@, 3),
            stats.double_bogeys == class_total(scorecards@, 4),
    {
        let ghost s = scorecards@;
        let total_rounds = scorecards.len();
        let mut completed_rounds: usize = 0;
        let mut completed_score_sum: u64 = 0;
        let mut best_score: Option<u16> = None;
        let mut worst_score: Option<u16> = None;
        let mut total_under_par: i64 = 0;
        let mut total_over_par: i64 = 0;
        let mut eagles: u64 = 0;
        let mut birdies: u64 = 0;
        let mut pars: u64 = 0;
        let mut bogeys: u64 = 0;
        let mut double_bogeys: u64 = 0;

        let mut i: usize = 0;
        while i < total_rounds
            invariant
                total_rounds == s.len(),
                scorecards@ == s,
                0 <= i <= s.len(),
                forall|j: int| 0 <= j < s.len() ==> (#[trigger] s[j]).wf(),
                s.len() * 3825 <= i64::MAX,
                completed_rounds == completed_count(s.take(i as int)),
                completed_rounds <= i,
                completed_score_sum == completed_total_sum(s.take(i as int)),
                completed_score_sum <= 3825 * (i as int),
                match best_score {
                    Some(b) => best_total(s.take(i as int)) == Some(b as int),
                    None => best_total(s.take(i as int)) is None,
                },
                match worst_score {
                    Some(w) => worst_total(s.take(i as int)) == Some(w as int),
                    None => worst_total(s.take(i as int)) is None,
                },
                total_under_par == under_par_sum(s.take(i as int)),
                -3825 * (i as int) <= total_under_par <= 0,
                total_over_par == over_par_sum(s.take(i as int)),
                0 <= total_over_par <= 3825 * (i as int),
                eagles == class_total(s.take(i as int), 0),
                birdies == class_total(s.take(i as int), 1),
                pars == class_total(s.take(i as int), 2),
                bogeys == class_total(s.take(i as int), 3),
                double_bogeys == class_total(s.take(i as int), 4),
                eagles <= 255 * (i as int),
                birdies <= 255 * (i as int),
                pars <= 255 * (i as int),
                bogeys <= 255 * (i as int),
                double_bogeys <= 255 * (i as int),
            decreases s.len() - i,
        {
            let sc = &scorecards[i];
            proof {
                assert(s.take(i as int + 1).drop_last() =~= s.take(i as int));
                assert(s.take(i as int + 1).last() == s[i as int]);
                lemma_total_bounds(sc@);
                assert((i as int + 1) * 3825 <= s.len() * 3825) by (nonlinear_arith)
                    requires
                        i as int + 1 <= s.len(),
                ;
                assert(3825 * (i as int) + 3825 == 3825 * (i as int + 1)) by (nonlinear_arith);
                assert(255 * (i as int) + 255 == 255 * (i as int + 1)) by (nonlinear_arith);
            }
            if sc.is_complete() {
                completed_rounds = completed_rounds + 1;
                let total = match sc.total_strokes() {
                    Some(t) => t,
                    None => unreached(),
                };
                completed_score_sum = completed_score_sum + total as u64;
                best_score = match best_score {
                    None => Some(total),
                    Some(b) => Some(
                        if total < b {
                            total
                        } else {
                            b
                        },
                    ),
                };
                worst_score = match worst_score {
                    None => Some(total),
                    Some(w) => Some(
                        if total > w {
                            total
                        } else {
                            w
                        },
                    ),
                };
                let rel = match sc.score_relative_to_par() {
                    Some(d) => d,
                    None => unreached(),
                };
                if rel < 0 {
                    total_under_par = total_under_par + rel as i64;
                } else if rel > 0 {
                    total_over_par = total_over_par + rel as i64;
                }
                let (e, b, p, bo, d) = Self::classify_holes(sc);
                eagles = eagles + e as u64;
                birdies = birdies + b as u64;
                pars = pars + p as u64;
                bogeys = bogeys + bo as u64;
                double_bogeys = double_bogeys + d as u64;
            }
            i = i + 1;
        }
        proof {
            assert(s.take(s.len() as int) =~= s);
        }
        PlayerStatistics {
            total_rounds,
            completed_rounds,
            completed_score_sum,
            best_score,
            worst_score,
            total_under_par,
            total_over_par,
            eagles,
            birdies,
            pars,
            bogeys,
            double_bogeys,
        }
    }

    /// Counts this card's holes by classification: eagle-or-better,
    /// birdie, par, bogey, double-bogey-or-worse, in that order.
    fn classify_holes(sc: &Scorecard) -> (counts: (u16, u16, u16, u16, u16))
        requires
            sc.wf(),
        ensures
            counts.0 == class_count_to(sc@, 0, sc@.max_holes as int),
            counts.1 == class_count_to(sc@, 1, sc@.max_holes as int),
            counts.2 == class_count_to(sc@, 2, sc@.max_holes as int),
            counts.3 == class_count_to(sc@, 3, sc@.max_holes as int),
            counts.4 == class_count_to(sc@, 4, sc@.max_holes as int),
            counts.0 <= sc@.max_holes,
            counts.1 <= sc@.max_holes,
            counts.2 <= sc@.max_holes,
            counts.3 <= sc@.max_holes,
            counts.4 <= sc@.max_holes,
    {
        let mut eagles: u16 = 0;
        let mut birdies: u16 = 0;
        let mut pars: u16 = 0;
        let mut bogeys: u16 = 0;
        let mut double_bogeys: u16 = 0;
        let max_holes = sc.hole_count();
        let mut h: u16 = 1;
        while h <= max_holes as u16
            invariant
                sc.wf(),
                sc@.max_holes == max_holes,
                1 <= h <= max_holes as u16 + 1,
                eagles == class_count_to(sc@, 0, h as int - 1),
                birdies == class_count_to(sc@, 1, h as int - 1),
                pars == class_count_to(sc@, 2, h as int - 1),
                bogeys == class_count_to(sc@, 3, h as int - 1),
                double_bogeys == class_count_to(sc@, 4, h as int - 1),
                eagles <= h - 1,
                birdies <= h - 1,
                pars <= h - 1,
                bogeys <= h - 1,
                double_bogeys <= h - 1,
            decreases max_holes as int + 1 - h,
        {
            let hole = h as u8;
            match sc.get_score(hole) {
                Some(strokes) => {
                    match sc.get_par(hole) {
                        Some(par) => {
                            let difference = strokes as i16 - par as i16;
                            if difference <= -2 {
                                eagles = eagles + 1;
                            } else if difference == -1 {
                                birdies = birdies + 1;
                            } else if difference == 0 {
                                pars = pars + 1;
                            } else if difference == 1 {
                                bogeys = bogeys + 1;
                            } else {
                                double_bogeys = double_bogeys + 1;
                            }
                        },
                        None => (),
                    }
                },
                None => (),
            }
            h = h + 1;
        }
        (eagles, birdies, pars, bogeys, double_bogeys)
    }
}

proof fn lemma_card_partition(v: ScorecardView, h: int)
    ensures
        class_count_to(v, 0, h) + class_count_to(v, 1, h) + class_count_to(v, 2, h)
            + class_count_to(v, 3, h) + class_count_to(v, 4, h) == pairs_count_to(v, h),
    decreases h,
{
    if h > 0 {
        lemma_card_partition(v, h - 1);
    }
}

/// The five per-hole classification counts partition the scored holes:
/// summed together they equal exactly the number of (scorecard, hole)
/// pairs, over complete cards, where both a score and a par are known.
pub proof fn lemma_classification_partition(s: Seq<Scorecard>)
    ensures
        class_total(s, 0) + class_total(s, 1) + class_total(s, 2) + class_total(s, 3)
            + class_total(s, 4) == scored_pairs_total(s),
    decreases s.len(),
{
    if s.len() > 0 {
        lemma_classification_partition(s.drop_last());
        if complete_view(s.last()@) {
            lemma_card_partition(s.last()@, s.last()@.max_holes as int);
        }
    }
}

/// Never more completed rounds than rounds: the complete cards are a
/// subset of the snapshot.
pub proof fn lemma_completed_at_most_total(s: Seq<Scorecard>)
    ensures
        0 <= completed_count(s) <= s.len(),
    decreases s.len(),
{
    if s.len() > 0 {
        lemma_completed_at_most_total(s.drop_last());
    }
}

} // verus!
