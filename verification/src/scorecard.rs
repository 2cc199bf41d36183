//! The scorecard domain model: a fixed hole-to-par layout, a growing
//! hole-to-score map, and completion/total statistics derived from them.

use vstd::prelude::*;
use std::collections::BTreeMap;
use crate::error::GolfError;
use crate::validators::{
    hole_number_ok,
    par_ok,
    score_ok,
    validate_hole_number,
    validate_par,
    validate_score,
};
use crate::clock::fresh_id;

verus! {

/// Mathematical snapshot of a scorecard: the identifiers, the hole count,
/// and the two hole-keyed maps.
pub struct ScorecardView {
    pub round_id: u128,
    pub player_id: u128,
    pub max_holes: u8,
    pub scores: Map<u8, u8>,
    pub pars: Map<u8, u8>,
}

/// The per-hole stroke record for one round. The par layout is fixed at
/// construction; scores grow one validated entry at a time.
#[derive(Debug, Clone, PartialEq, Eq)]
pub struct Scorecard {
    pub round_id: u128,
    pub player_id: u128,
    pub max_holes: u8,
    scores: BTreeMap<u8, u8>,
    pars: BTreeMap<u8, u8>,
}

impl View for Scorecard {
    type V = ScorecardView;

    closed spec fn view(&self) -> ScorecardView {
        ScorecardView {
            round_id: self.round_id,
            player_id: self.player_id,
            max_holes: self.max_holes,
            scores: self.scores@,
            pars: self.pars@,
        }
    }
}

/// Well-formedness: every par entry was validated at construction, and
/// every score entry was validated against an existing par at insertion.
pub open spec fn wf_view(v: ScorecardView) -> bool {
    &&& forall|h: u8|
        #[trigger] v.pars.contains_key(h) ==> hole_number_ok(h, v.max_holes) && par_ok(v.pars[h])
    &&& forall|h: u8|
        #[trigger] v.scores.contains_key(h) ==> v.pars.contains_key(h) && score_ok(v.scores[h])
}

/// A scorecard is complete when the number of distinct scored holes equals
/// its hole count. Always derived from the score map, never cached.
pub open spec fn complete_view(v: ScorecardView) -> bool {
    v.scores.dom().len() == v.max_holes as nat
}

/// Sum of the entries of a hole-keyed map over holes 1..=h; absent holes
/// contribute nothing.
pub open spec fn map_range_sum(m: Map<u8, u8>, h: int) -> int
    decreases h,
{
    if h <= 0 {
        0
    } else {
        map_range_sum(m, h - 1) + (if m.contains_key(h as u8) {
            m[h as u8] as int
        } else {
            0
        })
    }
}

/// Total strokes of a scorecard: the sum of its recorded scores.
pub open spec fn total_strokes_view(v: ScorecardView) -> int {
    map_range_sum(v.scores, v.max_holes as int)
}

/// Signed difference between total strokes and total par.
pub open spec fn relative_to_par_view(v: ScorecardView) -> int {
    total_strokes_view(v) - map_range_sum(v.pars, v.max_holes as int)
}

/// Walks the possible hole numbers upward from `h` and reports the error
/// for the first layout entry (in ascending hole order) that violates a
/// bound, or nothing when every entry from `h` on is acceptable.
pub open spec fn layout_scan(pars: Map<u8, u8>, max_holes: u8, h: int) -> Option<GolfError>
    decreases 256 - h,
{
    if h < 0 || h >= 256 {
        None
    } else if pars.contains_key(h as u8) && !hole_number_ok(h as u8, max_holes) {
        Some(GolfError::InvalidHole { hole: h as u8, max_holes })
    } else if pars.contains_key(h as u8) && !par_ok(pars[h as u8]) {
        Some(GolfError::InvalidPar(pars[h as u8]))
    } else {
        layout_scan(pars, max_holes, h + 1)
    }
}

proof fn lemma_layout_scan_none_from(pars: Map<u8, u8>, max_holes: u8, h: int)
    requires
        0 <= h <= 256,
    ensures
        layout_scan(pars, max_holes, h) is None <==> (forall|k: u8|
            h <= k && #[trigger] pars.contains_key(k) ==> hole_number_ok(k, max_holes) && par_ok(
                pars[k],
            )),
    decreases 256 - h,
{
    if h < 256 {
        lemma_layout_scan_none_from(pars, max_holes, h + 1);
        let hk = h as u8;
        if pars.contains_key(hk) && !(hole_number_ok(hk, max_holes) && par_ok(pars[hk])) {
            assert(layout_scan(pars, max_holes, h) is Some);
        } else {
            assert(layout_scan(pars, max_holes, h) == layout_scan(pars, max_holes, h + 1));
            if layout_scan(pars, max_holes, h + 1) is None {
                assert forall|k: u8|
                    h <= k && #[trigger] pars.contains_key(k) implies hole_number_ok(k, max_holes)
                    && par_ok(pars[k]) by {
                    if k != hk {
                        assert(h + 1 <= k);
                    }
                }
            }
        }
    }
}

/// A par layout passes the scan exactly when every one of its entries has
/// an in-range hole number and an acceptable par.
pub proof fn lemma_layout_scan_characterizes(pars: Map<u8, u8>, max_holes: u8)
    ensures
        layout_scan(pars, max_holes, 0) is None <==> (forall|k: u8|
            #[trigger] pars.contains_key(k) ==> hole_number_ok(k, max_holes) && par_ok(pars[k])),
{
    lemma_layout_scan_none_from(pars, max_holes, 0);
}

/// Walks the possible hole numbers upward from `h` and reports the
/// first score entry (in ascending hole order) that a fresh card would
/// not have accepted through recording, or nothing when every entry
/// from `h` on is acceptable against the layout.
pub open spec fn first_bad_score_hole(
    scores: Map<u8, u8>,
    pars: Map<u8, u8>,
    max_holes: u8,
    h: int,
) -> Option<u8>
    decreases 256 - h,
{
    if h < 0 || h >= 256 {
        None
    } else if scores.contains_key(h as u8) && !score_entry_ok(scores, pars, max_holes, h as u8) {
        Some(h as u8)
    } else {
        first_bad_score_hole(scores, pars, max_holes, h + 1)
    }
}

/// A recorded score is acceptable when its hole is in range, the layout
/// knows the hole, and the stroke count is in range.
pub open spec fn score_entry_ok(scores: Map<u8, u8>, pars: Map<u8, u8>, max_holes: u8, k: u8) -> bool {
    hole_number_ok(k, max_holes) && pars.contains_key(k) && score_ok(scores[k])
}

proof fn lemma_scores_scan_none_from(scores: Map<u8, u8>, pars: Map<u8, u8>, max_holes: u8, h: int)
    requires
        0 <= h <= 256,
    ensures
        first_bad_score_hole(scores, pars, max_holes, h) is None <==> (forall|k: u8|
            h <= k && #[trigger] scores.contains_key(k) ==> score_entry_ok(
                scores,
                pars,
                max_holes,
                k,
            )),
    decreases 256 - h,
{
    if h < 256 {
        lemma_scores_scan_none_from(scores, pars, max_holes, h + 1);
        let hk = h as u8;
        if scores.contains_key(hk) && !score_entry_ok(scores, pars, max_holes, hk) {
            assert(first_bad_score_hole(scores, pars, max_holes, h) is Some);
        } else {
            assert(first_bad_score_hole(scores, pars, max_holes, h) == first_bad_score_hole(
                scores,
                pars,
                max_holes,
                h + 1,
            ));
            if first_bad_score_hole(scores, pars, max_holes, h + 1) is None {
                assert forall|k: u8|
                    h <= k && #[trigger] scores.contains_key(k) implies score_entry_ok(
                    scores,
                    pars,
                    max_holes,
                    k,
                ) by {
                    if k != hk {
                        assert(h + 1 <= k);
                    }
                }
            }
        }
    }
}

/// A score map passes the scan against a layout exactly when each of its
/// entries lies on a known hole of the card with an acceptable count.
pub proof fn lemma_scores_scan_characterizes(scores: Map<u8, u8>, pars: Map<u8, u8>, max_holes: u8)
    ensures
        first_bad_score_hole(scores, pars, max_holes, 0) is None <==> (forall|k: u8|
            #[trigger] scores.contains_key(k) ==> score_entry_ok(scores, pars, max_holes, k)),
{
    lemma_scores_scan_none_from(scores, pars, max_holes, 0);
}

/// Recording the same (hole, strokes) pair twice leaves the same score map
/// as recording it once.
pub proof fn lemma_record_score_idempotent(scores: Map<u8, u8>, hole: u8, strokes: u8)
    ensures
        scores.insert(hole, strokes).insert(hole, strokes) == scores.insert(hole, strokes),
{
    assert(scores.insert(hole, strokes).insert(hole, strokes) =~= scores.insert(hole, strokes));
}

impl Scorecard {
    /// Every method of this type both assumes and preserves this predicate.
    pub open spec fn wf(&self) -> bool {
        wf_view(self@)
    }

    /// Builds a card over the given immutable par layout, rejecting the
    /// first layout entry (in ascending hole order) that violates a bound.
    /// On success the card carries a fresh random round identifier and an
    /// empty score map.
    pub fn new(player_id: u128, max_holes: u8, pars: BTreeMap<u8, u8>) -> (r: Result<
        Scorecard,
        GolfError,
    >)
        ensures
            r is Ok <==> layout_scan(pars@, max_holes, 0) is None,
            match r {
                Ok(sc) => {
                    &&& sc@.player_id == player_id
                    &&& sc@.max_holes == max_holes
                    &&& sc@.pars == pars@
                    &&& sc@.scores == Map::<u8, u8>::empty()
                    &&& sc.wf()
                },
                Err(e) => layout_scan(pars@, max_holes, 0) == Some(e),
            },
    {
        let mut h: u16 = 0;
        while h < 256
            invariant
                h <= 256,
                layout_scan(pars@, max_holes, 0) == layout_scan(pars@, max_holes, h as int),
            decreases 256 - h,
        {
            let hole = h as u8;
            match pars.get(&hole) {
                Some(p) => {
                    let to_par = *p;
                    match validate_hole_number(hole, max_holes) {
                        Ok(()) => (),
                        Err(e) => {
                            return Err(e);
                        },
                    }
                    match validate_par(to_par) {
                        Ok(()) => (),
                        Err(e) => {
                            return Err(e);
                        },
                    }
                },
                None => (),
            }
            h = h + 1;
        }
        proof {
            assert(layout_scan(pars@, max_holes, 256) is None);
            lemma_layout_scan_characterizes(pars@, max_holes);
        }
        Ok(Scorecard {
            round_id: fresh_id(),
            player_id,
            max_holes,
            scores: BTreeMap::new(),
            pars,
        })
    }

    /// Rebuilds a card from persisted parts under its original round
    /// identifier: the layout is validated as at construction, and every
    /// score entry as at recording, reporting the first violation in
    /// ascending hole order (layout first).
    pub fn from_parts(
        round_id: u128,
        player_id: u128,
        max_holes: u8,
        pars: BTreeMap<u8, u8>,
        scores: BTreeMap<u8, u8>,
    ) -> (r: Result<Scorecard, GolfError>)
        ensures
            r is Ok <==> layout_scan(pars@, max_holes, 0) is None && first_bad_score_hole(
                scores@,
                pars@,
                max_holes,
                0,
            ) is None,
            match r {
                Ok(sc) => {
                    &&& sc@.round_id == round_id
                    &&& sc@.player_id == player_id
                    &&& sc@.max_holes == max_holes
                    &&& sc@.pars == pars@
                    &&& sc@.scores == scores@
                    &&& sc.wf()
                },
                Err(e) => if layout_scan(pars@, max_holes, 0) is Some {
                    layout_scan(pars@, max_holes, 0) == Some(e)
                } else {
                    first_bad_score_hole(scores@, pars@, max_holes, 0) matches Some(k) && {
                        if !hole_number_ok(k, max_holes) {
                            e == (GolfError::InvalidHole { hole: k, max_holes })
                        } else if !pars@.contains_key(k) {
                            e matches GolfError::Custom(m) && m@
                                == "unknown hole for this card"@
                        } else {
                            e == (GolfError::InvalidScore {
                                score: scores@[k] as i32,
                                hole: k,
                                par: pars@[k],
                            })
                        }
                    }
                },
            },
    {
        let mut h: u16 = 0;
        while h < 256
            invariant
                h <= 256,
                layout_scan(pars@, max_holes, 0) == layout_scan(pars@, max_holes, h as int),
            decreases 256 - h,
        {
            let hole = h as u8;
            match pars.get(&hole) {
                Some(p) => {
                    let to_par = *p;
                    match validate_hole_number(hole, max_holes) {
                        Ok(()) => (),
                        Err(e) => {
                            return Err(e);
                        },
                    }
                    match validate_par(to_par) {
                        Ok(()) => (),
                        Err(e) => {
                            return Err(e);
                        },
                    }
                },
                None => (),
            }
            h = h + 1;
        }
        let mut h: u16 = 0;
        while h < 256
            invariant
                h <= 256,
                layout_scan(pars@, max_holes, 0) is None,
                first_bad_score_hole(scores@, pars@, max_holes, 0) == first_bad_score_hole(
                    scores@,
                    pars@,
                    max_holes,
                    h as int,
                ),
            decreases 256 - h,
        {
            let hole = h as u8;
            match scores.get(&hole) {
                Some(sv) => {
                    let strokes = *sv;
                    match validate_hole_number(hole, max_holes) {
                        Ok(()) => (),
                        Err(e) => {
                            return Err(e);
                        },
                    }
                    let par = match pars.get(&hole) {
                        Some(p) => *p,
                        None => {
                            return Err(
                                GolfError::Custom("unknown hole for this card".to_owned()),
                            );
                        },
                    };
                    match validate_score(strokes, hole, par) {
                        Ok(()) => (),
                        Err(e) => {
                            return Err(e);
                        },
                    }
                },
                None => (),
            }
            h = h + 1;
        }
        proof {
            assert(layout_scan(pars@, max_holes, 256) is None);
            assert(first_bad_score_hole(scores@, pars@, max_holes, 256) is None);
            lemma_layout_scan_characterizes(pars@, max_holes);
            lemma_scores_scan_characterizes(scores@, pars@, max_holes);
        }
        Ok(Scorecard { round_id, player_id, max_holes, scores, pars })
    }

    /// Validates the hole against the card's hole count and the strokes
    /// against the accepted range, then inserts or overwrites the score
    /// for that hole. A hole that has no par on this card is rejected
    /// with a defensive "unknown hole" error. Validation failures leave
    /// the card unchanged.
    pub fn record_score(&mut self, hole: u8, strokes: u8) -> (r: Result<(), GolfError>)
        requires
            old(self).wf(),
        ensures
            final(self).wf(),
            final(self)@.round_id == old(self)@.round_id,
            final(self)@.player_id == old(self)@.player_id,
            final(self)@.max_holes == old(self)@.max_holes,
            final(self)@.pars == old(self)@.pars,
            match r {
                Ok(()) => {
                    &&& hole_number_ok(hole, old(self)@.max_holes)
                    &&& old(self)@.pars.contains_key(hole)
                    &&& score_ok(strokes)
                    &&& final(self)@.scores == old(self)@.scores.insert(hole, strokes)
                },
                Err(e) => {
                    &&& *final(self) == *old(self)
                    &&& if !hole_number_ok(hole, old(self)@.max_holes) {
                        e == (GolfError::InvalidHole { hole, max_holes: old(self)@.max_holes })
                    } else if !old(self)@.pars.contains_key(hole) {
                        e matches GolfError::Custom(m) && m@ == "unknown hole for this card"@
                    } else {
                        &&& !score_ok(strokes)
                        &&& e == (GolfError::InvalidScore {
                            score: strokes as i32,
                            hole,
                            par: old(self)@.pars[hole],
                        })
                    }
                },
            },
    {
        match validate_hole_number(hole, self.max_holes) {
            Ok(()) => (),
            Err(e) => {
                return Err(e);
            },
        }
        let par = match self.pars.get(&hole) {
            Some(p) => *p,
            None => {
                return Err(GolfError::Custom("unknown hole for this card".to_owned()));
            },
        };
        match validate_score(strokes, hole, par) {
            Ok(()) => (),
            Err(e) => {
                return Err(e);
            },
        }
        self.scores.insert(hole, strokes);
        proof {
            assert(self@.scores == old(self)@.scores.insert(hole, strokes));
            assert forall|k: u8| #[trigger] self@.scores.contains_key(k) implies self@.pars.contains_key(
                k,
            ) && score_ok(self@.scores[k]) by {
                if k != hole {
                    assert(old(self)@.scores.contains_key(k));
                    assert(self@.scores[k] == old(self)@.scores[k]);
                }
            }
        }
        Ok(())
    }

    /// The par for a hole, when this card's layout has one.
    pub fn get_par(&self, hole: u8) -> (r: Option<u8>)
        ensures
            r == if self@.pars.contains_key(hole) {
                Some(self@.pars[hole])
            } else {
                Option::<u8>::None
            },
    {
        match self.pars.get(&hole) {
            Some(p) => Some(*p),
            None => None,
        }
    }

    /// The recorded score for a hole, when one has been recorded.
    pub fn get_score(&self, hole: u8) -> (r: Option<u8>)
        ensures
            r == if self@.scores.contains_key(hole) {
                Some(self@.scores[hole])
            } else {
                Option::<u8>::None
            },
    {
        match self.scores.get(&hole) {
            Some(s) => Some(*s),
            None => None,
        }
    }

    /// True exactly when the number of distinct scored holes equals the
    /// card's hole count.
    pub fn is_complete(&self) -> (r: bool)
        ensures
            r == complete_view(self@),
    {
        self.scores.len() == self.max_holes as usize
    }

    /// The sum of all recorded strokes; defined exactly when the card is
    /// complete.
    pub fn total_strokes(&self) -> (r: Option<u16>)
        requires
            self.wf(),
        ensures
            r is Some <==> complete_view(self@),
            r matches Some(t) ==> t as int == total_strokes_view(self@),
    {
        if !self.is_complete() {
            return None;
        }
        Some(self.sum_scores())
    }

    /// The signed difference between total strokes and total par across
    /// all holes; defined exactly when the card is complete. Negative
    /// means under par.
    pub fn score_relative_to_par(&self) -> (r: Option<i16>)
        requires
            self.wf(),
        ensures
            r is Some <==> complete_view(self@),
            r matches Some(d) ==> d as int == relative_to_par_view(self@),
    {
        if !self.is_complete() {
            return None;
        }
        let total_strokes = self.sum_scores();
        let total_par = self.sum_pars();
        let diff: i32 = total_strokes as i32 - total_par as i32;
        proof {
            assert(total_par as int <= 5 * 255) by {
                self.lemma_sum_pars_bound();
            }
        }
        Some(diff as i16)
    }

    fn sum_scores(&self) -> (sum: u16)
        requires
            self.wf(),
        ensures
            sum as int == map_range_sum(self@.scores, self.max_holes as int),
            sum <= 15 * (self.max_holes as int),
    {
        let mut sum: u16 = 0;
        let mut h: u16 = 1;
        while h <= self.max_holes as u16
            invariant
                self.wf(),
                1 <= h <= self.max_holes as u16 + 1,
                sum as int == map_range_sum(self@.scores, h as int - 1),
                sum <= 15 * (h as int - 1),
            decreases self.max_holes as int + 1 - h,
        {
            match self.scores.get(&(h as u8)) {
                Some(s) => {
                    sum = sum + *s as u16;
                },
                None => (),
            }
            h = h + 1;
        }
        sum
    }

    fn sum_pars(&self) -> (sum: u16)
        requires
            self.wf(),
        ensures
            sum as int == map_range_sum(self@.pars, self.max_holes as int),
            sum <= 5 * (self.max_holes as int),
    {
        let mut sum: u16 = 0;
        let mut h: u16 = 1;
        while h <= self.max_holes as u16
            invariant
                self.wf(),
                1 <= h <= self.max_holes as u16 + 1,
                sum as int == map_range_sum(self@.pars, h as int - 1),
                sum <= 5 * (h as int - 1),
            decreases self.max_holes as int + 1 - h,
        {
            match self.pars.get(&(h as u8)) {
                Some(p) => {
                    sum = sum + *p as u16;
                },
                None => (),
            }
            h = h + 1;
        }
        sum
    }

    proof fn lemma_sum_pars_bound(&self)
        requires
            self.wf(),
        ensures
            map_range_sum(self@.pars, self.max_holes as int) <= 5 * (self.max_holes as int),
            map_range_sum(self@.scores, self.max_holes as int) <= 15 * (self.max_holes as int),
    {
        lemma_map_range_sum_bounded(self@.pars, self.max_holes as int, 5);
        lemma_map_range_sum_bounded(self@.scores, self.max_holes as int, 15);
    }

    /// The card's hole count.
    pub fn hole_count(&self) -> (r: u8)
        ensures
            r == self@.max_holes,
    {
        self.max_holes
    }

    /// The card's round identifier.
    pub fn round_key(&self) -> (r: u128)
        ensures
            r == self@.round_id,
    {
        self.round_id
    }

    /// The identifier of the player who played the round.
    pub fn player_key(&self) -> (r: u128)
        ensures
            r == self@.player_id,
    {
        self.player_id
    }

    /// A structurally fresh copy whose snapshot equals this card's.
    pub fn duplicate(&self) -> (r: Scorecard)
        ensures
            r@ == self@,
    {
        Scorecard {
            round_id: self.round_id,
            player_id: self.player_id,
            max_holes: self.max_holes,
            scores: self.scores.clone(),
            pars: self.pars.clone(),
        }
    }
}

proof fn lemma_map_range_sum_bounded(m: Map<u8, u8>, h: int, bound: int)
    requires
        forall|k: u8| m.contains_key(k) ==> #[trigger] m[k] <= bound,
        0 <= bound,
    ensures
        0 <= map_range_sum(m, h) <= bound * (if h < 0 {
            0
        } else {
            h
        }),
    decreases h,
{
    if h > 0 {
        lemma_map_range_sum_bounded(m, h - 1, bound);
        assert(bound * h == bound * (h - 1) + bound) by (nonlinear_arith);
    }
}

/// On a well-formed card the total strokes and the total par are bounded
/// by the per-hole maxima, so the relative-to-par difference is bounded
/// too.
pub proof fn lemma_total_bounds(v: ScorecardView)
    requires
        wf_view(v),
    ensures
        0 <= total_strokes_view(v) <= 15 * (v.max_holes as int),
        0 <= map_range_sum(v.pars, v.max_holes as int) <= 5 * (v.max_holes as int),
        -5 * (v.max_holes as int) <= relative_to_par_view(v) <= 15 * (v.max_holes as int),
{
    lemma_map_range_sum_bounded(v.scores, v.max_holes as int, 15);
    lemma_map_range_sum_bounded(v.pars, v.max_holes as int, 5);
}

/// A complete card never becomes incomplete: recording any further
/// in-range score overwrites an existing entry, so the set of scored
/// holes, and with it completeness, is unchanged.
pub proof fn lemma_complete_is_stable(v: ScorecardView, hole: u8, strokes: u8)
    requires
        wf_view(v),
        complete_view(v),
        hole_number_ok(hole, v.max_holes),
    ensures
        v.scores.insert(hole, strokes).dom() == v.scores.dom(),
        complete_view(
            ScorecardView { scores: v.scores.insert(hole, strokes), ..v },
        ),
{
    lemma_complete_means_every_hole_scored(v);
    assert(v.scores.dom().contains(hole));
    assert(v.scores.insert(hole, strokes).dom() =~= v.scores.dom());
}

/// The set of hole numbers of a card with `max_holes` holes.
pub open spec fn hole_range(max_holes: u8) -> Set<u8> {
    Set::new(|h: u8| 1 <= h <= max_holes)
}

proof fn lemma_hole_range_card(max_holes: u8)
    ensures
        hole_range(max_holes).finite(),
        hole_range(max_holes).len() == max_holes as nat,
    decreases max_holes,
{
    if max_holes == 0 {
        assert(hole_range(0) =~= Set::<u8>::empty());
    } else {
        lemma_hole_range_card((max_holes - 1) as u8);
        assert(hole_range(max_holes) =~= hole_range((max_holes - 1) as u8).insert(max_holes));
        assert(!hole_range((max_holes - 1) as u8).contains(max_holes));
    }
}

/// On a well-formed card, completeness means every hole in 1..=max_holes
/// carries a recorded score: the count of distinct scored holes can reach
/// `max_holes` in no other way.
pub proof fn lemma_complete_means_every_hole_scored(v: ScorecardView)
    requires
        wf_view(v),
        complete_view(v),
    ensures
        forall|h: u8| 1 <= h <= v.max_holes ==> v.scores.dom().contains(h),
{
    lemma_hole_range_card(v.max_holes);
    assert forall|h: u8| v.scores.dom().contains(h) implies hole_range(v.max_holes).contains(
        h,
    ) by {
        assert(v.scores.contains_key(h));
    }
    assert(v.scores.dom().subset_of(hole_range(v.max_holes)));
    assert forall|h: u8| 1 <= h <= v.max_holes implies v.scores.dom().contains(h) by {
        if !v.scores.dom().contains(h) {
            let smaller = hole_range(v.max_holes).remove(h);
            assert(v.scores.dom().subset_of(smaller));
            vstd::set_lib::lemma_len_subset(v.scores.dom(), smaller);
            assert(smaller.len() == v.max_holes as nat - 1);
        }
    }
}

} // verus!
