//! The persistence contract for players and scorecards, an in-memory
//! adapter proved against it, and the file layout used by the on-disk
//! adapter.

use vstd::prelude::*;
use crate::digits::{dec_rep, u128_to_decimal};
use crate::error::GolfError;
use crate::player::Player;
use crate::scorecard::{Scorecard, ScorecardView};
use vstd::string::StringExecFns;

verus! {

/// The map that a sequence of records induces, keyed by `key`; a later
/// record with the same key shadows an earlier one.
pub open spec fn keyed_map<K, V>(s: Seq<V>, key: spec_fn(V) -> K) -> Map<K, V>
    decreases s.len(),
{
    if s.len() == 0 {
        Map::empty()
    } else {
        keyed_map(s.drop_last(), key).insert(key(s.last()), s.last())
    }
}

/// No two records of the sequence share a key.
pub open spec fn unique_keys<K, V>(s: Seq<V>, key: spec_fn(V) -> K) -> bool {
    forall|i: int, j: int|
        #![trigger key(s[i]), key(s[j])]
        0 <= i < j < s.len() ==> key(s[i]) != key(s[j])
}

/// The key that identifies a stored player.
pub open spec fn player_key_fn() -> spec_fn(Player) -> u128 {
    |p: Player| p.id
}

/// The key that identifies a stored scorecard snapshot.
pub open spec fn scorecard_key_fn() -> spec_fn(ScorecardView) -> u128 {
    |v: ScorecardView| v.round_id
}

proof fn lemma_keyed_map_contains<K, V>(s: Seq<V>, key: spec_fn(V) -> K)
    ensures
        forall|i: int| 0 <= i < s.len() ==> keyed_map(s, key).contains_key(key(#[trigger] s[i])),
        forall|k: K|
            keyed_map(s, key).contains_key(k) ==> exists|i: int|
                0 <= i < s.len() && key(#[trigger] s[i]) == k,
    decreases s.len(),
{
    if s.len() > 0 {
        lemma_keyed_map_contains(s.drop_last(), key);
        assert forall|i: int| 0 <= i < s.len() implies keyed_map(s, key).contains_key(
            key(#[trigger] s[i]),
        ) by {
            if i < s.len() - 1 {
                assert(s.drop_last()[i] == s[i]);
            }
        }
        assert(keyed_map(s, key) == keyed_map(s.drop_last(), key).insert(key(s.last()), s.last()));
        assert forall|k: K| keyed_map(s, key).contains_key(k) implies exists|i: int|
            0 <= i < s.len() && key(#[trigger] s[i]) == k by {
            if k == key(s.last()) {
                assert(key(s[s.len() - 1]) == k);
            } else {
                assert(keyed_map(s.drop_last(), key).contains_key(k));
                let i = choose|i: int|
                    0 <= i < s.drop_last().len() && key(#[trigger] s.drop_last()[i]) == k;
                assert(s.drop_last()[i] == s[i]);
                assert(key(s[i]) == k);
            }
        }
    }
}

proof fn lemma_keyed_map_pairs<K, V>(s: Seq<V>, key: spec_fn(V) -> K)
    requires
        unique_keys(s, key),
    ensures
        keyed_map(s, key).dom().finite(),
        keyed_map(s, key).len() == s.len(),
        forall|i: int|
            0 <= i < s.len() ==> keyed_map(s, key)[key(#[trigger] s[i])] == s[i],
    decreases s.len(),
{
    if s.len() == 0 {
        assert(keyed_map(s, key).dom() =~= Set::<K>::empty());
    }
    if s.len() > 0 {
        assert(unique_keys(s.drop_last(), key)) by {
            assert forall|i: int, j: int|
                #![trigger key(s.drop_last()[i]), key(s.drop_last()[j])]
                0 <= i < j < s.drop_last().len() implies key(s.drop_last()[i]) != key(
                s.drop_last()[j],
            ) by {
                assert(s.drop_last()[i] == s[i] && s.drop_last()[j] == s[j]);
            }
        }
        lemma_keyed_map_pairs(s.drop_last(), key);
        lemma_keyed_map_contains(s.drop_last(), key);
        assert(!keyed_map(s.drop_last(), key).contains_key(key(s.last()))) by {
            if keyed_map(s.drop_last(), key).contains_key(key(s.last())) {
                let i = choose|i: int|
                    0 <= i < s.drop_last().len() && key(#[trigger] s.drop_last()[i]) == key(
                        s.last(),
                    );
                assert(key(s[i]) == key(s[s.len() - 1]));
            }
        }
        assert forall|i: int| 0 <= i < s.len() implies keyed_map(s, key)[key(#[trigger] s[i])]
            == s[i] by {
            if i < s.len() - 1 {
                assert(s.drop_last()[i] == s[i]);
                assert(key(s[i]) != key(s[s.len() - 1]));
            }
        }
    }
}

proof fn lemma_keyed_map_push<K, V>(s: Seq<V>, key: spec_fn(V) -> K, v: V)
    ensures
        keyed_map(s.push(v), key) == keyed_map(s, key).insert(key(v), v),
{
    assert(s.push(v).drop_last() =~= s);
    assert(s.push(v).last() == v);
}

proof fn lemma_keyed_map_update<K, V>(s: Seq<V>, key: spec_fn(V) -> K, i: int, v: V)
    requires
        unique_keys(s, key),
        0 <= i < s.len(),
        key(s[i]) == key(v),
    ensures
        keyed_map(s.update(i, v), key) == keyed_map(s, key).insert(key(v), v),
    decreases s.len(),
{
    let t = s.update(i, v);
    if i == s.len() - 1 {
        assert(t.drop_last() =~= s.drop_last());
        assert(t.last() == v);
        assert(keyed_map(s, key).insert(key(v), v) =~= keyed_map(s.drop_last(), key).insert(
            key(v),
            v,
        ));
    } else {
        assert(unique_keys(s.drop_last(), key)) by {
            assert forall|a: int, b: int|
                #![trigger key(s.drop_last()[a]), key(s.drop_last()[b])]
                0 <= a < b < s.drop_last().len() implies key(s.drop_last()[a]) != key(
                s.drop_last()[b],
            ) by {
                assert(s.drop_last()[a] == s[a] && s.drop_last()[b] == s[b]);
            }
        }
        assert(s.drop_last()[i] == s[i]);
        lemma_keyed_map_update(s.drop_last(), key, i, v);
        assert(t.drop_last() =~= s.drop_last().update(i, v));
        assert(t.last() == s.last());
        assert(key(s[i]) != key(s[s.len() - 1]));
        assert(keyed_map(t, key) == keyed_map(s.drop_last(), key).insert(key(v), v).insert(
            key(s.last()),
            s.last(),
        ));
        assert(keyed_map(s.drop_last(), key).insert(key(v), v).insert(key(s.last()), s.last())
            =~= keyed_map(s.drop_last(), key).insert(key(s.last()), s.last()).insert(key(v), v));
    }
}

/// The storage contract: persisting and retrieving players and
/// scorecards. Implementations present their state as two maps; a read
/// for an id that is absent reports explicit absence, never an error,
/// and a save overwrites any record with the same id.
pub trait Repository: Sized {
    /// Internal consistency of the store; every operation assumes and
    /// preserves it.
    spec fn inv(&self) -> bool;

    /// The players the store holds, by id.
    spec fn players_model(&self) -> Map<u128, Player>;

    /// The scorecard snapshots the store holds, by round id.
    spec fn scorecards_model(&self) -> Map<u128, ScorecardView>;

    /// Saves a player, overwriting any existing record for that id.
    fn save_player(&mut self, player: &Player) -> (r: Result<(), GolfError>)
        requires
            old(self).inv(),
        ensures
            final(self).inv(),
            r is Ok ==> final(self).players_model() == old(self).players_model().insert(
                player.id,
                *player,
            ) && final(self).scorecards_model() == old(self).scorecards_model(),
            r matches Err(e) ==> e is IoError || e is SerializationError,
    ;

    /// Retrieves a player by id; absence is reported as Ok(None).
    fn get_player(&self, id: u128) -> (r: Result<Option<Player>, GolfError>)
        requires
            self.inv(),
        ensures
            match r {
                Ok(Some(p)) => self.players_model().contains_key(id) && self.players_model()[id]
                    == p,
                Ok(None) => !self.players_model().contains_key(id),
                Err(e) => e is IoError || e is SerializationError,
            },
    ;

    /// Lists every stored player, each id exactly once.
    fn list_players(&self) -> (r: Result<Vec<Player>, GolfError>)
        requires
            self.inv(),
        ensures
            match r {
                Ok(ps) => {
                    &&& ps@.len() == self.players_model().len()
                    &&& forall|i: int|
                        0 <= i < ps@.len() ==> self.players_model().contains_key(
                            (#[trigger] ps@[i]).id,
                        ) && self.players_model()[ps@[i].id] == ps@[i]
                    &&& forall|i: int, j: int|
                        #![trigger ps@[i], ps@[j]]
                        0 <= i < j < ps@.len() ==> ps@[i].id != ps@[j].id
                },
                Err(e) => e is IoError || e is SerializationError,
            },
    ;

    /// Saves a scorecard, overwriting any existing record for its round
    /// id.
    fn save_scorecard(&mut self, scorecard: &Scorecard) -> (r: Result<(), GolfError>)
        requires
            old(self).inv(),
            scorecard.wf(),
        ensures
            final(self).inv(),
            r is Ok ==> final(self).scorecards_model() == old(self).scorecards_model().insert(
                scorecard@.round_id,
                scorecard@,
            ) && final(self).players_model() == old(self).players_model(),
            r matches Err(e) ==> e is IoError || e is SerializationError,
    ;

    /// Retrieves a scorecard by round id; absence is reported as
    /// Ok(None).
    fn get_scorecard(&self, round_id: u128) -> (r: Result<Option<Scorecard>, GolfError>)
        requires
            self.inv(),
        ensures
            match r {
                Ok(Some(sc)) => self.scorecards_model().contains_key(round_id)
                    && self.scorecards_model()[round_id] == sc@ && sc.wf(),
                Ok(None) => !self.scorecards_model().contains_key(round_id),
                Err(e) => e is IoError || e is SerializationError,
            },
    ;

    /// Every stored scorecard whose player id matches, each round id
    /// exactly once, and no other.
    fn get_scorecards_by_player(&self, player_id: u128) -> (r: Result<Vec<Scorecard>, GolfError>)
        requires
            self.inv(),
        ensures
            match r {
                Ok(v) => {
                    &&& forall|i: int|
                        0 <= i < v@.len() ==> {
                            &&& (#[trigger] v@[i])@.player_id == player_id
                            &&& self.scorecards_model().contains_key(v@[i]@.round_id)
                            &&& self.scorecards_model()[v@[i]@.round_id] == v@[i]@
                            &&& v@[i].wf()
                        }
                    &&& forall|i: int, j: int|
                        #![trigger v@[i], v@[j]]
                        0 <= i < j < v@.len() ==> v@[i]@.round_id != v@[j]@.round_id
                    &&& forall|rid: u128|
                        self.scorecards_model().contains_key(rid) && (
                        #[trigger] self.scorecards_model()[rid]).player_id == player_id
                            ==> exists|i: int| 0 <= i < v@.len() && (#[trigger] v@[i])@.round_id == rid
                },
                Err(e) => e is IoError || e is SerializationError,
            },
    ;

    /// Lists every stored scorecard, each round id exactly once.
    fn list_scorecards(&self) -> (r: Result<Vec<Scorecard>, GolfError>)
        requires
            self.inv(),
        ensures
            match r {
                Ok(v) => {
                    &&& v@.len() == self.scorecards_model().len()
                    &&& forall|i: int|
                        0 <= i < v@.len() ==> self.scorecards_model().contains_key(
                            (#[trigger] v@[i])@.round_id,
                        ) && self.scorecards_model()[v@[i]@.round_id] == v@[i]@ && v@[i].wf()
                    &&& forall|i: int, j: int|
                        #![trigger v@[i], v@[j]]
                        0 <= i < j < v@.len() ==> v@[i]@.round_id != v@[j]@.round_id
                },
                Err(e) => e is IoError || e is SerializationError,
            },
    ;
}

/// The storage kept entirely in memory: the natural adapter for tests
/// and the reference implementation of the contract.
pub struct InMemoryRepository {
    players: Vec<Player>,
    scorecards: Vec<Scorecard>,
}

impl InMemoryRepository {
    /// The stored scorecards as snapshots, in storage order.
    pub closed spec fn views(&self) -> Seq<ScorecardView> {
        self.scorecards@.map_values(|sc: Scorecard| sc@)
    }

    /// An empty store.
    pub fn new() -> (r: InMemoryRepository)
        ensures
            r.inv(),
            r.players_model() == Map::<u128, Player>::empty(),
            r.scorecards_model() == Map::<u128, ScorecardView>::empty(),
    {
        let r = InMemoryRepository { players: Vec::new(), scorecards: Vec::new() };
        proof {
            assert(r.views() =~= Seq::<ScorecardView>::empty());
        }
        r
    }
}

/// Every element of `out` occurs among the first `n` elements of
/// `views`.
spec fn drawn_from(out: Seq<ScorecardView>, views: Seq<ScorecardView>, n: int) -> bool {
    forall|k: int|
        0 <= k < out.len() ==> exists|j: int| 0 <= j < n && #[trigger] out[k] == views[j]
}


proof fn lemma_player_keys_are_ids(s: Seq<Player>)
    ensures
        unique_keys(s, player_key_fn()) <==> (forall|a: int, b: int|
            #![trigger s[a], s[b]]
            0 <= a < b < s.len() ==> s[a].id != s[b].id),
{
    if unique_keys(s, player_key_fn()) {
        assert forall|a: int, b: int| #![trigger s[a], s[b]] 0 <= a < b < s.len() implies s[a].id
            != s[b].id by {
            assert(player_key_fn()(s[a]) != player_key_fn()(s[b]));
        }
    }
    if forall|a: int, b: int| #![trigger s[a], s[b]] 0 <= a < b < s.len() ==> s[a].id != s[b].id {
        assert forall|a: int, b: int|
            #![trigger player_key_fn()(s[a]), player_key_fn()(s[b])]
            0 <= a < b < s.len() implies player_key_fn()(s[a]) != player_key_fn()(s[b]) by {
            assert(s[a].id != s[b].id);
        }
    }
}

proof fn lemma_view_keys_are_round_ids(s: Seq<ScorecardView>)
    ensures
        unique_keys(s, scorecard_key_fn()) <==> (forall|a: int, b: int|
            #![trigger s[a], s[b]]
            0 <= a < b < s.len() ==> s[a].round_id != s[b].round_id),
{
    if unique_keys(s, scorecard_key_fn()) {
        assert forall|a: int, b: int|
            #![trigger s[a], s[b]]
            0 <= a < b < s.len() implies s[a].round_id != s[b].round_id by {
            assert(scorecard_key_fn()(s[a]) != scorecard_key_fn()(s[b]));
        }
    }
    if forall|a: int, b: int|
        #![trigger s[a], s[b]]
        0 <= a < b < s.len() ==> s[a].round_id != s[b].round_id {
        assert forall|a: int, b: int|
            #![trigger scorecard_key_fn()(s[a]), scorecard_key_fn()(s[b])]
            0 <= a < b < s.len() implies scorecard_key_fn()(s[a]) != scorecard_key_fn()(
            s[b],
        ) by {
            assert(s[a].round_id != s[b].round_id);
        }
    }
}

impl Repository for InMemoryRepository {
    closed spec fn inv(&self) -> bool {
        &&& unique_keys(self.players@, player_key_fn())
        &&& unique_keys(self.views(), scorecard_key_fn())
        &&& forall|i: int| 0 <= i < self.scorecards@.len() ==> (#[trigger] self.scorecards@[i]).wf()
    }

    closed spec fn players_model(&self) -> Map<u128, Player> {
        keyed_map(self.players@, player_key_fn())
    }

    closed spec fn scorecards_model(&self) -> Map<u128, ScorecardView> {
        keyed_map(self.views(), scorecard_key_fn())
    }

    fn save_player(&mut self, player: &Player) -> (r: Result<(), GolfError>)
        ensures
            r is Ok,
    {
        let n = self.players.len();
        let mut i: usize = 0;
        while i < n
            invariant
                *self == *old(self),
                self.inv(),
                n == self.players@.len(),
                0 <= i <= n,
                forall|j: int| 0 <= j < i ==> (#[trigger] self.players@[j]).id != player.id,
            decreases n - i,
        {
            if self.players[i].id == player.id {
                proof {
                    let pre = self.players@;
                    let upd = pre.update(i as int, *player);
                    assert(player_key_fn()(pre[i as int]) == player_key_fn()(*player));
                    lemma_keyed_map_update(pre, player_key_fn(), i as int, *player);
                    lemma_player_keys_are_ids(pre);
                    assert forall|a: int, b: int|
                        #![trigger upd[a], upd[b]]
                        0 <= a < b < upd.len() implies upd[a].id != upd[b].id by {
                        assert(pre[a].id != pre[b].id);
                    }
                    lemma_player_keys_are_ids(upd);
                }
                self.players.set(i, player.duplicate());
                return Ok(());
            }
            i = i + 1;
        }
        proof {
            let pre = self.players@;
            lemma_keyed_map_push(pre, player_key_fn(), *player);
            lemma_player_keys_are_ids(pre);
            let ext = pre.push(*player);
            assert forall|a: int, b: int|
                #![trigger ext[a], ext[b]]
                0 <= a < b < ext.len() implies ext[a].id != ext[b].id by {
                if b < ext.len() - 1 {
                    assert(pre[a].id != pre[b].id);
                } else {
                    assert(ext[a] == pre[a]);
                    assert(pre[a].id != player.id);
                }
            }
            lemma_player_keys_are_ids(ext);
        }
        self.players.push(player.duplicate());
        Ok(())
    }

    fn get_player(&self, id: u128) -> (r: Result<Option<Player>, GolfError>)
        ensures
            r is Ok,
    {
        let n = self.players.len();
        let mut i: usize = 0;
        while i < n
            invariant
                self.inv(),
                n == self.players@.len(),
                0 <= i <= n,
                forall|j: int| 0 <= j < i ==> (#[trigger] self.players@[j]).id != id,
            decreases n - i,
        {
            if self.players[i].id == id {
                proof {
                    lemma_keyed_map_pairs(self.players@, player_key_fn());
                    lemma_keyed_map_contains(self.players@, player_key_fn());
                }
                return Ok(Some(self.players[i].duplicate()));
            }
            i = i + 1;
        }
        proof {
            lemma_keyed_map_contains(self.players@, player_key_fn());
            if self.players_model().contains_key(id) {
                let j = choose|j: int|
                    0 <= j < self.players@.len() && player_key_fn()(
                        #[trigger] self.players@[j],
                    ) == id;
                assert(self.players@[j].id == id);
            }
        }
        Ok(None)
    }

    fn list_players(&self) -> (r: Result<Vec<Player>, GolfError>)
        ensures
            r is Ok,
    {
        let n = self.players.len();
        let mut out: Vec<Player> = Vec::new();
        let mut i: usize = 0;
        while i < n
            invariant
                self.inv(),
                n == self.players@.len(),
                0 <= i <= n,
                out@ =~= self.players@.take(i as int),
            decreases n - i,
        {
            out.push(self.players[i].duplicate());
            proof {
                assert(out@ =~= self.players@.take(i as int + 1));
            }
            i = i + 1;
        }
        proof {
            assert(out@ =~= self.players@);
            lemma_keyed_map_pairs(self.players@, player_key_fn());
            lemma_keyed_map_contains(self.players@, player_key_fn());
        }
        Ok(out)
    }

    fn save_scorecard(&mut self, scorecard: &Scorecard) -> (r: Result<(), GolfError>)
        ensures
            r is Ok,
    {
        let n = self.scorecards.len();
        let mut i: usize = 0;
        while i < n
            invariant
                *self == *old(self),
                self.inv(),
                scorecard.wf(),
                n == self.scorecards@.len(),
                0 <= i <= n,
                forall|j: int|
                    0 <= j < i ==> (#[trigger] self.views()[j]).round_id != scorecard@.round_id,
            decreases n - i,
        {
            if self.scorecards[i].round_key() == scorecard.round_key() {
                proof {
                    let pre = self.views();
                    let upd = pre.update(i as int, scorecard@);
                    assert(pre[i as int] == self.scorecards@[i as int]@);
                    assert(scorecard_key_fn()(pre[i as int]) == scorecard_key_fn()(scorecard@));
                    lemma_keyed_map_update(pre, scorecard_key_fn(), i as int, scorecard@);
                    lemma_view_keys_are_round_ids(pre);
                    assert forall|a: int, b: int|
                        #![trigger upd[a], upd[b]]
                        0 <= a < b < upd.len() implies upd[a].round_id != upd[b].round_id by {
                        assert(pre[a].round_id != pre[b].round_id);
                    }
                    lemma_view_keys_are_round_ids(upd);
                }
                let ghost pre = self.views();
                self.scorecards.set(i, scorecard.duplicate());
                proof {
                    assert(self.views() =~= pre.update(i as int, scorecard@));
                }
                return Ok(());
            }
            i = i + 1;
        }
        proof {
            let pre = self.views();
            lemma_keyed_map_push(pre, scorecard_key_fn(), scorecard@);
            lemma_view_keys_are_round_ids(pre);
            let ext = pre.push(scorecard@);
            assert forall|a: int, b: int|
                #![trigger ext[a], ext[b]]
                0 <= a < b < ext.len() implies ext[a].round_id != ext[b].round_id by {
                if b < ext.len() - 1 {
                    assert(pre[a].round_id != pre[b].round_id);
                } else {
                    assert(ext[a] == pre[a]);
                    assert(pre[a].round_id != scorecard@.round_id);
                }
            }
            lemma_view_keys_are_round_ids(ext);
        }
        let ghost pre = self.views();
        self.scorecards.push(scorecard.duplicate());
        proof {
            assert(self.views() =~= pre.push(scorecard@));
        }
        Ok(())
    }

    fn get_scorecard(&self, round_id: u128) -> (r: Result<Option<Scorecard>, GolfError>)
        ensures
            r is Ok,
    {
        let n = self.scorecards.len();
        let mut i: usize = 0;
        while i < n
            invariant
                self.inv(),
                n == self.scorecards@.len(),
                0 <= i <= n,
                forall|j: int| 0 <= j < i ==> (#[trigger] self.views()[j]).round_id != round_id,
            decreases n - i,
        {
            if self.scorecards[i].round_key() == round_id {
                proof {
                    lemma_keyed_map_pairs(self.views(), scorecard_key_fn());
                    lemma_keyed_map_contains(self.views(), scorecard_key_fn());
                    assert(self.views()[i as int] == self.scorecards@[i as int]@);
                }
                return Ok(Some(self.scorecards[i].duplicate()));
            }
            i = i + 1;
        }
        proof {
            lemma_keyed_map_contains(self.views(), scorecard_key_fn());
            if self.scorecards_model().contains_key(round_id) {
                let j = choose|j: int|
                    0 <= j < self.views().len() && scorecard_key_fn()(
                        #[trigger] self.views()[j],
                    ) == round_id;
                assert(self.views()[j].round_id == round_id);
            }
        }
        Ok(None)
    }

    #[verifier::rlimit(50)]
    fn get_scorecards_by_player(&self, player_id: u128) -> (r: Result<Vec<Scorecard>, GolfError>)
        ensures
            r is Ok,
    {
        let n = self.scorecards.len();
        let mut out: Vec<Scorecard> = Vec::new();
        proof {
            lemma_keyed_map_pairs(self.views(), scorecard_key_fn());
            lemma_keyed_map_contains(self.views(), scorecard_key_fn());
        }
        let mut i: usize = 0;
        while i < n
            invariant
                self.inv(),
                n == self.scorecards@.len(),
                0 <= i <= n,
                forall|k: int|
                    0 <= k < out@.len() ==> {
                        &&& (#[trigger] out@[k])@.player_id == player_id
                        &&& self.scorecards_model().contains_key(out@[k]@.round_id)
                        &&& self.scorecards_model()[out@[k]@.round_id] == out@[k]@
                        &&& out@[k].wf()
                    },
                forall|k1: int, k2: int|
                    #![trigger out@[k1], out@[k2]]
                    0 <= k1 < k2 < out@.len() ==> out@[k1]@.round_id != out@[k2]@.round_id,
                drawn_from(out@.map_values(|sc: Scorecard| sc@), self.views(), i as int),
                forall|j: int|
                    0 <= j < i && (#[trigger] self.views()[j]).player_id == player_id
                        ==> exists|k: int|
                        0 <= k < out@.len() && (#[trigger] out@[k])@.round_id
                            == self.views()[j].round_id,
            decreases n - i,
        {
            let ghost prev = out@;
            if self.scorecards[i].player_key() == player_id {
                proof {
                    lemma_keyed_map_pairs(self.views(), scorecard_key_fn());
                    lemma_keyed_map_contains(self.views(), scorecard_key_fn());
                    lemma_view_keys_are_round_ids(self.views());
                    assert(self.views()[i as int] == self.scorecards@[i as int]@);
                    assert(self.scorecards_model()[scorecard_key_fn()(self.views()[i as int])]
                        == self.views()[i as int]);
                    assert forall|k: int| 0 <= k < prev.len() implies (#[trigger] prev[k])@.round_id
                        != self.views()[i as int].round_id by {
                        let vs = prev.map_values(|sc: Scorecard| sc@);
                        assert(vs[k] == prev[k]@);
                        let j = choose|j: int| 0 <= j < i && #[trigger] vs[k] == self.views()[j];
                        assert(self.views()[j].round_id != self.views()[i as int].round_id);
                    }
                }
                out.push(self.scorecards[i].duplicate());
                proof {
                    let vs_new = out@.map_values(|sc: Scorecard| sc@);
                    let vs_old = prev.map_values(|sc: Scorecard| sc@);
                    assert forall|k: int| 0 <= k < vs_new.len() implies exists|j: int|
                        0 <= j < i as int + 1 && #[trigger] vs_new[k] == self.views()[j] by {
                        if k < vs_old.len() {
                            assert(vs_new[k] == vs_old[k]);
                            let j = choose|j: int|
                                0 <= j < i && #[trigger] vs_old[k] == self.views()[j];
                            assert(vs_new[k] == self.views()[j]);
                        } else {
                            assert(vs_new[k] == self.views()[i as int]);
                        }
                    }
                    assert forall|j: int|
                        0 <= j < i as int + 1 && (#[trigger] self.views()[j]).player_id
                            == player_id implies exists|k: int|
                        0 <= k < out@.len() && (#[trigger] out@[k])@.round_id
                            == self.views()[j].round_id by {
                        if j < i {
                            let k = choose|k: int|
                                0 <= k < prev.len() && (#[trigger] prev[k])@.round_id
                                    == self.views()[j].round_id;
                            assert(out@[k]@.round_id == self.views()[j].round_id);
                        } else {
                            assert(out@[out@.len() - 1]@.round_id == self.views()[
                                i as int
                            ].round_id);
                        }
                    }
                }
            } else {
                proof {
                    assert(self.views()[i as int] == self.scorecards@[i as int]@);
                    assert forall|j: int|
                        0 <= j < i as int + 1 && (#[trigger] self.views()[j]).player_id
                            == player_id implies exists|k: int|
                        0 <= k < out@.len() && (#[trigger] out@[k])@.round_id
                            == self.views()[j].round_id by {
                        if j < i {
                            let k = choose|k: int|
                                0 <= k < prev.len() && (#[trigger] prev[k])@.round_id
                                    == self.views()[j].round_id;
                            assert(out@[k]@.round_id == self.views()[j].round_id);
                        }
                    }
                }
            }
            i = i + 1;
        }
        proof {
            lemma_keyed_map_pairs(self.views(), scorecard_key_fn());
            lemma_keyed_map_contains(self.views(), scorecard_key_fn());
            assert forall|rid: u128|
                self.scorecards_model().contains_key(rid) && (
                #[trigger] self.scorecards_model()[rid]).player_id == player_id implies exists|
                k: int,
            |
                0 <= k < out@.len() && (#[trigger] out@[k])@.round_id == rid by {
                let j = choose|j: int|
                    0 <= j < self.views().len() && scorecard_key_fn()(
                        #[trigger] self.views()[j],
                    ) == rid;
                assert(self.views()[j].round_id == rid);
                assert(self.scorecards_model()[rid] == self.views()[j]);
                assert(self.views()[j].player_id == player_id);
            }
        }
        let r: Result<Vec<Scorecard>, GolfError> = Ok(out);
        proof {
            let v = r->Ok_0;
            assert(forall|i: int|
                0 <= i < v@.len() ==> {
                    &&& (#[trigger] v@[i])@.player_id == player_id
                    &&& self.scorecards_model().contains_key(v@[i]@.round_id)
                    &&& self.scorecards_model()[v@[i]@.round_id] == v@[i]@
                    &&& v@[i].wf()
                });
            assert(forall|i: int, j: int|
                #![trigger v@[i], v@[j]]
                0 <= i < j < v@.len() ==> v@[i]@.round_id != v@[j]@.round_id);
            assert(forall|rid: u128|
                self.scorecards_model().contains_key(rid) && (
                #[trigger] self.scorecards_model()[rid]).player_id == player_id ==> exists|i: int|
                    0 <= i < v@.len() && (#[trigger] v@[i])@.round_id == rid);
        }
        r
    }

    fn list_scorecards(&self) -> (r: Result<Vec<Scorecard>, GolfError>)
        ensures
            r is Ok,
    {
        let n = self.scorecards.len();
        let mut out: Vec<Scorecard> = Vec::new();
        let mut i: usize = 0;
        while i < n
            invariant
                self.inv(),
                n == self.scorecards@.len(),
                0 <= i <= n,
                out@.len() == i,
                forall|k: int| 0 <= k < i ==> (#[trigger] out@[k])@ == self.views()[k],
            decreases n - i,
        {
            out.push(self.scorecards[i].duplicate());
            proof {
                assert(self.views()[i as int] == self.scorecards@[i as int]@);
            }
            i = i + 1;
        }
        proof {
            lemma_keyed_map_pairs(self.views(), scorecard_key_fn());
            lemma_keyed_map_contains(self.views(), scorecard_key_fn());
            lemma_view_keys_are_round_ids(self.views());
            assert forall|a: int, b: int|
                #![trigger out@[a], out@[b]]
                0 <= a < b < out@.len() implies out@[a]@.round_id != out@[b]@.round_id by {
                assert(self.views()[a].round_id != self.views()[b].round_id);
            }
        }
        Ok(out)
    }
}

/// The file layout of the on-disk store: one record per entity under a
/// base directory, players and scorecards in their own subdirectories,
/// each file named by the decimal form of its id.
pub struct FileRepository {
    pub base_path: String,
}

impl FileRepository {
    /// A layout rooted at the given base directory.
    pub fn new(base_path: String) -> (r: FileRepository)
        ensures
            r.base_path == base_path,
    {
        FileRepository { base_path }
    }

    /// The file path of a player record.
    pub fn player_path(&self, id: u128) -> (r: String)
        ensures
            r@ == self.base_path@ + "/players/"@ + dec_rep(id as int) + ".json"@,
    {
        let mut r = self.base_path.clone();
        r.append("/players/");
        r.append(u128_to_decimal(id).as_str());
        r.append(".json");
        r
    }

    /// The file path of a scorecard record.
    pub fn scorecard_path(&self, round_id: u128) -> (r: String)
        ensures
            r@ == self.base_path@ + "/scorecards/"@ + dec_rep(round_id as int) + ".json"@,
    {
        let mut r = self.base_path.clone();
        r.append("/scorecards/");
        r.append(u128_to_decimal(round_id).as_str());
        r.append(".json");
        r
    }
}


/// Saving a record and then reading the same id reproduces every field
/// exactly: the updated store maps that id to the very value saved.
pub proof fn lemma_save_then_get_player(m: Map<u128, Player>, p: Player)
    ensures
        m.insert(p.id, p).contains_key(p.id),
        m.insert(p.id, p)[p.id] == p,
{
}

/// Saving a scorecard and then reading its round id reproduces every
/// field of its snapshot exactly.
pub proof fn lemma_save_then_get_scorecard(m: Map<u128, ScorecardView>, v: ScorecardView)
    ensures
        m.insert(v.round_id, v).contains_key(v.round_id),
        m.insert(v.round_id, v)[v.round_id] == v,
{
}

} // verus!
