//! The challenge store: one record per login attempt, keyed by the random
//! challenge bytes, bound to a public key at most once.

use vstd::prelude::*;
use vstd::slice::slice_to_vec;

use crate::bytes::bytes_equal;

verus! {

/// Relies on `rand::random` for 32 bytes from the thread-local generator.
#[verifier::external_body]
fn random_challenge() -> (r: Vec<u8>)
    ensures
        r@.len() == CHALLENGE_LEN,
{
    rand::random::<[u8; 32]>().to_vec()
}

/// Length in bytes of a challenge.
pub const CHALLENGE_LEN: usize = 32;

/// One login attempt as stored.
pub struct Challenge {
    pub id: Vec<u8>,
    pub created_at: i64,
    pub bound_pubkey: Option<Vec<u8>>,
}

/// What a challenge record means: when it was made and the key bound to it.
pub ghost struct ChallengeView {
    pub created_at: int,
    pub bound: Option<Seq<u8>>,
}

impl Challenge {
    pub open spec fn view(&self) -> ChallengeView {
        ChallengeView {
            created_at: self.created_at as int,
            bound: match self.bound_pubkey {
                Some(k) => Some(k@),
                None => None,
            },
        }
    }
}

/// The outcome of an attempt to bind a challenge to a key.
#[derive(Clone, Copy, Debug, PartialEq, Eq, Structural)]
pub enum BindResult {
    Bound,
    NotFound,
    Expired,
    AlreadyBound,
}

/// Whether a challenge made at `created_at` is stale at `now`.
pub open spec fn is_expired(created_at: int, ttl: int, now: int) -> bool {
    now - created_at >= ttl
}

/// What binding `id` at `now` would answer, given the store's contents.
pub open spec fn bind_outcome(
    m: Map<Seq<u8>, ChallengeView>,
    ttl: int,
    id: Seq<u8>,
    now: int,
) -> BindResult {
    if !m.contains_key(id) {
        BindResult::NotFound
    } else if is_expired(m[id].created_at, ttl, now) {
        BindResult::Expired
    } else if m[id].bound is Some {
        BindResult::AlreadyBound
    } else {
        BindResult::Bound
    }
}

/// The store's contents after binding `id` to `key` at `now`: changed only
/// when the answer is `Bound`.
pub open spec fn bind_effect(
    m: Map<Seq<u8>, ChallengeView>,
    ttl: int,
    id: Seq<u8>,
    key: Seq<u8>,
    now: int,
) -> Map<Seq<u8>, ChallengeView> {
    if bind_outcome(m, ttl, id, now) == BindResult::Bound {
        m.insert(id, ChallengeView { created_at: m[id].created_at, bound: Some(key) })
    } else {
        m
    }
}

/// The key bound to `id`, if the challenge exists, is fresh and is bound.
pub open spec fn bound_key(
    m: Map<Seq<u8>, ChallengeView>,
    ttl: int,
    id: Seq<u8>,
    now: int,
) -> Option<Seq<u8>> {
    if m.contains_key(id) && !is_expired(m[id].created_at, ttl, now) {
        m[id].bound
    } else {
        None
    }
}

/// A fresh challenge, made at `now`, with no key bound.
pub open spec fn fresh_challenge(now: int) -> ChallengeView {
    ChallengeView { created_at: now, bound: None }
}

/// The challenges that are still fresh at `now`.
pub open spec fn unexpired(m: Map<Seq<u8>, ChallengeView>, ttl: int, now: int) -> Map<Seq<u8>, ChallengeView> {
    Map::new(|id: Seq<u8>| m.contains_key(id) && !is_expired(m[id].created_at, ttl, now), |id: Seq<u8>| m[id])
}

/// Challenge records with distinct ids, and the time after which one is stale.
pub struct ChallengeStore {
    records: Vec<Challenge>,
    ttl: i64,
}

/// A challenge is consumed once: after one bind succeeds, any later attempt,
/// with any key, is refused and leaves the bound key as it is; while the
/// challenge is fresh the refusal is `AlreadyBound`.
pub proof fn lemma_single_consumption(
    m: Map<Seq<u8>, ChallengeView>,
    ttl: int,
    id: Seq<u8>,
    first_key: Seq<u8>,
    second_key: Seq<u8>,
    first_now: int,
    second_now: int,
)
    requires
        bind_outcome(m, ttl, id, first_now) == BindResult::Bound,
    ensures
        ({
            let after = bind_effect(m, ttl, id, first_key, first_now);
            &&& after[id].bound == Some(first_key)
            &&& bind_outcome(after, ttl, id, second_now) != BindResult::Bound
            &&& !is_expired(m[id].created_at, ttl, second_now) ==> bind_outcome(after, ttl, id, second_now)
                == BindResult::AlreadyBound
            &&& bind_effect(after, ttl, id, second_key, second_now) == after
        }),
{
}

impl ChallengeStore {
    spec fn slot(&self, id: Seq<u8>) -> int {
        choose|i: int| 0 <= i < self.records@.len() && self.records@[i].id@ == id
    }

    /// The records by id.
    pub closed spec fn view(&self) -> Map<Seq<u8>, ChallengeView> {
        Map::new(
            |id: Seq<u8>| exists|i: int| 0 <= i < self.records@.len() && self.records@[i].id@ == id,
            |id: Seq<u8>| self.records@[self.slot(id)].view(),
        )
    }

    /// How long, in seconds, a challenge stays usable.
    pub closed spec fn ttl(&self) -> int {
        self.ttl as int
    }

    /// Ids are distinct and each is a challenge's length.
    pub closed spec fn wf(&self) -> bool {
        &&& forall|i: int, j: int|
            0 <= i < self.records@.len() && 0 <= j < self.records@.len() && i != j
                ==> self.records@[i].id@ != self.records@[j].id@
        &&& forall|i: int| 0 <= i < self.records@.len() ==> self.records@[i].id@.len() == CHALLENGE_LEN
    }

    proof fn lemma_slot(&self, i: int)
        requires
            self.wf(),
            0 <= i < self.records@.len(),
        ensures
            self.slot(self.records@[i].id@) == i,
            self.view().contains_key(self.records@[i].id@),
            self.view()[self.records@[i].id@] == self.records@[i].view(),
    {
        let id = self.records@[i].id@;
        assert(exists|k: int| 0 <= k < self.records@.len() && self.records@[k].id@ == id);
        let s = self.slot(id);
        assert(self.records@[s].id@ == id);
    }

    /// Every stored id has a challenge's length.
    pub proof fn lemma_id_len(&self, id: Seq<u8>)
        requires
            self.wf(),
            self.view().contains_key(id),
        ensures
            id.len() == CHALLENGE_LEN,
    {
        let s = self.slot(id);
        assert(self.records@[s].id@ == id);
    }

    /// An empty store whose challenges last `ttl` seconds.
    pub fn new(ttl: i64) -> (r: Self)
        ensures
            r.wf(),
            r.view() == Map::<Seq<u8>, ChallengeView>::empty(),
            r.ttl() == ttl as int,
    {
        let r = ChallengeStore { records: Vec::new(), ttl };
        assert(r.view() =~= Map::<Seq<u8>, ChallengeView>::empty());
        r
    }

    /// The position of the record for `id`, if any.
    fn find(&self, id: &[u8]) -> (r: Option<usize>)
        requires
            self.wf(),
        ensures
            r matches Some(i) ==> i < self.records@.len() && self.records@[i as int].id@ == id@
                && self.view().contains_key(id@) && self.view()[id@]
                == self.records@[i as int].view(),
            r is None ==> !self.view().contains_key(id@),
    {
        let mut i: usize = 0;
        while i < self.records.len()
            invariant
                self.wf(),
                0 <= i <= self.records@.len(),
                forall|j: int| 0 <= j < i ==> self.records@[j].id@ != id@,
            decreases self.records@.len() - i,
        {
            if bytes_equal(self.records[i].id.as_slice(), id) {
                proof {
                    self.lemma_slot(i as int);
                }
                return Some(i);
            }
            i = i + 1;
        }
        None
    }

    /// Records a new challenge made at `now`. Answers `false`, and changes
    /// nothing, when a challenge with that id is already stored.
    pub fn insert(&mut self, id: &[u8], now: i64) -> (r: bool)
        requires
            old(self).wf(),
            id@.len() == CHALLENGE_LEN,
        ensures
            final(self).wf(),
            final(self).ttl() == old(self).ttl(),
            r == !old(self).view().contains_key(id@),
            r ==> final(self).view() == old(self).view().insert(id@, fresh_challenge(now as int)),
            !r ==> final(self).view() == old(self).view(),
    {
        if self.find(id).is_some() {
            return false;
        }
        let ghost before = *self;
        let rec = Challenge { id: slice_to_vec(id), created_at: now, bound_pubkey: None };
        self.records.push(rec);
        proof {
            let n = before.records@.len() as int;
            assert(self.records@ == before.records@.push(rec));
            assert forall|i: int| 0 <= i < n implies self.records@[i] == before.records@[i] by {}
            assert(self.wf());
            assert forall|k: Seq<u8>|
                #[trigger] self.view().contains_key(k) == before.view().insert(id@, fresh_challenge(now as int)).contains_key(k) by {
                if k == id@ {
                    self.lemma_slot(n);
                } else if self.view().contains_key(k) {
                    let s = self.slot(k);
                    assert(s < n);
                    assert(before.records@[s].id@ == k);
                }
            }
            assert forall|k: Seq<u8>| #[trigger] self.view().contains_key(k) implies self.view()[k]
                == before.view().insert(id@, fresh_challenge(now as int))[k] by {
                if k == id@ {
                    self.lemma_slot(n);
                } else {
                    let s = self.slot(k);
                    self.lemma_slot(s);
                    before.lemma_slot(s);
                }
            }
            assert(self.view() =~= before.view().insert(id@, fresh_challenge(now as int)));
        }
        true
    }

    /// Records a new challenge with 32 random bytes as its id, made at
    /// `now`, and returns the id. Answers nothing, and changes nothing, in
    /// the negligible case that the id is already in use.
    pub fn create(&mut self, now: i64) -> (r: Option<Vec<u8>>)
        requires
            old(self).wf(),
        ensures
            final(self).wf(),
            final(self).ttl() == old(self).ttl(),
            r is None ==> final(self).view() == old(self).view(),
            r is None ==> exists|id: Seq<u8>| id.len() == CHALLENGE_LEN && #[trigger] old(self).view().contains_key(id),
            r matches Some(id) ==> id@.len() == CHALLENGE_LEN && !old(self).view().contains_key(id@)
                && final(self).view() == old(self).view().insert(id@, fresh_challenge(now as int)),
    {
        let id = random_challenge();
        if self.insert(id.as_slice(), now) {
            Some(id)
        } else {
            None
        }
    }

    fn expired_at(&self, created_at: i64, now: i64) -> (r: bool)
        ensures
            r == is_expired(created_at as int, self.ttl(), now as int),
    {
        (now as i128) - (created_at as i128) >= (self.ttl as i128)
    }

    /// What binding `id` at `now` would answer, without binding it.
    pub fn check(&self, id: &[u8], now: i64) -> (r: BindResult)
        requires
            self.wf(),
        ensures
            r == bind_outcome(self.view(), self.ttl(), id@, now as int),
    {
        match self.find(id) {
            None => BindResult::NotFound,
            Some(i) => {
                let rec = &self.records[i];
                if self.expired_at(rec.created_at, now) {
                    BindResult::Expired
                } else if rec.bound_pubkey.is_some() {
                    BindResult::AlreadyBound
                } else {
                    BindResult::Bound
                }
            },
        }
    }

    /// Binds `id` to `key` if the challenge exists, is fresh and has no key
    /// yet; otherwise says which of these failed and changes nothing.
    pub fn try_bind(&mut self, id: &[u8], key: &[u8], now: i64) -> (r: BindResult)
        requires
            old(self).wf(),
        ensures
            final(self).wf(),
            final(self).ttl() == old(self).ttl(),
            r == bind_outcome(old(self).view(), old(self).ttl(), id@, now as int),
            final(self).view() == bind_effect(old(self).view(), old(self).ttl(), id@, key@, now as int),
    {
        let r = self.check(id, now);
        if r != BindResult::Bound {
            return r;
        }
        let i = match self.find(id) {
            Some(i) => i,
            None => { return r; },
        };
        let ghost before = *self;
        let created_at = self.records[i].created_at;
        let rec = Challenge { id: slice_to_vec(id), created_at, bound_pubkey: Some(slice_to_vec(key)) };
        self.records.set(i, rec);
        proof {
            let n = before.records@.len() as int;
            let nv = ChallengeView { created_at: created_at as int, bound: Some(key@) };
            assert(self.records@ == before.records@.update(i as int, rec));
            assert forall|j: int| 0 <= j < n && j != i implies self.records@[j] == before.records@[j] by {}
            assert(self.wf());
            let target = before.view().insert(id@, nv);
            assert forall|k: Seq<u8>| #[trigger] self.view().contains_key(k) == target.contains_key(k) by {
                if k == id@ {
                    self.lemma_slot(i as int);
                } else if self.view().contains_key(k) {
                    let s = self.slot(k);
                    assert(before.records@[s].id@ == k);
                } else if before.view().contains_key(k) {
                    let s = before.slot(k);
                    assert(self.records@[s].id@ == k);
                }
            }
            assert forall|k: Seq<u8>| #[trigger] self.view().contains_key(k) implies self.view()[k]
                == target[k] by {
                if k == id@ {
                    self.lemma_slot(i as int);
                } else {
                    let s = self.slot(k);
                    self.lemma_slot(s);
                    before.lemma_slot(s);
                }
            }
            assert(self.view() =~= target);
        }
        r
    }

    /// Drops every challenge that is stale at `now`, so that the store
    /// holds only those that can still be used.
    pub fn purge_expired(&mut self, now: i64)
        requires
            old(self).wf(),
        ensures
            final(self).wf(),
            final(self).ttl() == old(self).ttl(),
            final(self).view() == unexpired(old(self).view(), old(self).ttl(), now as int),
    {
        let ghost before = *self;
        let mut kept: Vec<Challenge> = Vec::new();
        let ghost mut idx: Seq<int> = seq![];
        let mut i: usize = 0;
        while i < self.records.len()
            invariant
                *self == before,
                before.wf(),
                0 <= i <= before.records@.len(),
                idx.len() == kept@.len(),
                forall|k: int| 0 <= k < idx.len() ==> 0 <= #[trigger] idx[k] < i,
                forall|k: int, l: int| 0 <= k < l < idx.len() ==> idx[k] < idx[l],
                forall|k: int| 0 <= k < idx.len() ==> (#[trigger] kept@[k]).id@ == before.records@[idx[k]].id@
                    && kept@[k].view() == before.records@[idx[k]].view()
                    && !is_expired(before.records@[idx[k]].created_at as int, before.ttl as int, now as int),
                forall|j: int| 0 <= j < i && !is_expired(before.records@[j].created_at as int, before.ttl as int, now as int)
                    ==> exists|k: int| 0 <= k < idx.len() && #[trigger] idx[k] == j,
            decreases before.records@.len() - i,
        {
            let rec = &self.records[i];
            if !self.expired_at(rec.created_at, now) {
                let copy = Challenge {
                    id: slice_to_vec(rec.id.as_slice()),
                    created_at: rec.created_at,
                    bound_pubkey: match &rec.bound_pubkey {
                        Some(k) => Some(slice_to_vec(k.as_slice())),
                        None => None,
                    },
                };
                kept.push(copy);
                proof {
                    let old_idx = idx;
                    idx = idx.push(i as int);
                    assert forall|j: int| 0 <= j < i + 1 && !is_expired(before.records@[j].created_at as int, before.ttl as int, now as int)
                        implies exists|k: int| 0 <= k < idx.len() && #[trigger] idx[k] == j by {
                        if j < i {
                            let k = choose|k: int| 0 <= k < old_idx.len() && #[trigger] old_idx[k] == j;
                            assert(idx[k] == j);
                        } else {
                            assert(idx[idx.len() - 1] == j);
                        }
                    }
                }
            }
            i = i + 1;
        }
        self.records = kept;
        proof {
            let target = unexpired(before.view(), before.ttl(), now as int);
            assert(self.wf()) by {
                assert forall|a: int, b: int|
                    0 <= a < self.records@.len() && 0 <= b < self.records@.len() && a != b
                        implies self.records@[a].id@ != self.records@[b].id@ by {
                    assert(idx[a] != idx[b]);
                }
            }
            assert forall|id: Seq<u8>| #[trigger] self.view().contains_key(id) == target.contains_key(id) by {
                if self.view().contains_key(id) {
                    let s = self.slot(id);
                    before.lemma_slot(idx[s]);
                }
                if target.contains_key(id) {
                    let j = before.slot(id);
                    before.lemma_slot(j);
                    let k = choose|k: int| 0 <= k < idx.len() && #[trigger] idx[k] == j;
                    assert(self.records@[k].id@ == id);
                }
            }
            assert forall|id: Seq<u8>| #[trigger] self.view().contains_key(id) implies self.view()[id] == target[id] by {
                let s = self.slot(id);
                self.lemma_slot(s);
                before.lemma_slot(idx[s]);
            }
            assert(self.view() =~= target);
        }
    }

    /// The key bound to `id`, if the challenge exists, is fresh and is bound.
    pub fn lookup(&self, id: &[u8], now: i64) -> (r: Option<Vec<u8>>)
        requires
            self.wf(),
        ensures
            r matches Some(k) ==> bound_key(self.view(), self.ttl(), id@, now as int) == Some(k@),
            r is None ==> bound_key(self.view(), self.ttl(), id@, now as int) is None,
    {
        match self.find(id) {
            None => None,
            Some(i) => {
                let rec = &self.records[i];
                if self.expired_at(rec.created_at, now) {
                    None
                } else {
                    match &rec.bound_pubkey {
                        Some(k) => Some(slice_to_vec(k.as_slice())),
                        None => None,
                    }
                }
            },
        }
    }
}

} // verus!
