//! The three operations of a login: start it, accept the signer's callback,
//! and answer the polling client. Each works on the service's state under
//! `&mut self` or `&self`, so one bind is one indivisible step.

use vstd::prelude::*;

use crate::auth::{authorize, session_token, Auth, AuthError, Keys};
use crate::challenge::{
    bind_effect, bind_outcome, bound_key, fresh_challenge, is_expired, unexpired, BindResult,
    ChallengeStore, ChallengeView, CHALLENGE_LEN,
};
use crate::encoder::{encode_login, login_link};
use crate::hexcode::{hex_decode, hex_decoded, hex_encode, hex_of};
use crate::signature::{signature_verdict, verify_signature, SignatureError};

verus! {

/// What the initiating client receives: the link to show and the challenge in hex.
pub struct LoginStart {
    pub lnurl: String,
    pub k1: String,
}

/// Why a login could not be started.
#[derive(Clone, Copy, Debug, PartialEq, Eq, Structural)]
pub enum StartError {
    /// The drawn challenge is already in use.
    Collision,
}

/// Why a signer's callback was refused.
#[derive(Clone, Copy, Debug, PartialEq, Eq, Structural)]
pub enum CallbackError {
    /// A field is not hex.
    InvalidInput,
    /// No such challenge, or it is stale.
    ChallengeNotFound,
    /// Another key has already claimed the challenge.
    AlreadyBound,
    /// The signature does not check; the reason is kept for logs.
    InvalidSignature(SignatureError),
}

/// Why the service could not be set up.
#[derive(Clone, Copy, Debug, PartialEq, Eq, Structural)]
pub enum ConfigError {
    EmptyCallbackUrl,
}

/// The answer to a callback, given the challenges and the three hex fields.
/// The signature is checked before anything is written.
pub open spec fn callback_outcome(
    m: Map<Seq<u8>, ChallengeView>,
    ttl: int,
    k1: Seq<char>,
    sig: Seq<char>,
    key: Seq<char>,
    now: int,
) -> Result<(), CallbackError> {
    match (hex_decoded(k1), hex_decoded(sig), hex_decoded(key)) {
        (Some(id), Some(s), Some(k)) => match bind_outcome(m, ttl, id, now) {
            BindResult::NotFound => Err(CallbackError::ChallengeNotFound),
            BindResult::Expired => Err(CallbackError::ChallengeNotFound),
            BindResult::AlreadyBound => Err(CallbackError::AlreadyBound),
            BindResult::Bound => match signature_verdict(id, s, k) {
                Err(e) => Err(CallbackError::InvalidSignature(e)),
                Ok(()) => Ok(()),
            },
        },
        _ => Err(CallbackError::InvalidInput),
    }
}

/// The challenges after a callback: the challenge is bound to the key only
/// when the callback succeeds.
pub open spec fn callback_challenges(
    m: Map<Seq<u8>, ChallengeView>,
    ttl: int,
    k1: Seq<char>,
    sig: Seq<char>,
    key: Seq<char>,
    now: int,
) -> Map<Seq<u8>, ChallengeView> {
    if callback_outcome(m, ttl, k1, sig, key, now) is Ok {
        bind_effect(m, ttl, hex_decoded(k1)->0, hex_decoded(key)->0, now)
    } else {
        m
    }
}

/// The known users after a callback: the key is added when it succeeds.
pub open spec fn callback_users(
    m: Map<Seq<u8>, ChallengeView>,
    users: Set<Seq<u8>>,
    ttl: int,
    k1: Seq<char>,
    sig: Seq<char>,
    key: Seq<char>,
    now: int,
) -> Set<Seq<u8>> {
    if callback_outcome(m, ttl, k1, sig, key, now) is Ok {
        users.insert(hex_decoded(key)->0)
    } else {
        users
    }
}

/// What a poll finds: the bound key, or why there is none yet.
pub open spec fn poll_key(
    m: Map<Seq<u8>, ChallengeView>,
    ttl: int,
    k1: Seq<char>,
    now: int,
) -> Result<Seq<u8>, AuthError> {
    match hex_decoded(k1) {
        None => Err(AuthError::InvalidToken),
        Some(id) => match bound_key(m, ttl, id, now) {
            None => Err(AuthError::WaitingForLogin),
            Some(pk) => Ok(pk),
        },
    }
}

/// A bad signature binds nothing: on a fresh, unbound challenge, a callback
/// whose signature does not check is refused and leaves challenges and users
/// as they were, and a later callback with a good signature still succeeds.
pub proof fn lemma_no_premature_binding(
    m: Map<Seq<u8>, ChallengeView>,
    users: Set<Seq<u8>>,
    ttl: int,
    k1: Seq<char>,
    bad_sig: Seq<char>,
    good_sig: Seq<char>,
    key: Seq<char>,
    now: int,
    later: int,
)
    requires
        hex_decoded(k1) is Some,
        hex_decoded(key) is Some,
        m.contains_key(hex_decoded(k1)->0),
        m[hex_decoded(k1)->0].bound is None,
        !is_expired(m[hex_decoded(k1)->0].created_at, ttl, now),
        !is_expired(m[hex_decoded(k1)->0].created_at, ttl, later),
        !(hex_decoded(bad_sig) matches Some(s) && signature_verdict(hex_decoded(k1)->0, s, hex_decoded(key)->0) is Ok),
        hex_decoded(good_sig) matches Some(s) && signature_verdict(hex_decoded(k1)->0, s, hex_decoded(key)->0) is Ok,
    ensures
        callback_outcome(m, ttl, k1, bad_sig, key, now) is Err,
        callback_challenges(m, ttl, k1, bad_sig, key, now) == m,
        callback_users(m, users, ttl, k1, bad_sig, key, now) == users,
        callback_outcome(m, ttl, k1, good_sig, key, later) is Ok,
{
}

/// Once a callback succeeds, every poll while the challenge is fresh finds
/// the signer's key, so each issues a token for it; polling changes nothing.
pub proof fn lemma_poll_reflects_bind(
    m: Map<Seq<u8>, ChallengeView>,
    ttl: int,
    k1: Seq<char>,
    sig: Seq<char>,
    key: Seq<char>,
    now: int,
    poll_now: int,
)
    requires
        callback_outcome(m, ttl, k1, sig, key, now) is Ok,
        !is_expired(m[hex_decoded(k1)->0].created_at, ttl, poll_now),
    ensures
        poll_key(callback_challenges(m, ttl, k1, sig, key, now), ttl, k1, poll_now) == Ok::<Seq<u8>, AuthError>(hex_decoded(key)->0),
{
}

/// Once a callback has bound a challenge, a callback from any other signer,
/// even with a good signature, is refused as already bound while the
/// challenge is fresh, and changes neither the challenges nor the key that
/// polls find.
pub proof fn lemma_second_signer_refused(
    m: Map<Seq<u8>, ChallengeView>,
    users: Set<Seq<u8>>,
    ttl: int,
    k1: Seq<char>,
    sig: Seq<char>,
    key: Seq<char>,
    other_sig: Seq<char>,
    other_key: Seq<char>,
    now: int,
    later: int,
)
    requires
        callback_outcome(m, ttl, k1, sig, key, now) is Ok,
        hex_decoded(other_sig) is Some,
        hex_decoded(other_key) is Some,
        !is_expired(m[hex_decoded(k1)->0].created_at, ttl, later),
    ensures
        ({
            let after = callback_challenges(m, ttl, k1, sig, key, now);
            let users_after = callback_users(m, users, ttl, k1, sig, key, now);
            &&& callback_outcome(after, ttl, k1, other_sig, other_key, later) == Err::<(), CallbackError>(CallbackError::AlreadyBound)
            &&& callback_challenges(after, ttl, k1, other_sig, other_key, later) == after
            &&& callback_users(after, users_after, ttl, k1, other_sig, other_key, later) == users_after
            &&& poll_key(after, ttl, k1, later) == Ok::<Seq<u8>, AuthError>(hex_decoded(key)->0)
        }),
{
}

/// One signer's callback: the signature, the key and the time, all as given.
pub type CallbackCall = (Seq<char>, Seq<char>, int);

/// The challenges after the callbacks `calls` on challenge `k1`, one after
/// another, in any order in which they were serialized.
pub open spec fn challenges_after_calls(
    m: Map<Seq<u8>, ChallengeView>,
    ttl: int,
    k1: Seq<char>,
    calls: Seq<CallbackCall>,
) -> Map<Seq<u8>, ChallengeView>
    decreases calls.len(),
{
    if calls.len() == 0 {
        m
    } else {
        let c = calls.last();
        callback_challenges(challenges_after_calls(m, ttl, k1, calls.drop_last()), ttl, k1, c.0, c.1, c.2)
    }
}

/// How many of the callbacks `calls` on challenge `k1` succeed.
pub open spec fn successful_calls(
    m: Map<Seq<u8>, ChallengeView>,
    ttl: int,
    k1: Seq<char>,
    calls: Seq<CallbackCall>,
) -> nat
    decreases calls.len(),
{
    if calls.len() == 0 {
        0
    } else {
        let c = calls.last();
        let before = challenges_after_calls(m, ttl, k1, calls.drop_last());
        successful_calls(m, ttl, k1, calls.drop_last())
            + if callback_outcome(before, ttl, k1, c.0, c.1, c.2) is Ok { 1nat } else { 0nat }
    }
}

/// However many signers call back on one challenge, in whatever order they
/// are serialized, at most one succeeds; after that the challenge stays
/// bound to the winner's key. A challenge that was already bound is never
/// rebound.
pub proof fn lemma_at_most_one_winner(
    m: Map<Seq<u8>, ChallengeView>,
    ttl: int,
    k1: Seq<char>,
    calls: Seq<CallbackCall>,
)
    ensures
        successful_calls(m, ttl, k1, calls) <= 1,
        successful_calls(m, ttl, k1, calls) == 1 ==> ({
            let id = hex_decoded(k1)->0;
            let after = challenges_after_calls(m, ttl, k1, calls);
            hex_decoded(k1) is Some && after.contains_key(id) && after[id].bound is Some
        }),
        (hex_decoded(k1) matches Some(id) && m.contains_key(id) && m[id].bound is Some) ==> (
            successful_calls(m, ttl, k1, calls) == 0
            && challenges_after_calls(m, ttl, k1, calls) == m),
    decreases calls.len(),
{
    if calls.len() > 0 {
        let rest = calls.drop_last();
        lemma_at_most_one_winner(m, ttl, k1, rest);
        lemma_bound_stays(m, ttl, k1, rest);
    }
}

/// Once a callback has bound the challenge, it stays bound to the same key
/// and no later callback succeeds.
proof fn lemma_bound_stays(
    m: Map<Seq<u8>, ChallengeView>,
    ttl: int,
    k1: Seq<char>,
    calls: Seq<CallbackCall>,
)
    ensures
        ({
            let id = hex_decoded(k1)->0;
            let after = challenges_after_calls(m, ttl, k1, calls);
            (hex_decoded(k1) is Some && after.contains_key(id) && after[id].bound is Some) ==> forall|c: CallbackCall|
                #![trigger callback_outcome(after, ttl, k1, c.0, c.1, c.2)]
                callback_outcome(after, ttl, k1, c.0, c.1, c.2) is Err && callback_challenges(after, ttl, k1, c.0, c.1, c.2) == after
        }),
{
}

/// A poll on a challenge that no key has bound answers that it is waiting,
/// never with a token.
pub proof fn lemma_waiting_before_bind(
    m: Map<Seq<u8>, ChallengeView>,
    ttl: int,
    id: Seq<u8>,
    created_at: int,
    now: int,
)
    requires
        m.contains_key(id),
        m[id] == fresh_challenge(created_at),
    ensures
        poll_key(m, ttl, hex_of(id), now) == Err::<Seq<u8>, AuthError>(AuthError::WaitingForLogin),
{
    crate::hexcode::lemma_hex_round_trip(id);
}

/// The public keys that have logged in at least once.
pub struct Users {
    keys: Vec<Vec<u8>>,
}

impl Users {
    pub closed spec fn view(&self) -> Set<Seq<u8>> {
        Set::new(|k: Seq<u8>| exists|i: int| 0 <= i < self.keys@.len() && self.keys@[i]@ == k)
    }

    /// No user yet.
    pub fn new() -> (r: Self)
        ensures
            r@ == Set::<Seq<u8>>::empty(),
    {
        let r = Users { keys: Vec::new() };
        assert(r@ =~= Set::<Seq<u8>>::empty());
        r
    }

    /// Whether `key` is a known user.
    pub fn contains(&self, key: &[u8]) -> (r: bool)
        ensures
            r == self@.contains(key@),
    {
        let mut i: usize = 0;
        while i < self.keys.len()
            invariant
                0 <= i <= self.keys@.len(),
                forall|j: int| 0 <= j < i ==> self.keys@[j]@ != key@,
            decreases self.keys@.len() - i,
        {
            if crate::bytes::bytes_equal(self.keys[i].as_slice(), key) {
                return true;
            }
            i = i + 1;
        }
        false
    }

    /// Adds `key` unless it is already known.
    pub fn upsert(&mut self, key: &[u8])
        ensures
            final(self)@ == old(self)@.insert(key@),
    {
        if self.contains(key) {
            assert(self@ =~= old(self)@.insert(key@));
            return;
        }
        let ghost before = self.keys@;
        self.keys.push(vstd::slice::slice_to_vec(key));
        assert forall|k: Seq<u8>| #[trigger] self@.contains(k) == old(self)@.insert(key@).contains(k) by {
            if k != key@ && self@.contains(k) {
                let i = choose|i: int| 0 <= i < self.keys@.len() && self.keys@[i]@ == k;
                assert(i < before.len());
                assert(before[i]@ == k);
            }
            if old(self)@.contains(k) {
                let i = choose|i: int| 0 <= i < before.len() && before[i]@ == k;
                assert(self.keys@[i]@ == k);
            }
            if k == key@ {
                assert(self.keys@[before.len() as int]@ == k);
            }
        }
        assert(self@ =~= old(self)@.insert(key@));
    }
}

/// The login service: challenges, known users, signing keys and the
/// callback URL that login links point to.
pub struct LoginService {
    challenges: ChallengeStore,
    users: Users,
    keys: Keys,
    callback_url: String,
}

impl LoginService {
    /// The challenges by id.
    pub closed spec fn challenges(&self) -> Map<Seq<u8>, ChallengeView> {
        self.challenges.view()
    }

    /// The public keys that have logged in.
    pub closed spec fn users(&self) -> Set<Seq<u8>> {
        self.users@
    }

    /// How long a challenge stays usable, in seconds.
    pub closed spec fn ttl(&self) -> int {
        self.challenges.ttl()
    }

    /// The secret that session tokens are signed with.
    pub closed spec fn secret(&self) -> Seq<u8> {
        self.keys.secret()
    }

    /// The URL that the signer calls back.
    pub closed spec fn callback_url(&self) -> Seq<char> {
        self.callback_url@
    }

    pub closed spec fn wf(&self) -> bool {
        self.challenges.wf() && self.callback_url@.len() > 0
    }

    /// A service with no challenge and no user. The callback URL must not be empty.
    pub fn new(callback_url: &str, secret: &[u8], ttl: i64) -> (r: Result<Self, ConfigError>)
        ensures
            callback_url@.len() == 0 <==> r is Err,
            r matches Ok(s) ==> s.wf() && s.challenges() == Map::<Seq<u8>, ChallengeView>::empty()
                && s.users() == Set::<Seq<u8>>::empty() && s.ttl() == ttl as int && s.secret() == secret@
                && s.callback_url() == callback_url@,
    {
        if callback_url.is_empty() {
            return Err(ConfigError::EmptyCallbackUrl);
        }
        Ok(LoginService {
            challenges: ChallengeStore::new(ttl),
            users: Users::new(),
            keys: Keys::new(secret),
            callback_url: String::from_str(callback_url),
        })
    }

    /// Starts a login with challenge `id` at `now`: stores the challenge
    /// unbound and returns its link and its hex.
    pub fn start_login_with(&mut self, id: &[u8], now: i64) -> (r: Result<LoginStart, StartError>)
        requires
            old(self).wf(),
            id@.len() == CHALLENGE_LEN,
        ensures
            final(self).wf(),
            final(self).ttl() == old(self).ttl(),
            final(self).secret() == old(self).secret(),
            final(self).callback_url() == old(self).callback_url(),
            final(self).users() == old(self).users(),
            old(self).challenges().contains_key(id@) <==> r is Err,
            r is Err ==> final(self).challenges() == old(self).challenges(),
            r matches Ok(s) ==> final(self).challenges() == old(self).challenges().insert(id@, fresh_challenge(now as int))
                && s.k1@ == hex_of(id@) && s.lnurl@ == login_link(id@, old(self).callback_url()),
    {
        if !self.challenges.insert(id, now) {
            return Err(StartError::Collision);
        }
        let lnurl = encode_login(id, self.callback_url.as_str()).unwrap();
        Ok(LoginStart { lnurl, k1: hex_encode(id) })
    }

    /// Starts a login with a fresh random challenge at `now`.
    pub fn start_login(&mut self, now: i64) -> (r: Result<LoginStart, StartError>)
        requires
            old(self).wf(),
        ensures
            final(self).wf(),
            final(self).ttl() == old(self).ttl(),
            final(self).secret() == old(self).secret(),
            final(self).callback_url() == old(self).callback_url(),
            final(self).users() == old(self).users(),
            r is Err ==> final(self).challenges() == old(self).challenges(),
            r is Err ==> exists|id: Seq<u8>| id.len() == CHALLENGE_LEN && #[trigger] old(self).challenges().contains_key(id),
            r matches Ok(s) ==> exists|id: Seq<u8>|
                #![trigger hex_of(id)]
                id.len() == CHALLENGE_LEN && !old(self).challenges().contains_key(id)
                    && final(self).challenges() == old(self).challenges().insert(id, fresh_challenge(now as int))
                    && s.k1@ == hex_of(id) && s.lnurl@ == login_link(id, old(self).callback_url()),
    {
        let id = match self.challenges.create(now) {
            Some(id) => id,
            None => { return Err(StartError::Collision); },
        };
        let lnurl = encode_login(id.as_slice(), self.callback_url.as_str()).unwrap();
        Ok(LoginStart { lnurl, k1: hex_encode(id.as_slice()) })
    }

    /// The signer's callback: `k1` is the challenge, `sig` a DER signature of
    /// it and `key` a compressed public key, all in hex. The signature is
    /// checked first; only then is the challenge bound to the key and the
    /// key recorded as a user. Any failure leaves the state as it was.
    pub fn verify(&mut self, k1: &str, sig: &str, key: &str, now: i64) -> (r: Result<(), CallbackError>)
        requires
            old(self).wf(),
        ensures
            final(self).wf(),
            final(self).ttl() == old(self).ttl(),
            final(self).secret() == old(self).secret(),
            final(self).callback_url() == old(self).callback_url(),
            r == callback_outcome(old(self).challenges(), old(self).ttl(), k1@, sig@, key@, now as int),
            final(self).challenges() == callback_challenges(old(self).challenges(), old(self).ttl(), k1@, sig@, key@, now as int),
            final(self).users() == callback_users(old(self).challenges(), old(self).users(), old(self).ttl(), k1@, sig@, key@, now as int),
    {
        let id = match hex_decode(k1) {
            Some(v) => v,
            None => { return Err(CallbackError::InvalidInput); },
        };
        let der = match hex_decode(sig) {
            Some(v) => v,
            None => { return Err(CallbackError::InvalidInput); },
        };
        let pk = match hex_decode(key) {
            Some(v) => v,
            None => { return Err(CallbackError::InvalidInput); },
        };
        match self.challenges.check(id.as_slice(), now) {
            BindResult::NotFound => { return Err(CallbackError::ChallengeNotFound); },
            BindResult::Expired => { return Err(CallbackError::ChallengeNotFound); },
            BindResult::AlreadyBound => { return Err(CallbackError::AlreadyBound); },
            BindResult::Bound => {},
        }
        proof {
            self.challenges.lemma_id_len(id@);
        }
        match verify_signature(id.as_slice(), der.as_slice(), pk.as_slice()) {
            Err(e) => { return Err(CallbackError::InvalidSignature(e)); },
            Ok(()) => {},
        }
        let _ = self.challenges.try_bind(id.as_slice(), pk.as_slice(), now);
        self.users.upsert(pk.as_slice());
        Ok(())
    }

    /// The polling client's question: a session token once a key is bound
    /// to challenge `k1` (in hex), else why not. Polling changes nothing, so
    /// it may be repeated.
    pub fn poll(&self, k1: &str, now: i64) -> (r: Result<Auth, AuthError>)
        requires
            self.wf(),
        ensures
            poll_key(self.challenges(), self.ttl(), k1@, now as int) matches Err(e) ==> r == Err::<Auth, AuthError>(e),
            poll_key(self.challenges(), self.ttl(), k1@, now as int) matches Ok(pk) ==> (r matches Ok(a)
                ==> a.access_token@ == session_token(pk, now as int, self.secret())),
            poll_key(self.challenges(), self.ttl(), k1@, now as int) is Ok ==> (r matches Err(e) ==> e == AuthError::IssueFailed),
            poll_key(self.challenges(), self.ttl(), k1@, now as int) is Ok ==> (r is Ok <==> now as int + crate::auth::SESSION_SECONDS <= i64::MAX),
    {
        let id = match hex_decode(k1) {
            Some(v) => v,
            None => { return Err(AuthError::InvalidToken); },
        };
        match self.challenges.lookup(id.as_slice(), now) {
            None => Err(AuthError::WaitingForLogin),
            Some(pk) => authorize(&self.keys, pk.as_slice(), now),
        }
    }

    /// Drops the challenges that are stale at `now`.
    pub fn purge_expired(&mut self, now: i64)
        requires
            old(self).wf(),
        ensures
            final(self).wf(),
            final(self).ttl() == old(self).ttl(),
            final(self).secret() == old(self).secret(),
            final(self).callback_url() == old(self).callback_url(),
            final(self).users() == old(self).users(),
            final(self).challenges() == unexpired(old(self).challenges(), old(self).ttl(), now as int),
    {
        self.challenges.purge_expired(now);
    }

    /// Reads a session token at `now` and returns the public key it names.
    pub fn authenticate(&self, token: &str, now: i64) -> (r: Result<Vec<u8>, AuthError>)
        ensures
            forall|pk: Seq<u8>, exp: i64|
                token@ == #[trigger] crate::auth::jwt_hs256(hex_of(pk), exp, self.secret()) ==> (if now <= exp {
                    r matches Ok(k) && k@ == pk
                } else {
                    r == Err::<Vec<u8>, AuthError>(AuthError::TokenExpired)
                }),
            r matches Ok(pk) ==> crate::auth::session_verdict(crate::auth::jwt_claims(token@, self.secret()), now as int)
                == Ok::<Seq<u8>, AuthError>(pk@),
            r matches Err(e) ==> crate::auth::session_verdict(crate::auth::jwt_claims(token@, self.secret()), now as int)
                == Err::<Seq<u8>, AuthError>(e),
    {
        self.keys.authenticate(token, now)
    }
}

} // verus!
