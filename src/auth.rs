//! Session tokens: HS256-signed JWTs whose subject is the hex of a public key
//! and which expire a day after they are issued.

use vstd::prelude::*;

use crate::hexcode::{hex_decode, hex_decoded, hex_encode, hex_of, lemma_hex_round_trip};

verus! {

/// How long a session token stays valid, in seconds.
pub const SESSION_SECONDS: i64 = 86400;

/// Why a session could not be had.
#[derive(Clone, Copy, Debug, PartialEq, Eq, Structural)]
pub enum AuthError {
    /// No key has signed the challenge yet.
    WaitingForLogin,
    /// The token or the challenge text cannot be read, or its signature is wrong.
    InvalidToken,
    /// The token is past its expiry time.
    TokenExpired,
    /// No token could be made.
    IssueFailed,
}

/// The claims that a session token carries.
pub struct Claims {
    /// The hex of the public key.
    pub sub: String,
    /// Expiry, in seconds since the Unix epoch.
    pub exp: i64,
}

/// The signing secret, given once at start-up.
pub struct Keys {
    secret: Vec<u8>,
}

/// A token as handed to the client.
pub struct Auth {
    pub access_token: String,
    pub token_type: String,
}

/// The token that jsonwebtoken makes for these claims under HS256 with this secret.
pub uninterp spec fn jwt_hs256(sub: Seq<char>, exp: i64, secret: Seq<u8>) -> Seq<char>;

/// The subject and expiry that jsonwebtoken reads from a token whose HS256
/// signature checks with this secret, if it carries both.
pub uninterp spec fn jwt_claims(token: Seq<char>, secret: Seq<u8>) -> Option<(Seq<char>, i64)>;

/// Relies on `jsonwebtoken::encode` with the default header (HS256) and
/// `EncodingKey::from_secret`, on claims written as a JSON object. It fails
/// only when the key's family differs from the header's algorithm or the
/// claims cannot be serialized, neither of which can happen here.
#[verifier::external_body]
fn jwt_encode(claims: &Claims, secret: &[u8]) -> (r: Option<String>)
    ensures
        r is Some,
        r matches Some(t) ==> t@ == jwt_hs256(claims.sub@, claims.exp, secret@),
{
    let mut object = serde_json::Map::new();
    object.insert("sub".to_string(), serde_json::Value::from(claims.sub.as_str()));
    object.insert("exp".to_string(), serde_json::Value::from(claims.exp));
    let key = jsonwebtoken::EncodingKey::from_secret(secret);
    jsonwebtoken::encode(&jsonwebtoken::Header::default(), &object, &key).ok()
}

/// Relies on `jsonwebtoken::decode` with `DecodingKey::from_secret`, HS256,
/// and no claim checked by the library: expiry is judged by the caller. A
/// token that `jsonwebtoken::encode` made with the same secret reads back as
/// the claims it was made from.
#[verifier::external_body]
fn jwt_decode(token: &str, secret: &[u8]) -> (r: Option<Claims>)
    ensures
        r matches Some(c) ==> jwt_claims(token@, secret@) == Some((c.sub@, c.exp)),
        r is None ==> jwt_claims(token@, secret@) is None,
        r is None ==> forall|sub: Seq<char>, exp: i64| #[trigger] jwt_hs256(sub, exp, secret@) != token@,
        r matches Some(c) ==> forall|sub: Seq<char>, exp: i64|
            #[trigger] jwt_hs256(sub, exp, secret@) == token@ ==> c.sub@ == sub && c.exp == exp,
{
    let mut validation = jsonwebtoken::Validation::new(jsonwebtoken::Algorithm::HS256);
    validation.validate_exp = false;
    validation.required_spec_claims.clear();
    let key = jsonwebtoken::DecodingKey::from_secret(secret);
    let data = jsonwebtoken::decode::<serde_json::Map<String, serde_json::Value>>(token, &key, &validation).ok()?;
    let sub = data.claims.get("sub")?.as_str()?.to_string();
    let exp = data.claims.get("exp")?.as_i64()?;
    Some(Claims { sub, exp })
}

/// Relies on `chrono::Utc::now`: the current time in seconds since the Unix epoch.
#[verifier::external_body]
fn unix_now() -> (r: i64) {
    chrono::Utc::now().timestamp()
}

/// The expiry of a token issued at `now`.
pub open spec fn expiry_of(now: int) -> int {
    now + SESSION_SECONDS
}

/// The token issued for `pubkey` at `now`.
pub open spec fn session_token(pubkey: Seq<u8>, now: int, secret: Seq<u8>) -> Seq<char> {
    jwt_hs256(hex_of(pubkey), expiry_of(now) as i64, secret)
}

/// What a session token read at `now` grants, given its claims: the public
/// key while the token is unexpired.
pub open spec fn session_verdict(claims: Option<(Seq<char>, i64)>, now: int) -> Result<Seq<u8>, AuthError> {
    match claims {
        None => Err(AuthError::InvalidToken),
        Some(c) => if c.1 < now {
            Err(AuthError::TokenExpired)
        } else {
            match hex_decoded(c.0) {
                None => Err(AuthError::InvalidToken),
                Some(pk) => Ok(pk),
            }
        },
    }
}

/// The text `Bearer`.
pub open spec fn bearer() -> Seq<char> {
    seq!['B', 'e', 'a', 'r', 'e', 'r']
}

impl Auth {
    /// A bearer token.
    pub fn new(access_token: String) -> (r: Self)
        ensures
            r.access_token@ == access_token@,
            r.token_type@ == bearer(),
    {
        proof {
            reveal_strlit("Bearer");
        }
        let token_type = String::from_str("Bearer");
        assert(token_type@ =~= bearer());
        Auth { access_token, token_type }
    }
}

impl Keys {
    /// The secret that tokens are signed with.
    pub closed spec fn secret(&self) -> Seq<u8> {
        self.secret@
    }

    /// The secret, for signing.
    pub fn secret_bytes(&self) -> (r: &[u8])
        ensures
            r@ == self.secret(),
    {
        self.secret.as_slice()
    }

    /// Keys from a signing secret.
    pub fn new(secret: &[u8]) -> (r: Self)
        ensures
            r.secret() == secret@,
    {
        Keys { secret: vstd::slice::slice_to_vec(secret) }
    }

    /// Issues the session token for `pubkey` at the current time.
    pub fn issue(&self, pubkey: &[u8]) -> (r: Result<Auth, AuthError>)
        ensures
            r matches Ok(a) ==> exists|now: int| a.access_token@ == #[trigger] session_token(pubkey@, now, self.secret()),
            r matches Err(e) ==> e == AuthError::IssueFailed,
            r is Err ==> exists|now: i64| #[trigger] expiry_of(now as int) > i64::MAX,
    {
        let now = unix_now();
        authorize(self, pubkey, now)
    }

    /// Reads a session token at `now` and returns the public key it was
    /// issued for. A token is accepted up to and including its expiry second.
    pub fn authenticate(&self, token: &str, now: i64) -> (r: Result<Vec<u8>, AuthError>)
        ensures
            r matches Ok(pk) ==> session_verdict(jwt_claims(token@, self.secret()), now as int) == Ok::<Seq<u8>, AuthError>(pk@),
            r matches Err(e) ==> session_verdict(jwt_claims(token@, self.secret()), now as int) == Err::<Seq<u8>, AuthError>(e),
            forall|pk: Seq<u8>, exp: i64|
                token@ == #[trigger] jwt_hs256(hex_of(pk), exp, self.secret()) ==> (if now <= exp {
                    r matches Ok(k) && k@ == pk
                } else {
                    r == Err::<Vec<u8>, AuthError>(AuthError::TokenExpired)
                }),
            forall|sub: Seq<char>, exp: i64|
                token@ == #[trigger] jwt_hs256(sub, exp, self.secret()) ==> (if now <= exp {
                    (r is Ok <==> hex_decoded(sub) is Some) && (r matches Ok(k) ==> hex_decoded(sub) == Some(k@))
                } else {
                    r == Err::<Vec<u8>, AuthError>(AuthError::TokenExpired)
                }),
    {
        let claims = match jwt_decode(token, self.secret.as_slice()) {
            Some(c) => c,
            None => { return Err(AuthError::InvalidToken); },
        };
        proof {
            assert forall|pk: Seq<u8>, exp: i64|
                token@ == #[trigger] jwt_hs256(hex_of(pk), exp, self.secret()) implies hex_decoded(claims.sub@) == Some(pk) by {
                lemma_hex_round_trip(pk);
            }
        }
        if claims.exp < now {
            return Err(AuthError::TokenExpired);
        }
        match hex_decode(claims.sub.as_str()) {
            Some(pk) => Ok(pk),
            None => Err(AuthError::InvalidToken),
        }
    }
}

/// Issues the session token for `pubkey` at `now`: subject the hex of
/// the key, expiry a day later. Fails only if the expiry does not fit in an
/// `i64`.
pub fn authorize(keys: &Keys, pubkey: &[u8], now: i64) -> (r: Result<Auth, AuthError>)
    ensures
        r matches Ok(a) ==> a.access_token@ == session_token(pubkey@, now as int, keys.secret())
            && a.token_type@ == bearer() && expiry_of(now as int) <= i64::MAX,
        r matches Err(e) ==> e == AuthError::IssueFailed,
        r is Err <==> expiry_of(now as int) > i64::MAX,
{
    let exp = match now.checked_add(SESSION_SECONDS) {
        Some(e) => e,
        None => { return Err(AuthError::IssueFailed); },
    };
    let claims = Claims { sub: hex_encode(pubkey), exp };
    match jwt_encode(&claims, keys.secret_bytes()) {
        Some(token) => Ok(Auth::new(token)),
        None => Err(AuthError::IssueFailed),
    }
}

} // verus!
