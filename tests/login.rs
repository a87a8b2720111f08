use cachet::auth::{authorize, AuthError, Keys, SESSION_SECONDS};
use cachet::challenge::{BindResult, ChallengeStore};
use cachet::encoder::{build_login_uri, decode_login, encode_login, LinkError};
use cachet::protocol::{CallbackError, ConfigError, LoginService, StartError};
use cachet::signature::{verify_signature, SignatureError};

const NOW: i64 = 1_700_000_000;
const TTL: i64 = 300;
const SECRET: &[u8] = b"test signing secret";
const CALLBACK: &str = "https://example.com/api/auth";

fn signer(seed: u8) -> secp256k1::SecretKey {
    secp256k1::SecretKey::from_slice(&[seed; 32]).unwrap()
}

fn pubkey_hex(sk: &secp256k1::SecretKey) -> String {
    let secp = secp256k1::Secp256k1::new();
    hex::encode(secp256k1::PublicKey::from_secret_key(&secp, sk).serialize())
}

fn sign_hex(challenge: &[u8], sk: &secp256k1::SecretKey) -> String {
    let secp = secp256k1::Secp256k1::new();
    let msg = secp256k1::Message::from_slice(challenge).unwrap();
    hex::encode(secp.sign_ecdsa(&msg, sk).serialize_der())
}

fn service() -> LoginService {
    LoginService::new(CALLBACK, SECRET, TTL).ok().unwrap()
}

fn subject_of(service: &LoginService, token: &str, now: i64) -> String {
    hex::encode(service.authenticate(token, now).unwrap())
}

#[test]
fn end_to_end_login_and_second_signer_refused() {
    let mut service = service();
    let start = service.start_login(NOW).unwrap();
    let challenge = hex::decode(&start.k1).unwrap();
    assert_eq!(challenge.len(), 32);

    let sk = signer(7);
    assert_eq!(service.verify(&start.k1, &sign_hex(&challenge, &sk), &pubkey_hex(&sk), NOW + 1), Ok(()));

    let auth = service.poll(&start.k1, NOW + 2).ok().unwrap();
    assert_eq!(auth.token_type, "Bearer");
    assert_eq!(subject_of(&service, &auth.access_token, NOW + 2), pubkey_hex(&sk));

    let sk2 = signer(9);
    assert_eq!(
        service.verify(&start.k1, &sign_hex(&challenge, &sk2), &pubkey_hex(&sk2), NOW + 3),
        Err(CallbackError::AlreadyBound)
    );
    let later = service.poll(&start.k1, NOW + 4).ok().unwrap();
    assert_eq!(subject_of(&service, &later.access_token, NOW + 4), pubkey_hex(&sk));
}

#[test]
fn bad_signature_leaves_challenge_unbound() {
    let mut service = service();
    let id = [3u8; 32];
    let start = service.start_login_with(&id, NOW).ok().unwrap();
    let sk = signer(7);
    let other = signer(8);
    assert_eq!(
        service.verify(&start.k1, &sign_hex(&id, &other), &pubkey_hex(&sk), NOW + 1),
        Err(CallbackError::InvalidSignature(SignatureError::Mismatch))
    );
    assert_eq!(service.poll(&start.k1, NOW + 1).err(), Some(AuthError::WaitingForLogin));
    assert_eq!(service.verify(&start.k1, &sign_hex(&id, &sk), &pubkey_hex(&sk), NOW + 2), Ok(()));
}

#[test]
fn malformed_signature_and_key_are_refused() {
    let mut service = service();
    let id = [4u8; 32];
    let start = service.start_login_with(&id, NOW).ok().unwrap();
    let sk = signer(7);
    assert_eq!(
        service.verify(&start.k1, "3001", &pubkey_hex(&sk), NOW),
        Err(CallbackError::InvalidSignature(SignatureError::MalformedSignature))
    );
    assert_eq!(
        service.verify(&start.k1, &sign_hex(&id, &sk), "02ff", NOW),
        Err(CallbackError::InvalidSignature(SignatureError::MalformedKey))
    );
    assert_eq!(
        service.verify("zz", &sign_hex(&id, &sk), &pubkey_hex(&sk), NOW),
        Err(CallbackError::InvalidInput)
    );
    assert_eq!(service.poll(&start.k1, NOW).err(), Some(AuthError::WaitingForLogin));
}

#[test]
fn unknown_and_stale_challenges_are_not_found() {
    let mut service = service();
    let id = [5u8; 32];
    let start = service.start_login_with(&id, NOW).ok().unwrap();
    let sk = signer(7);
    let unknown = hex::encode([6u8; 32]);
    assert_eq!(
        service.verify(&unknown, &sign_hex(&[6u8; 32], &sk), &pubkey_hex(&sk), NOW),
        Err(CallbackError::ChallengeNotFound)
    );
    assert_eq!(
        service.verify(&start.k1, &sign_hex(&id, &sk), &pubkey_hex(&sk), NOW + TTL),
        Err(CallbackError::ChallengeNotFound)
    );
}

#[test]
fn poll_waits_before_bind_and_repeats_after() {
    let mut service = service();
    let id = [8u8; 32];
    let start = service.start_login_with(&id, NOW).ok().unwrap();
    assert_eq!(service.poll(&start.k1, NOW).err(), Some(AuthError::WaitingForLogin));
    assert_eq!(service.poll("not hex", NOW).err(), Some(AuthError::InvalidToken));
    let sk = signer(2);
    service.verify(&start.k1, &sign_hex(&id, &sk), &pubkey_hex(&sk), NOW).unwrap();
    for i in 0..3 {
        let auth = service.poll(&start.k1, NOW + i).ok().unwrap();
        assert_eq!(subject_of(&service, &auth.access_token, NOW + i), pubkey_hex(&sk));
    }
}

#[test]
fn colliding_challenge_is_refused() {
    let mut service = service();
    let id = [1u8; 32];
    assert!(service.start_login_with(&id, NOW).is_ok());
    assert_eq!(service.start_login_with(&id, NOW).err(), Some(StartError::Collision));
}

#[test]
fn empty_callback_url_is_refused() {
    assert_eq!(LoginService::new("", SECRET, TTL).err(), Some(ConfigError::EmptyCallbackUrl));
}

#[test]
fn store_binds_once() {
    let mut store = ChallengeStore::new(TTL);
    let id = [9u8; 32];
    assert!(store.insert(&id, NOW));
    assert!(!store.insert(&id, NOW));
    assert_eq!(store.lookup(&id, NOW), None);
    assert_eq!(store.try_bind(&id, b"first", NOW), BindResult::Bound);
    assert_eq!(store.try_bind(&id, b"second", NOW), BindResult::AlreadyBound);
    assert_eq!(store.lookup(&id, NOW), Some(b"first".to_vec()));
    assert_eq!(store.try_bind(&[0u8; 32], b"first", NOW), BindResult::NotFound);
    assert_eq!(store.try_bind(&id, b"second", NOW + TTL), BindResult::Expired);
    assert_eq!(store.lookup(&id, NOW + TTL), None);
    assert_eq!(store.check(&id, NOW), BindResult::AlreadyBound);
}

#[test]
fn token_round_trip_and_expiry() {
    let keys = Keys::new(SECRET);
    let pk = vec![2u8, 0xab, 0xcd];
    let auth = authorize(&keys, &pk, NOW).ok().unwrap();
    let t = NOW + SESSION_SECONDS;
    assert_eq!(keys.authenticate(&auth.access_token, NOW).unwrap(), pk);
    assert_eq!(keys.authenticate(&auth.access_token, t - 1).unwrap(), pk);
    assert_eq!(keys.authenticate(&auth.access_token, t + 1).err(), Some(AuthError::TokenExpired));
}

#[test]
fn token_from_another_secret_is_invalid() {
    let keys = Keys::new(SECRET);
    let other = Keys::new(b"another secret");
    let auth = authorize(&other, &[1u8, 2, 3], NOW).ok().unwrap();
    assert_eq!(keys.authenticate(&auth.access_token, NOW).err(), Some(AuthError::InvalidToken));
    assert_eq!(keys.authenticate("not.a.token", NOW).err(), Some(AuthError::InvalidToken));
}

#[test]
fn issued_token_carries_hex_subject() {
    let keys = Keys::new(SECRET);
    let auth = keys.issue(&[0x0f, 0xa0]).ok().unwrap();
    let mut validation = jsonwebtoken::Validation::new(jsonwebtoken::Algorithm::HS256);
    validation.validate_exp = false;
    let data = jsonwebtoken::decode::<serde_json::Value>(
        &auth.access_token,
        &jsonwebtoken::DecodingKey::from_secret(SECRET),
        &validation,
    )
    .unwrap();
    assert_eq!(data.claims["sub"], "0fa0");
}

#[test]
fn link_decodes_to_callback_uri() {
    let id = [0xabu8; 32];
    let link = encode_login(&id, CALLBACK).unwrap();
    assert!(link.starts_with("lnurl1"));
    let uri = decode_login(&link).unwrap();
    assert_eq!(uri, format!("{}?tag=login&k1={}", CALLBACK, hex::encode(id)));
    assert_eq!(uri, build_login_uri(CALLBACK, &id));
    let (hrp, data, _) = bech32::decode(&link).unwrap();
    assert_eq!(hrp, "lnurl");
    let bytes = <Vec<u8> as bech32::FromBase32>::from_base32(&data).unwrap();
    assert_eq!(String::from_utf8(bytes).unwrap(), uri);
}

#[test]
fn link_errors() {
    assert_eq!(encode_login(&[0u8; 32], "").err(), Some(LinkError::EmptyUrl));
    assert_eq!(decode_login("not bech32").err(), Some(LinkError::NotBech32));
    let other = bech32::encode("lnbc", bech32::ToBase32::to_base32(&b"x".to_vec()), bech32::Variant::Bech32).unwrap();
    assert_eq!(decode_login(&other).err(), Some(LinkError::WrongPrefix));
}

#[test]
fn signature_checks_against_raw_challenge() {
    let sk = signer(5);
    let challenge = [0x42u8; 32];
    let sig = hex::decode(sign_hex(&challenge, &sk)).unwrap();
    let key = hex::decode(pubkey_hex(&sk)).unwrap();
    assert_eq!(verify_signature(&challenge, &sig, &key), Ok(()));
    assert_eq!(verify_signature(&[0x43u8; 32], &sig, &key), Err(SignatureError::Mismatch));
}

#[test]
fn purge_drops_only_stale_challenges() {
    let mut store = ChallengeStore::new(TTL);
    let old = [1u8; 32];
    let fresh = [2u8; 32];
    assert!(store.insert(&old, NOW));
    assert!(store.insert(&fresh, NOW + 200));
    store.purge_expired(NOW + TTL);
    assert_eq!(store.check(&old, NOW), BindResult::NotFound);
    assert_eq!(store.check(&fresh, NOW + TTL), BindResult::Bound);
}

#[test]
fn service_purge_keeps_fresh_logins() {
    let mut service = service();
    let old = [1u8; 32];
    let fresh = [2u8; 32];
    let a = service.start_login_with(&old, NOW).ok().unwrap();
    let b = service.start_login_with(&fresh, NOW + 100).ok().unwrap();
    service.purge_expired(NOW + TTL + 50);
    let sk = signer(4);
    assert_eq!(
        service.verify(&a.k1, &sign_hex(&old, &sk), &pubkey_hex(&sk), NOW),
        Err(CallbackError::ChallengeNotFound)
    );
    assert_eq!(service.verify(&b.k1, &sign_hex(&fresh, &sk), &pubkey_hex(&sk), NOW + TTL + 50), Ok(()));
}

#[test]
fn store_creates_random_challenges() {
    let mut store = ChallengeStore::new(TTL);
    let a = store.create(NOW).unwrap();
    let b = store.create(NOW).unwrap();
    assert_eq!(a.len(), 32);
    assert_ne!(a, b);
    assert_eq!(store.check(&a, NOW), BindResult::Bound);
    assert_eq!(store.check(&b, NOW + 1), BindResult::Bound);
}

#[test]
fn expiry_past_the_time_range_is_refused() {
    let keys = Keys::new(SECRET);
    assert_eq!(authorize(&keys, &[1u8], i64::MAX).err(), Some(AuthError::IssueFailed));
    assert!(authorize(&keys, &[1u8], i64::MAX - SESSION_SECONDS).is_ok());
}
