//! The login link: a callback URI that carries the challenge, written in
//! bech32 under the `lnurl` prefix so that it can be shown as a scannable code.

use bech32::{FromBase32, ToBase32};
use vstd::prelude::*;
use vstd::utf8::{decode_utf8, encode_utf8, encode_utf8_decode_utf8, encode_utf8_valid_utf8, valid_utf8};

use crate::hexcode::{hex_encode, hex_of};

verus! {

/// The bech32 text for `payload` under the prefix `hrp`, as the bech32 crate writes it.
pub uninterp spec fn bech32_text(hrp: Seq<char>, payload: Seq<u8>) -> Seq<char>;

/// The prefix and the payload bytes that a bech32 text holds, if it is one.
pub uninterp spec fn bech32_parts(text: Seq<char>) -> Option<(Seq<char>, Seq<u8>)>;

/// Whether `hrp` may prefix a bech32 text: 1 to 83 printable ASCII
/// characters, not both upper and lower case letters.
pub open spec fn hrp_valid(hrp: Seq<char>) -> bool {
    &&& 1 <= hrp.len() <= 83
    &&& forall|i: int| 0 <= i < hrp.len() ==> 33 <= #[trigger] (hrp[i] as u32) <= 126
    &&& !((exists|i: int| 0 <= i < hrp.len() && 'a' <= #[trigger] hrp[i] <= 'z')
        && (exists|i: int| 0 <= i < hrp.len() && 'A' <= #[trigger] hrp[i] <= 'Z'))
}

/// Whether `hrp` has no upper case letter.
pub open spec fn hrp_lower(hrp: Seq<char>) -> bool {
    forall|i: int| 0 <= i < hrp.len() ==> !('A' <= #[trigger] hrp[i] <= 'Z')
}

/// Relies on `ToBase32::to_base32` for bytes and `bech32::encode` with the
/// original bech32 checksum: it fails only on a prefix that `check_hrp` refuses.
#[verifier::external_body]
fn bech32_encode(hrp: &str, payload: &[u8]) -> (r: Option<String>)
    ensures
        r is Some <==> hrp_valid(hrp@),
        r matches Some(s) ==> s@ == bech32_text(hrp@, payload@),
{
    bech32::encode(hrp, payload.to_base32(), bech32::Variant::Bech32).ok()
}

/// A bech32 text's prefix and payload bytes.
type Bech32Parts = (String, Vec<u8>);

/// Relies on `bech32::decode` and `FromBase32` for bytes. A text written by
/// `bech32::encode` under a lower case prefix reads back as that prefix and payload.
#[verifier::external_body]
fn bech32_decode(text: &str) -> (r: Option<Bech32Parts>)
    ensures
        r matches Some(p) ==> bech32_parts(text@) == Some((p.0@, p.1@)),
        r is None ==> bech32_parts(text@) is None,
        r is None ==> forall|hrp: Seq<char>, payload: Seq<u8>|
            !(#[trigger] bech32_text(hrp, payload) == text@ && hrp_valid(hrp) && hrp_lower(hrp)),
        r matches Some(p) ==> forall|hrp: Seq<char>, payload: Seq<u8>|
            #[trigger] bech32_text(hrp, payload) == text@ && hrp_valid(hrp) && hrp_lower(hrp)
                ==> p.0@ == hrp && p.1@ == payload,
{
    let (hrp, data, _variant) = bech32::decode(text).ok()?;
    let payload = Vec::<u8>::from_base32(&data).ok()?;
    Some((hrp, payload))
}

/// Relies on `String::from_utf8`: it accepts exactly valid UTF-8.
#[verifier::external_body]
fn string_from_utf8(bytes: Vec<u8>) -> (r: Option<String>)
    ensures
        r is Some <==> valid_utf8(bytes@),
        r matches Some(s) ==> s@ == decode_utf8(bytes@),
{
    String::from_utf8(bytes).ok()
}

/// The prefix of a login link.
pub open spec fn lnurl_hrp() -> Seq<char> {
    seq!['l', 'n', 'u', 'r', 'l']
}

/// The query that follows the callback URL, up to the challenge.
pub open spec fn login_query() -> Seq<char> {
    seq!['?', 't', 'a', 'g', '=', 'l', 'o', 'g', 'i', 'n', '&', 'k', '1', '=']
}

/// The callback URI for a challenge: `<url>?tag=login&k1=<hex(id)>`.
pub open spec fn login_uri(url: Seq<char>, id: Seq<u8>) -> Seq<char> {
    url + login_query() + hex_of(id)
}

/// The login link for a challenge: the callback URI's UTF-8 bytes in bech32.
pub open spec fn login_link(id: Seq<u8>, url: Seq<char>) -> Seq<char> {
    bech32_text(lnurl_hrp(), encode_utf8(login_uri(url, id)))
}

/// Why a login link could not be made or read.
#[derive(Clone, Copy, Debug, PartialEq, Eq, Structural)]
pub enum LinkError {
    EmptyUrl,
    NotBech32,
    WrongPrefix,
    NotText,
}

/// What reading a login link gives.
pub open spec fn read_link(text: Seq<char>) -> Result<Seq<char>, LinkError> {
    match bech32_parts(text) {
        None => Err(LinkError::NotBech32),
        Some(parts) => if parts.0 != lnurl_hrp() {
            Err(LinkError::WrongPrefix)
        } else if !valid_utf8(parts.1) {
            Err(LinkError::NotText)
        } else {
            Ok(decode_utf8(parts.1))
        },
    }
}

fn lnurl_prefix() -> (r: &'static str)
    ensures
        r@ == lnurl_hrp(),
{
    proof {
        reveal_strlit("lnurl");
    }
    let r = "lnurl";
    assert(r@ =~= lnurl_hrp());
    r
}

/// Builds the callback URI `<url>?tag=login&k1=<hex(id)>`.
pub fn build_login_uri(url: &str, id: &[u8]) -> (r: String)
    ensures
        r@ == login_uri(url@, id@),
{
    let mut uri = String::from_str(url);
    proof {
        reveal_strlit("?tag=login&k1=");
    }
    let query = "?tag=login&k1=";
    assert(query@ =~= login_query());
    uri.append(query);
    let hex = hex_encode(id);
    uri.append(hex.as_str());
    uri
}

/// The login link for challenge `id` whose callback is `url`; an empty URL
/// is refused.
pub fn encode_login(id: &[u8], url: &str) -> (r: Result<String, LinkError>)
    ensures
        url@.len() == 0 <==> r == Err::<String, LinkError>(LinkError::EmptyUrl),
        url@.len() > 0 ==> r is Ok,
        r matches Ok(s) ==> s@ == login_link(id@, url@),
{
    if url.is_empty() {
        return Err(LinkError::EmptyUrl);
    }
    let uri = build_login_uri(url, id);
    let hrp = lnurl_prefix();
    proof {
        assert(hrp_valid(hrp@)) by {
            assert(!(exists|i: int| 0 <= i < hrp@.len() && 'A' <= #[trigger] hrp@[i] <= 'Z'));
        }
    }
    match bech32_encode(hrp, uri.as_str().as_bytes()) {
        Some(s) => Ok(s),
        None => Err(LinkError::NotBech32),
    }
}

/// Reads a login link back into its callback URI. A link made by
/// `encode_login` gives back the URI it was made from, which ends in
/// `&k1=` and the challenge in hex.
pub fn decode_login(text: &str) -> (r: Result<String, LinkError>)
    ensures
        r matches Ok(u) ==> read_link(text@) == Ok::<Seq<char>, LinkError>(u@),
        r matches Err(e) ==> read_link(text@) == Err::<Seq<char>, LinkError>(e),
        forall|id: Seq<u8>, url: Seq<char>|
            text@ == #[trigger] login_link(id, url) ==> (r matches Ok(u) && u@ == login_uri(url, id)),
{
    proof {
        assert(hrp_valid(lnurl_hrp())) by {
            assert(!(exists|i: int| 0 <= i < lnurl_hrp().len() && 'A' <= #[trigger] lnurl_hrp()[i] <= 'Z'));
        }
        assert(hrp_lower(lnurl_hrp()));
        broadcast use encode_utf8_decode_utf8, encode_utf8_valid_utf8;
    }
    match bech32_decode(text) {
        None => Err(LinkError::NotBech32),
        Some((hrp, payload)) => {
            let expected = String::from_str(lnurl_prefix());
            if hrp != expected {
                return Err(LinkError::WrongPrefix);
            }
            match string_from_utf8(payload) {
                None => Err(LinkError::NotText),
                Some(uri) => Ok(uri),
            }
        },
    }
}

} // verus!
