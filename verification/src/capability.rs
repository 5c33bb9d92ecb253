//! Capability registry and verifier.
//!
//! Grants are issued as short-lived Ed25519-signed JWTs bound to one
//! execution and one capability, and can be revoked. A verifier holds only
//! the public key: it checks the signature, the expiry, revocation and that
//! the claims match the grant.
use vstd::prelude::*;
use base64::Engine;
use ed25519_dalek::{Signer, Verifier};
use rand::TryRngCore;
use vstd::utf8::{decode_utf8, encode_utf8, valid_utf8};
use vstd::string::StringSliceAdditionalSpecFns;
use crate::claims::{
    claims_json, header_json, opt_view, parse_claims, read_claims, write_claims, write_header,
    lemma_claims_round_trip, CapabilityClaims, ClaimsView, JwtHeader,
};
use crate::text::{
    chars_of, lemma_split_char_join, lemma_split_char_single, owned, push_char, push_str, split_by,
    split_char, str_eq, string_views, trim, trim_str, is_ws, lemma_trim_no_ws,
};
use crate::types::capability::{
    capability_name, clone_capability, clone_grant, Capability, CapabilityGrant, CapabilityView, GrantAuthority,
    GrantView,
};

verus! {

broadcast use vstd::string::group_string_axioms;

/// Seconds a capability token stays valid.
pub const CAPABILITY_TOKEN_TTL_SECONDS: i64 = 3600;

// ─── Outside functions ──────────────────────────────────────────────────────

/// What `base64::engine::general_purpose::URL_SAFE_NO_PAD.encode` makes of
/// some bytes.
pub uninterp spec fn b64url(bytes: Seq<u8>) -> Seq<char>;

/// What `URL_SAFE_NO_PAD.decode` makes of a text: the bytes, or the text
/// of the error.
pub uninterp spec fn b64url_decode(text: Seq<char>) -> Result<Seq<u8>, Seq<char>>;

/// `URL_SAFE_NO_PAD.encode`. The result is named `b64url`; decoding it gives
/// the bytes back, and it uses only the URL-safe alphabet, so it holds no
/// `.`.
#[verifier::external_body]
fn b64_encode(bytes: &[u8]) -> (r: String)
    ensures
        r@ == b64url(bytes@),
        b64url_decode(r@) is Ok && b64url_decode(r@)->Ok_0 == bytes@,
        !r@.contains('.'),
{
    base64::engine::general_purpose::URL_SAFE_NO_PAD.encode(bytes)
}

/// `URL_SAFE_NO_PAD.decode`, its error shown as text. Both outcomes are
/// given by the name `b64url_decode`.
#[verifier::external_body]
fn b64_decode(text: &str) -> (r: Result<Vec<u8>, String>)
    ensures
        match b64url_decode(text@) {
            Ok(b) => r is Ok && r->Ok_0@ == b,
            Err(e) => r is Err && r->Err_0@ == e,
        },
{
    match base64::engine::general_purpose::URL_SAFE_NO_PAD.decode(text) {
        Ok(b) => Ok(b),
        Err(e) => Err(e.to_string()),
    }
}

/// The public key of an Ed25519 signing key with the given seed.
pub uninterp spec fn ed25519_public(seed: Seq<u8>) -> Seq<u8>;

/// The Ed25519 signature that the key with the given seed makes of a
/// message.
pub uninterp spec fn ed25519_sign(seed: Seq<u8>, msg: Seq<u8>) -> Seq<u8>;

/// What checking a signature of a message with a public key answers: `Ok`,
/// or the text of the error.
pub uninterp spec fn ed25519_check(public: Seq<u8>, msg: Seq<u8>, sig: Seq<u8>) -> Result<(), Seq<char>>;

/// Whether `VerifyingKey::from_bytes` accepts some bytes as a public key.
pub uninterp spec fn ed25519_key_valid(public: Seq<u8>) -> bool;

/// `SigningKey::from_bytes(seed).verifying_key().to_bytes()`: named
/// `ed25519_public`. It is the compressed form of a curve point, which
/// `VerifyingKey::from_bytes` accepts again.
#[verifier::external_body]
fn public_key_of(seed: &[u8; 32]) -> (r: [u8; 32])
    ensures
        r@ == ed25519_public(seed@),
        ed25519_key_valid(r@),
{
    ed25519_dalek::SigningKey::from_bytes(seed).verifying_key().to_bytes()
}

/// `Signer::sign` of `SigningKey::from_bytes(seed)`: named `ed25519_sign`.
/// A signature that a key made checks with that key's public key.
#[verifier::external_body]
fn sign_message(seed: &[u8; 32], msg: &[u8]) -> (r: [u8; 64])
    ensures
        r@ == ed25519_sign(seed@, msg@),
        ed25519_check(ed25519_public(seed@), msg@, r@) is Ok,
{
    ed25519_dalek::SigningKey::from_bytes(seed).sign(msg).to_bytes()
}

/// `VerifyingKey::from_bytes(public)` and then `Verifier::verify` of the
/// message and the signature made by `Signature::from_slice`, an error
/// shown as text: named `ed25519_check`.
#[verifier::external_body]
fn check_signature(public: &[u8; 32], msg: &[u8], sig: &[u8]) -> (r: Result<(), String>)
    requires
        sig@.len() == 64,
    ensures
        match ed25519_check(public@, msg@, sig@) {
            Ok(()) => r is Ok,
            Err(e) => r is Err && r->Err_0@ == e,
        },
{
    let key = match ed25519_dalek::VerifyingKey::from_bytes(public) {
        Ok(k) => k,
        Err(e) => return Err(e.to_string()),
    };
    let signature = match ed25519_dalek::Signature::from_slice(sig) {
        Ok(s) => s,
        Err(e) => return Err(e.to_string()),
    };
    match key.verify(msg, &signature) {
        Ok(()) => Ok(()),
        Err(e) => Err(e.to_string()),
    }
}

/// `String::from_utf8`: the text when the bytes are valid UTF-8.
#[verifier::external_body]
pub(crate) fn utf8_text(bytes: Vec<u8>) -> (r: Option<String>)
    ensures
        r is Some == valid_utf8(bytes@),
        r is Some ==> r->Some_0@ == decode_utf8(bytes@),
{
    String::from_utf8(bytes).ok()
}

/// `str::as_bytes`, copied into a vector.
pub(crate) fn bytes_of(s: &str) -> (r: Vec<u8>)
    ensures
        r@ == encode_utf8(s@),
{
    let b = s.as_bytes();
    let mut v: Vec<u8> = Vec::new();
    let mut i: usize = 0;
    while i < b.len()
        invariant
            i <= b@.len(),
            v@ == b@.take(i as int),
        decreases b@.len() - i,
    {
        v.push(b[i]);
        proof { assert(b@.take(i + 1) =~= v@); }
        i = i + 1;
    }
    assert(b@.take(b@.len() as int) =~= b@);
    v
}

/// `UNIX_EPOCH.elapsed()`: the seconds and nanoseconds since 1970 by the
/// system clock, none when the clock reads earlier. What it reads depends
/// on the machine; only the range of the nanoseconds is claimed.
#[verifier::external_body]
fn clock_since_epoch() -> (r: Option<(u64, u32)>)
    ensures
        r is Some ==> r->Some_0.1 < 1_000_000_000,
{
    std::time::UNIX_EPOCH.elapsed().ok().map(|d| (d.as_secs(), d.subsec_nanos()))
}

/// The refusal when the clock cannot be read.
pub open spec fn clock_error() -> Seq<char> {
    "system clock reads before 1970"@
}

pub(crate) fn clock_error_text() -> (r: String)
    ensures
        r@ == clock_error(),
{
    proof { reveal_strlit("system clock reads before 1970"); }
    owned("system clock reads before 1970")
}

/// The current unix time, none when the system clock reads before 1970 or
/// 2^53 seconds after it.
pub(crate) fn now_timestamp() -> (r: Option<i64>)
    ensures
        r is Some ==> 0 <= r->Some_0 < 0x20_0000_0000_0000,
{
    match clock_since_epoch() {
        Some((secs, _)) => if secs < 0x20_0000_0000_0000 { Some(secs as i64) } else { None },
        None => None,
    }
}

/// What `DateTime::<Utc>::from_timestamp(secs, nanos)` written by
/// `to_rfc3339` gives: the RFC 3339 text of the instant, or none when chrono
/// cannot represent it.
pub uninterp spec fn rfc3339_text(secs: i64, nanos: u32) -> Option<Seq<char>>;

/// A time stamp that the clock could have given: the RFC 3339 text of an
/// instant at or after 1970.
pub open spec fn clock_text(ts: Seq<char>) -> bool {
    exists|secs: i64, nanos: u32| 0 <= secs && nanos < 1_000_000_000 && #[trigger] rfc3339_text(secs, nanos) == Some(ts)
}

/// `DateTime::<Utc>::from_timestamp(secs, nanos)` written by `to_rfc3339`,
/// named `rfc3339_text`.
#[verifier::external_body]
fn rfc3339_of(secs: i64, nanos: u32) -> (r: Option<String>)
    ensures
        match rfc3339_text(secs, nanos) {
            Some(t) => r is Some && r->Some_0@ == t,
            None => r is None,
        },
{
    chrono::DateTime::from_timestamp(secs, nanos).map(|t| t.to_rfc3339())
}

/// The current time as RFC 3339 text, none when the clock cannot be read or
/// the instant cannot be written.
pub(crate) fn now_rfc3339() -> (r: Option<String>)
    ensures
        r is Some ==> clock_text(r->Some_0@),
{
    match clock_since_epoch() {
        Some((secs, nanos)) => if secs < 0x20_0000_0000_0000 { rfc3339_of(secs as i64, nanos) } else { None },
        None => None,
    }
}

/// A lower-case hexadecimal digit.
pub open spec fn is_lower_hex_digit(c: char) -> bool {
    ('0' <= c && c <= '9') || ('a' <= c && c <= 'f')
}

/// A version 4 UUID in the hyphenated lower-case form `8-4-4-4-12`: the
/// version digit is `4` and the variant digit one of `8`, `9`, `a`, `b`.
pub open spec fn is_uuid_v4_text(s: Seq<char>) -> bool {
    &&& s.len() == 36
    &&& forall|i: int| 0 <= i < 36 ==> (if i == 8 || i == 13 || i == 18 || i == 23 {
        s[i] == '-'
    } else {
        is_lower_hex_digit(s[i])
    })
    &&& s[14] == '4'
    &&& (s[19] == '8' || s[19] == '9' || s[19] == 'a' || s[19] == 'b')
}

/// `OsRng::try_fill_bytes` of 16 bytes: random bytes from the operating
/// system, none when it gives none. Which bytes is left open.
#[verifier::external_body]
fn random_bytes() -> (r: Option<[u8; 16]>) {
    let mut b = [0u8; 16];
    match rand::rngs::OsRng.try_fill_bytes(&mut b) {
        Ok(()) => Some(b),
        Err(_) => None,
    }
}

/// What `Builder::from_random_bytes(bytes).into_uuid().to_string()` writes.
pub uninterp spec fn uuid_v4_text_of(bytes: Seq<u8>) -> Seq<char>;

/// `uuid::Builder::from_random_bytes(bytes).into_uuid().to_string()`: the
/// version 4 UUID those bytes make, with the version and variant bits set,
/// in the hyphenated lower-case form: named `uuid_v4_text_of`.
#[verifier::external_body]
fn uuid_text(bytes: [u8; 16]) -> (r: String)
    ensures
        r@ == uuid_v4_text_of(bytes@),
        is_uuid_v4_text(r@),
{
    uuid::Builder::from_random_bytes(bytes).into_uuid().to_string()
}

/// The refusal when no random identifier can be drawn.
pub open spec fn randomness_error() -> Seq<char> {
    "operating system gives no randomness"@
}

pub(crate) fn randomness_error_text() -> (r: String)
    ensures
        r@ == randomness_error(),
{
    proof { reveal_strlit("operating system gives no randomness"); }
    owned("operating system gives no randomness")
}

/// A fresh random version 4 UUID in the hyphenated lower-case form; none
/// when the operating system gives no randomness.
pub(crate) fn new_uuid() -> (r: Option<String>)
    ensures
        r is Some ==> is_uuid_v4_text(r->Some_0@),
        r is Some ==> exists|b: Seq<u8>| b.len() == 16 && #[trigger] uuid_v4_text_of(b) == r->Some_0@,
{
    match random_bytes() {
        Some(b) => Some(uuid_text(b)),
        None => None,
    }
}

/// Lower-case hexadecimal notation of bytes, two digits each.
pub open spec fn hex_lower(b: Seq<u8>) -> Seq<char>
    decreases b.len(),
{
    if b.len() == 0 {
        seq![]
    } else {
        hex_lower(b.drop_last()) + seq![crate::claims::hex_digit((b.last() / 16) as nat), crate::claims::hex_digit((b.last() % 16) as nat)]
    }
}

/// What `hex::decode` makes of a text: the bytes, or the text of the error.
pub uninterp spec fn hex_decoded(text: Seq<char>) -> Result<Seq<u8>, Seq<char>>;

/// `hex::encode`: lower-case hexadecimal, two digits per byte, which
/// `hex::decode` reads back as the same bytes.
#[verifier::external_body]
pub(crate) fn hex_encode(b: &[u8; 32]) -> (r: String)
    ensures
        r@ == hex_lower(b@),
        hex_decoded(r@) is Ok && hex_decoded(r@)->Ok_0 == b@,
{
    hex::encode(b)
}

/// `hex::decode`, its error shown as text: named `hex_decoded`.
#[verifier::external_body]
pub(crate) fn hex_decode(text: &str) -> (r: Result<Vec<u8>, String>)
    ensures
        match hex_decoded(text@) {
            Ok(b) => r is Ok && r->Ok_0@ == b,
            Err(e) => r is Err && r->Err_0@ == e,
        },
{
    match hex::decode(text) {
        Ok(b) => Ok(b),
        Err(e) => Err(e.to_string()),
    }
}

/// `VerifyingKey::from_bytes(public).is_ok()`: named `ed25519_key_valid`.
#[verifier::external_body]
fn key_is_valid(public: &[u8; 32]) -> (r: bool)
    ensures
        r == ed25519_key_valid(public@),
{
    ed25519_dalek::VerifyingKey::from_bytes(public).is_ok()
}

proof fn lemma_hex_lower_ends(b: Seq<u8>)
    ensures
        hex_lower(b).len() == 2 * b.len(),
        b.len() > 0 ==> hex_lower(b)[0] == crate::claims::hex_digit((b[0] / 16) as nat)
            && hex_lower(b).last() == crate::claims::hex_digit((b.last() % 16) as nat),
    decreases b.len(),
{
    if b.len() > 0 {
        lemma_hex_lower_ends(b.drop_last());
        if b.len() > 1 {
            assert(b.drop_last()[0] == b[0]);
        }
    }
}

proof fn lemma_hex_digit_not_ws(d: nat)
    ensures
        !is_ws(crate::claims::hex_digit(d)),
{
}

// ─── Tokens ─────────────────────────────────────────────────────────────────

/// The audience claim of a grant: the authority's name in lower case.
pub open spec fn authority_aud(a: GrantAuthority) -> Seq<char> {
    match a {
        GrantAuthority::Orchestrator => "orchestrator"@,
        GrantAuthority::Afa => "afa"@,
        GrantAuthority::Human => "human"@,
        GrantAuthority::System => "system"@,
    }
}

fn authority_label(a: GrantAuthority) -> (r: &'static str)
    ensures
        r@ == authority_aud(a),
{
    match a {
        GrantAuthority::Orchestrator => "orchestrator",
        GrantAuthority::Afa => "afa",
        GrantAuthority::Human => "human",
        GrantAuthority::System => "system",
    }
}

/// The claims of a token issued at `now` with the identifier `token_id`.
pub open spec fn token_claims(
    execution_id: Seq<char>,
    capability: Seq<char>,
    granted: bool,
    authority: GrantAuthority,
    reason: Option<Seq<char>>,
    token_id: Seq<char>,
    now: i64,
) -> ClaimsView {
    ClaimsView {
        sub: execution_id,
        cap: capability,
        grt: granted,
        aud: authority_aud(authority),
        rsn: reason,
        jti: execution_id + "-"@ + token_id,
        iat: now,
        exp: (now + CAPABILITY_TOKEN_TTL_SECONDS) as i64,
    }
}

/// The JSON text of every token's header.
pub open spec fn token_header() -> Seq<char> {
    header_json("EdDSA"@, "JWT"@)
}

/// What is signed: the encoded header, a dot and the encoded claims.
pub open spec fn signing_input(header: Seq<char>, claims: Seq<char>) -> Seq<char> {
    b64url(encode_utf8(header)) + seq!['.'] + b64url(encode_utf8(claims))
}

/// The signed token: the signing input, a dot and the encoded signature
/// that the key with `seed` makes of it.
pub open spec fn signed_token(seed: Seq<u8>, header: Seq<char>, claims: Seq<char>) -> Seq<char> {
    let input = signing_input(header, claims);
    input + seq!['.'] + b64url(ed25519_sign(seed, encode_utf8(input)))
}

/// Whether a token identifier is in a revocation list, where there is one.
pub open spec fn revoked_in(revoked: Option<Seq<Seq<char>>>, jti: Seq<char>) -> bool {
    match revoked {
        Some(r) => r.contains(jti),
        None => false,
    }
}

/// The claims that some bytes hold, if they are their JSON text.
pub open spec fn claims_of_bytes(b: Seq<u8>) -> Option<ClaimsView> {
    if valid_utf8(b) {
        parse_claims(decode_utf8(b))
    } else {
        None
    }
}

/// The error given for claims that cannot be read.
pub open spec fn unreadable_claims() -> Seq<char> {
    "parse claims: not a capability claims object"@
}

/// What the checks of readable claims answer.
pub open spec fn check_claims(
    c: ClaimsView,
    revoked: Option<Seq<Seq<char>>>,
    execution_id: Seq<char>,
    capability: Seq<char>,
    now: i64,
) -> Result<(), Seq<char>> {
    if c.exp < now {
        Err("capability grant expired"@)
    } else if revoked_in(revoked, c.jti) {
        Err("capability grant revoked"@)
    } else if c.sub != execution_id {
        Err("execution ID mismatch"@)
    } else if c.cap != capability {
        Err("capability name mismatch"@)
    } else if !c.grt {
        Err("capability was denied"@)
    } else {
        Ok(())
    }
}

/// What verifying a token for an execution and a capability answers at
/// time `now`: its three parts, the signature over the first two, the
/// claims, then expiry, revocation, subject, capability and the granted
/// flag, the first failure giving the error.
pub open spec fn spec_verify_token(
    public: Seq<u8>,
    revoked: Option<Seq<Seq<char>>>,
    token: Seq<char>,
    execution_id: Seq<char>,
    capability: Seq<char>,
    now: i64,
) -> Result<(), Seq<char>> {
    let parts = split_char(token, '.');
    if parts.len() != 3 {
        Err("invalid JWT format"@)
    } else {
        match b64url_decode(parts[2]) {
            Err(e) => Err("decode signature: "@ + e),
            Ok(sig) => if sig.len() != 64 {
                Err("signature length invalid"@)
            } else {
                match ed25519_check(public, encode_utf8(parts[0] + seq!['.'] + parts[1]), sig) {
                    Err(e) => Err("signature verification failed: "@ + e),
                    Ok(_) => match b64url_decode(parts[1]) {
                        Err(e) => Err("decode claims: "@ + e),
                        Ok(cb) => match claims_of_bytes(cb) {
                            None => Err(unreadable_claims()),
                            Some(c) => check_claims(c, revoked, execution_id, capability, now),
                        },
                    },
                }
            },
        }
    }
}

/// A unit result with its error as plain text.
pub open spec fn unit_result(r: Result<(), String>) -> Result<(), Seq<char>> {
    match r {
        Ok(_) => Ok(()),
        Err(e) => Err(e@),
    }
}

/// The views of an optional revocation list.
pub open spec fn revoked_view(r: Option<Vec<String>>) -> Option<Seq<Seq<char>>> {
    match r {
        Some(v) => Some(string_views(v@)),
        None => None,
    }
}

fn joined(a: &str, b: &str) -> (r: String)
    ensures
        r@ == a@ + b@,
{
    let mut s = owned(a);
    push_str(&mut s, b);
    s
}

/// The identifiers of a list, each once, in the order first met.
fn distinct(list: &Vec<String>) -> (r: Vec<String>)
    ensures
        string_views(r@).no_duplicates(),
        forall|x: Seq<char>| string_views(r@).contains(x) <==> string_views(list@).contains(x),
{
    let mut out: Vec<String> = Vec::new();
    let mut i: usize = 0;
    while i < list.len()
        invariant
            i <= list@.len(),
            string_views(out@).no_duplicates(),
            forall|x: Seq<char>| string_views(out@).contains(x) <==> string_views(list@.take(i as int)).contains(x),
        decreases list@.len() - i,
    {
        let ghost before = string_views(out@);
        proof {
            assert(string_views(list@.take(i + 1)) =~= string_views(list@.take(i as int)).push(list@[i as int]@));
        }
        let ghost y = list@[i as int]@;
        let ghost pre = string_views(list@.take(i as int));
        proof {
            assert forall|x: Seq<char>| before.contains(x) <==> pre.contains(x) by {}
        }
        if !list_contains(&out, list[i].as_str()) {
            out.push(list[i].clone());
            proof {
                assert(string_views(out@) =~= before.push(y));
                assert forall|x: Seq<char>| string_views(out@).contains(x) <==> pre.push(y).contains(x) by {
                    if string_views(out@).contains(x) {
                        let j = choose|j: int| 0 <= j < string_views(out@).len() && string_views(out@)[j] == x;
                        if j < before.len() {
                            assert(before.contains(x));
                            let m = choose|m: int| 0 <= m < pre.len() && pre[m] == x;
                            assert(pre.push(y)[m] == x);
                        } else {
                            assert(pre.push(y)[pre.len() as int] == x);
                        }
                    }
                    if pre.push(y).contains(x) {
                        let j = choose|j: int| 0 <= j < pre.push(y).len() && pre.push(y)[j] == x;
                        if j < pre.len() {
                            assert(pre.contains(x));
                            assert(before.contains(x));
                            let m = choose|m: int| 0 <= m < before.len() && before[m] == x;
                            assert(string_views(out@)[m] == x);
                        } else {
                            assert(string_views(out@)[before.len() as int] == x);
                        }
                    }
                }
            }
        } else {
            proof {
                assert forall|x: Seq<char>| string_views(out@).contains(x) <==> pre.push(y).contains(x) by {
                    if pre.push(y).contains(x) {
                        let j = choose|j: int| 0 <= j < pre.push(y).len() && pre.push(y)[j] == x;
                        if j < pre.len() {
                            assert(pre.contains(x));
                        }
                    }
                    if string_views(out@).contains(x) {
                        let m = choose|m: int| 0 <= m < pre.len() && pre[m] == x;
                        assert(pre.push(y)[m] == x);
                    }
                }
            }
        }
        i = i + 1;
    }
    proof { assert(list@.take(list@.len() as int) =~= list@); }
    out
}

fn list_contains(list: &Vec<String>, x: &str) -> (r: bool)
    ensures
        r == string_views(list@).contains(x@),
{
    let mut i: usize = 0;
    while i < list.len()
        invariant
            i <= list@.len(),
            forall|j: int| 0 <= j < i ==> list@[j]@ != x@,
        decreases list@.len() - i,
    {
        if str_eq(list[i].as_str(), x) {
            assert(string_views(list@)[i as int] == x@);
            return true;
        }
        i = i + 1;
    }
    assert(!string_views(list@).contains(x@)) by {
        if string_views(list@).contains(x@) {
            let k = choose|k: int| 0 <= k < string_views(list@).len() && string_views(list@)[k] == x@;
            assert(list@[k]@ == x@);
        }
    }
    false
}

fn revoked_has(revoked: &Option<Vec<String>>, jti: &str) -> (r: bool)
    ensures
        r == revoked_in(revoked_view(*revoked), jti@),
{
    match revoked {
        Some(list) => list_contains(list, jti),
        None => false,
    }
}

fn check_read_claims(
    c: &CapabilityClaims,
    revoked: &Option<Vec<String>>,
    execution_id: &str,
    capability: &str,
    now: i64,
) -> (r: Result<(), String>)
    ensures
        unit_result(r) == check_claims(c@, revoked_view(*revoked), execution_id@, capability@, now),
{
    if c.exp < now {
        Err(owned("capability grant expired"))
    } else if revoked_has(revoked, c.jti.as_str()) {
        Err(owned("capability grant revoked"))
    } else if !str_eq(c.sub.as_str(), execution_id) {
        Err(owned("execution ID mismatch"))
    } else if !str_eq(c.cap.as_str(), capability) {
        Err(owned("capability name mismatch"))
    } else if !c.grt {
        Err(owned("capability was denied"))
    } else {
        Ok(())
    }
}

/// Verifies a token for an execution and a capability at time `now`.
pub fn verify_token(
    public: &[u8; 32],
    revoked: &Option<Vec<String>>,
    token: &str,
    execution_id: &str,
    capability: &str,
    now: i64,
) -> (r: Result<(), String>)
    ensures
        unit_result(r) == spec_verify_token(public@, revoked_view(*revoked), token@, execution_id@, capability@, now),
{
    proof {
        reveal_strlit("invalid JWT format");
        reveal_strlit(".");
    }
    let parts = split_by(token, '.');
    if parts.len() != 3 {
        return Err(owned("invalid JWT format"));
    }
    let ghost ps = split_char(token@, '.');
    assert(parts@[0]@ == ps[0] && parts@[1]@ == ps[1] && parts@[2]@ == ps[2]) by {
        assert(string_views(parts@)[0] == parts@[0]@);
        assert(string_views(parts@)[1] == parts@[1]@);
        assert(string_views(parts@)[2] == parts@[2]@);
    }
    let mut input = owned(parts[0].as_str());
    push_str(&mut input, ".");
    push_str(&mut input, parts[1].as_str());
    assert(input@ =~= ps[0] + seq!['.'] + ps[1]);
    let sig = match b64_decode(parts[2].as_str()) {
        Ok(b) => b,
        Err(e) => return Err(joined("decode signature: ", e.as_str())),
    };
    if sig.len() != 64 {
        return Err(owned("signature length invalid"));
    }
    let msg = bytes_of(input.as_str());
    assert(msg@ == encode_utf8(ps[0] + seq!['.'] + ps[1]));
    let msg_s = msg.as_slice();
    let sig_s = sig.as_slice();
    assert(msg_s@ == msg@ && sig_s@ == sig@);
    match check_signature(public, msg_s, sig_s) {
        Ok(()) => {},
        Err(e) => return Err(joined("signature verification failed: ", e.as_str())),
    }
    let claims_bytes = match b64_decode(parts[1].as_str()) {
        Ok(b) => b,
        Err(e) => return Err(joined("decode claims: ", e.as_str())),
    };
    let text = match utf8_text(claims_bytes) {
        Some(t) => t,
        None => return Err(owned("parse claims: not a capability claims object")),
    };
    let claims = match read_claims(text.as_str()) {
        Some(c) => c,
        None => return Err(owned("parse claims: not a capability claims object")),
    };
    check_read_claims(&claims, revoked, execution_id, capability, now)
}

/// A token made of three encoded parts without dots, whose signature part
/// decodes to a valid signature of the first two and whose claims part
/// decodes to readable claims, answers what the claims' checks answer.
proof fn lemma_token_verifies(
    public: Seq<u8>,
    h64: Seq<char>,
    c64: Seq<char>,
    s64: Seq<char>,
    claims: ClaimsView,
    sig: Seq<u8>,
    revoked: Option<Seq<Seq<char>>>,
    execution_id: Seq<char>,
    capability: Seq<char>,
    now: i64,
)
    requires
        !h64.contains('.'),
        !c64.contains('.'),
        !s64.contains('.'),
        b64url_decode(s64) is Ok && b64url_decode(s64)->Ok_0 == sig,
        sig.len() == 64,
        ed25519_check(public, encode_utf8(h64 + seq!['.'] + c64), sig) is Ok,
        b64url_decode(c64) is Ok && b64url_decode(c64)->Ok_0 == encode_utf8(claims_json(claims)),
    ensures
        spec_verify_token(public, revoked, h64 + seq!['.'] + c64 + seq!['.'] + s64, execution_id, capability, now)
            == check_claims(claims, revoked, execution_id, capability, now),
{
    broadcast use vstd::utf8::encode_utf8_valid_utf8, vstd::utf8::encode_utf8_decode_utf8;
    lemma_split_char_join(h64, c64, '.');
    lemma_split_char_join(h64 + seq!['.'] + c64, s64, '.');
    lemma_split_char_single(h64, '.');
    lemma_split_char_single(c64, '.');
    lemma_split_char_single(s64, '.');
    let parts = split_char(h64 + seq!['.'] + c64 + seq!['.'] + s64, '.');
    assert(parts =~= seq![h64, c64, s64]);
    lemma_claims_round_trip(claims);
}

/// Issues a token signed with the key of `seed`, for an execution and a
/// capability, issued at `now` with the identifier `token_id`. Verified
/// with the matching public key at any time up to its expiry, while its
/// identifier is not revoked, it passes when it grants and is refused as
/// denied when it does not.
fn issue_token(
    seed: &[u8; 32],
    execution_id: &str,
    capability: &str,
    granted: bool,
    authority: GrantAuthority,
    reason: &Option<String>,
    now: i64,
    token_id: &str,
) -> (r: String)
    requires
        now <= i64::MAX - CAPABILITY_TOKEN_TTL_SECONDS,
    ensures
        r@ == signed_token(
            seed@,
            token_header(),
            claims_json(token_claims(execution_id@, capability@, granted, authority, opt_view(*reason), token_id@, now)),
        ),
        forall|t: i64, rev: Option<Seq<Seq<char>>>|
            now <= t <= now + CAPABILITY_TOKEN_TTL_SECONDS && !revoked_in(rev, execution_id@ + "-"@ + token_id@)
                ==> #[trigger] spec_verify_token(ed25519_public(seed@), rev, r@, execution_id@, capability@, t)
                == (if granted { Ok::<(), Seq<char>>(()) } else { Err("capability was denied"@) }),
{
    proof {
        reveal_strlit(".");
    }
    let mut jti = owned(execution_id);
    push_str(&mut jti, "-");
    push_str(&mut jti, token_id);
    let rsn = match reason {
        Some(x) => Some(owned(x.as_str())),
        None => None,
    };
    let claims = CapabilityClaims {
        sub: owned(execution_id),
        cap: owned(capability),
        grt: granted,
        aud: owned(authority_label(authority)),
        rsn,
        jti,
        iat: now,
        exp: now + CAPABILITY_TOKEN_TTL_SECONDS,
    };
    assert(claims@ == token_claims(execution_id@, capability@, granted, authority, opt_view(*reason), token_id@, now));
    let header = JwtHeader { alg: owned("EdDSA"), typ: owned("JWT") };
    let header_text = write_header(&header);
    let claims_text = write_claims(&claims);
    let hb = bytes_of(header_text.as_str());
    let cb = bytes_of(claims_text.as_str());
    let h64 = b64_encode(hb.as_slice());
    let c64 = b64_encode(cb.as_slice());
    let mut input = owned(h64.as_str());
    push_str(&mut input, ".");
    push_str(&mut input, c64.as_str());
    assert(input@ =~= h64@ + seq!['.'] + c64@);
    let ib = bytes_of(input.as_str());
    let sig = sign_message(seed, ib.as_slice());
    let s64 = b64_encode(&sig);
    let mut token = input;
    push_str(&mut token, ".");
    push_str(&mut token, s64.as_str());
    assert(token@ =~= h64@ + seq!['.'] + c64@ + seq!['.'] + s64@);
    assert forall|t: i64, rev: Option<Seq<Seq<char>>>|
        now <= t <= now + CAPABILITY_TOKEN_TTL_SECONDS && !revoked_in(rev, execution_id@ + "-"@ + token_id@)
        implies #[trigger] spec_verify_token(ed25519_public(seed@), rev, token@, execution_id@, capability@, t)
            == (if granted { Ok::<(), Seq<char>>(()) } else { Err("capability was denied"@) }) by {
        lemma_token_verifies(ed25519_public(seed@), h64@, c64@, s64@, claims@, sig@, rev, execution_id@, capability@, t);
    }
    token
}

// ─── Grants ─────────────────────────────────────────────────────────────────

/// What verifying a grant answers at time `now`: its token checked for its
/// execution and its capability's kind.
pub open spec fn spec_verify_grant(
    public: Seq<u8>,
    revoked: Option<Seq<Seq<char>>>,
    g: GrantView,
    now: i64,
) -> Result<(), Seq<char>> {
    spec_verify_token(public, revoked, g.signature, g.execution_id, g.capability.kind, now)
}

/// The grant that a key with `seed` issues at `now`, with the token
/// identifier `token_id` and the time stamp `timestamp`.
pub open spec fn spec_grant(
    seed: Seq<u8>,
    execution_id: Seq<char>,
    capability: CapabilityView,
    granted: bool,
    authority: GrantAuthority,
    reason: Option<Seq<char>>,
    now: i64,
    token_id: Seq<char>,
    timestamp: Seq<char>,
) -> GrantView {
    GrantView {
        execution_id,
        capability,
        granted,
        granted_by: authority,
        reason,
        timestamp,
        signature: signed_token(
            seed,
            token_header(),
            claims_json(token_claims(execution_id, capability.kind, granted, authority, reason, token_id, now)),
        ),
    }
}

/// The views of a list of grants.
pub open spec fn grant_views(v: Seq<CapabilityGrant>) -> Seq<GrantView> {
    v.map_values(|g: CapabilityGrant| g@)
}

/// Whether some grant in the list is granted, of the capability's kind, and
/// verifies at time `now`.
pub open spec fn grants_verify(
    public: Seq<u8>,
    revoked: Option<Seq<Seq<char>>>,
    gs: Seq<GrantView>,
    capability: Seq<char>,
    now: i64,
) -> bool {
    exists|i: int|
        0 <= i < gs.len() && #[trigger] gs[i].granted && gs[i].capability.kind == capability
            && spec_verify_grant(public, revoked, gs[i], now) is Ok
}

type Entry = (String, Vec<CapabilityGrant>);

/// An execution's identifier and its grants, as plain values.
pub open spec fn entry_views(e: Seq<(String, Vec<CapabilityGrant>)>) -> Seq<(Seq<char>, Seq<GrantView>)> {
    e.map_values(|p: (String, Vec<CapabilityGrant>)| (p.0@, grant_views(p.1@)))
}

/// The grants recorded for `key`: those of its last entry, or none.
pub open spec fn lookup(e: Seq<(Seq<char>, Seq<GrantView>)>, key: Seq<char>) -> Seq<GrantView>
    decreases e.len(),
{
    if e.len() == 0 {
        seq![]
    } else if e.last().0 == key {
        e.last().1
    } else {
        lookup(e.drop_last(), key)
    }
}

proof fn lemma_lookup_at(e: Seq<(Seq<char>, Seq<GrantView>)>, key: Seq<char>, i: int)
    requires
        0 <= i < e.len(),
        e[i].0 == key,
        forall|j: int| i < j < e.len() ==> e[j].0 != key,
    ensures
        lookup(e, key) == e[i].1,
    decreases e.len(),
{
    if i < e.len() - 1 {
        assert(e.last() == e[e.len() - 1]);
        lemma_lookup_at(e.drop_last(), key, i);
    }
}

proof fn lemma_lookup_absent(e: Seq<(Seq<char>, Seq<GrantView>)>, key: Seq<char>)
    requires
        forall|j: int| 0 <= j < e.len() ==> e[j].0 != key,
    ensures
        lookup(e, key) == Seq::<GrantView>::empty(),
    decreases e.len(),
{
    if e.len() > 0 {
        assert(e.last() == e[e.len() - 1]);
        lemma_lookup_absent(e.drop_last(), key);
    }
}

proof fn lemma_lookup_update(e: Seq<(Seq<char>, Seq<GrantView>)>, i: int, v: Seq<GrantView>, k: Seq<char>)
    requires
        0 <= i < e.len(),
        forall|j: int| i < j < e.len() ==> e[j].0 != e[i].0,
    ensures
        lookup(e.update(i, (e[i].0, v)), k) == if k == e[i].0 { v } else { lookup(e, k) },
    decreases e.len(),
{
    let u = e.update(i, (e[i].0, v));
    if i == e.len() - 1 {
        assert(u.drop_last() =~= e.drop_last());
    } else {
        assert(e.last() == e[e.len() - 1]);
        assert(u.drop_last() =~= e.drop_last().update(i, (e[i].0, v)));
        lemma_lookup_update(e.drop_last(), i, v, k);
    }
}

proof fn lemma_lookup_push(e: Seq<(Seq<char>, Seq<GrantView>)>, key: Seq<char>, v: Seq<GrantView>, k: Seq<char>)
    ensures
        lookup(e.push((key, v)), k) == if k == key { v } else { lookup(e, k) },
{
    assert(e.push((key, v)).drop_last() =~= e);
}

/// The index of the last entry for `key`, if there is one.
fn last_entry(entries: &Vec<Entry>, key: &str) -> (r: Option<usize>)
    ensures
        match r {
            Some(i) => i < entries@.len() && entries@[i as int].0@ == key@
                && forall|j: int| i < j < entries@.len() ==> entries@[j].0@ != key@,
            None => forall|j: int| 0 <= j < entries@.len() ==> entries@[j].0@ != key@,
        },
{
    let mut i: usize = entries.len();
    while i > 0
        invariant
            i <= entries@.len(),
            forall|j: int| i <= j < entries@.len() ==> entries@[j].0@ != key@,
        decreases i,
    {
        if str_eq(entries[i - 1].0.as_str(), key) {
            return Some(i - 1);
        }
        i = i - 1;
    }
    None
}

/// Record a grant under its execution.
fn record_in(entries: &mut Vec<Entry>, g: CapabilityGrant)
    ensures
        forall|k: Seq<char>| #[trigger] lookup(entry_views(final(entries)@), k)
            == if k == g.execution_id@ { lookup(entry_views(old(entries)@), k).push(g@) } else { lookup(entry_views(old(entries)@), k) },
{
    let ghost e0 = entry_views(entries@);
    let ghost gv = g@;
    let key = owned(g.execution_id.as_str());
    match last_entry(&*entries, key.as_str()) {
        Some(i) => {
            let mut slot: Entry = (String::new(), Vec::new());
            entries.set_and_swap(i, &mut slot);
            let ghost before = grant_views(slot.1@);
            slot.1.push(g);
            proof {
                assert(grant_views(slot.1@) =~= before.push(gv));
                assert(e0[i as int].0 == key@);
                assert(e0[i as int].1 == before);
            }
            entries.set_and_swap(i, &mut slot);
            proof {
                assert(entry_views(entries@) =~= e0.update(i as int, (e0[i as int].0, before.push(gv))));
                assert forall|k: Seq<char>| #[trigger] lookup(entry_views(entries@), k)
                    == if k == key@ { before.push(gv) } else { lookup(e0, k) } by {
                    lemma_lookup_update(e0, i as int, before.push(gv), k);
                }
                lemma_lookup_at(e0, key@, i as int);
            }
        },
        None => {
            let mut list: Vec<CapabilityGrant> = Vec::new();
            list.push(g);
            proof {
                assert(grant_views(list@) =~= seq![gv]);
                lemma_lookup_absent(e0, key@);
            }
            entries.push((key, list));
            proof {
                assert(entry_views(entries@) =~= e0.push((key@, seq![gv])));
                assert forall|k: Seq<char>| #[trigger] lookup(entry_views(entries@), k)
                    == if k == key@ { seq![gv] } else { lookup(e0, k) } by {
                    lemma_lookup_push(e0, key@, seq![gv], k);
                }
                assert(Seq::<GrantView>::empty().push(gv) =~= seq![gv]);
            }
        },
    }
}

/// Replace the grants recorded under `key`.
fn replace_in(entries: &mut Vec<Entry>, key: String, grants: Vec<CapabilityGrant>)
    ensures
        forall|k: Seq<char>| #[trigger] lookup(entry_views(final(entries)@), k)
            == if k == key@ { grant_views(grants@) } else { lookup(entry_views(old(entries)@), k) },
{
    let ghost e0 = entry_views(entries@);
    let ghost kv = key@;
    let ghost gv = grant_views(grants@);
    match last_entry(&*entries, key.as_str()) {
        Some(i) => {
            let mut slot: Entry = (key, grants);
            entries.set_and_swap(i, &mut slot);
            proof {
                assert(entry_views(entries@) =~= e0.update(i as int, (e0[i as int].0, gv)));
                assert forall|k: Seq<char>| #[trigger] lookup(entry_views(entries@), k)
                    == if k == kv { gv } else { lookup(e0, k) } by {
                    lemma_lookup_update(e0, i as int, gv, k);
                }
            }
        },
        None => {
            entries.push((key, grants));
            proof {
                assert(entry_views(entries@) =~= e0.push((kv, gv)));
                assert forall|k: Seq<char>| #[trigger] lookup(entry_views(entries@), k)
                    == if k == kv { gv } else { lookup(e0, k) } by {
                    lemma_lookup_push(e0, kv, gv, k);
                }
            }
        },
    }
}

/// Registry of all capability grants per execution.
///
/// It holds the seed of its Ed25519 signing key and the identifiers of
/// revoked tokens; writing revocations to the revocation table is left to
/// the caller.
pub struct CapabilityRegistry {
    grants: Vec<Entry>,
    seed: [u8; 32],
    public_key: [u8; 32],
    revoked: Vec<String>,
}

impl CapabilityRegistry {
    #[verifier::type_invariant]
    spec fn key_pair(self) -> bool {
        &&& self.public_key@ == ed25519_public(self.seed@)
        &&& ed25519_key_valid(self.public_key@)
        &&& string_views(self.revoked@).no_duplicates()
    }

    /// The grants recorded for an execution, in the order they were made.
    pub closed spec fn grants_for(&self, execution_id: Seq<char>) -> Seq<GrantView> {
        lookup(entry_views(self.grants@), execution_id)
    }

    /// The seed of the signing key.
    pub closed spec fn signing_seed(&self) -> Seq<u8> {
        self.seed@
    }

    /// The identifiers of revoked tokens.
    pub closed spec fn revoked_ids(&self) -> Seq<Seq<char>> {
        string_views(self.revoked@)
    }

    /// The public key that verifies this registry's grants.
    pub open spec fn verifying_key(&self) -> Seq<u8> {
        ed25519_public(self.signing_seed())
    }

    /// Create a registry with a deterministic in-memory key (for tests).
    pub fn new_with_seed(seed: [u8; 32]) -> (r: Self)
        ensures
            r.signing_seed() == seed@,
            forall|k: Seq<char>| r.grants_for(k) == Seq::<GrantView>::empty(),
            r.revoked_ids() == Seq::<Seq<char>>::empty(),
    {
        let r = CapabilityRegistry {
            grants: Vec::new(),
            seed,
            public_key: public_key_of(&seed),
            revoked: Vec::new(),
        };
        proof {
            assert forall|k: Seq<char>| r.grants_for(k) == Seq::<GrantView>::empty() by {
                assert(entry_views(r.grants@) =~= Seq::<(Seq<char>, Seq<GrantView>)>::empty());
            }
            assert(r.revoked_ids() =~= Seq::<Seq<char>>::empty());
        }
        r
    }

    /// A registry with the key of `seed` and the revocations read from the
    /// revocation table.
    pub fn from_stored(seed: [u8; 32], revoked: Vec<String>) -> (r: Self)
        ensures
            r.signing_seed() == seed@,
            forall|k: Seq<char>| r.grants_for(k) == Seq::<GrantView>::empty(),
            forall|x: Seq<char>| r.revoked_ids().contains(x) <==> string_views(revoked@).contains(x),
            r.revoked_ids().no_duplicates(),
    {
        let revoked = distinct(&revoked);
        let r = CapabilityRegistry { grants: Vec::new(), seed, public_key: public_key_of(&seed), revoked };
        proof {
            assert forall|k: Seq<char>| r.grants_for(k) == Seq::<GrantView>::empty() by {
                assert(entry_views(r.grants@) =~= Seq::<(Seq<char>, Seq<GrantView>)>::empty());
            }
        }
        r
    }

    /// Rotate to a deterministic in-memory key (for tests); every grant made
    /// so far is dropped.
    pub fn rotate_key_with_seed(&mut self, seed: [u8; 32])
        ensures
            final(self).signing_seed() == seed@,
            forall|k: Seq<char>| final(self).grants_for(k) == Seq::<GrantView>::empty(),
            final(self).revoked_ids() == old(self).revoked_ids(),
    {
        proof { use_type_invariant(&*self); }
        let public_key = public_key_of(&seed);
        let mut revoked: Vec<String> = Vec::new();
        std::mem::swap(&mut revoked, &mut self.revoked);
        *self = CapabilityRegistry { grants: Vec::new(), seed, public_key, revoked };
        proof {
            assert forall|k: Seq<char>| self.grants_for(k) == Seq::<GrantView>::empty() by {
                assert(entry_views(self.grants@) =~= Seq::<(Seq<char>, Seq<GrantView>)>::empty());
            }
        }
    }

    /// Issue a token and record the grant it signs.
    fn issue(
        &mut self,
        execution_id: &str,
        capability: Capability,
        granted: bool,
        granted_by: GrantAuthority,
        reason: Option<String>,
        now: i64,
        token_id: &str,
        timestamp: String,
    ) -> (r: CapabilityGrant)
        requires
            now <= i64::MAX - CAPABILITY_TOKEN_TTL_SECONDS,
        ensures
            r@ == spec_grant(old(self).signing_seed(), execution_id@, capability@, granted, granted_by, opt_view(reason), now, token_id@, timestamp@),
            final(self).grants_for(execution_id@) == old(self).grants_for(execution_id@).push(r@),
            forall|k: Seq<char>| k != execution_id@ ==> final(self).grants_for(k) == old(self).grants_for(k),
            final(self).signing_seed() == old(self).signing_seed(),
            final(self).revoked_ids() == old(self).revoked_ids(),
            forall|t: i64, rev: Option<Seq<Seq<char>>>|
                now <= t <= now + CAPABILITY_TOKEN_TTL_SECONDS && !revoked_in(rev, execution_id@ + "-"@ + token_id@)
                    ==> #[trigger] spec_verify_grant(old(self).verifying_key(), rev, r@, t)
                    == (if granted { Ok::<(), Seq<char>>(()) } else { Err("capability was denied"@) }),
    {
        let token = issue_token(&self.seed, execution_id, capability.name(), granted, granted_by, &reason, now, token_id);
        let grant = CapabilityGrant {
            execution_id: owned(execution_id),
            capability,
            granted,
            granted_by,
            reason,
            timestamp,
            signature: token,
        };
        self.record(clone_grant(&grant));
        grant
    }

    /// Grant a capability for an execution, at time `now`, with the token
    /// identifier `token_id` and the time stamp `timestamp`. The grant
    /// verifies with this registry's key until its token expires, unless
    /// the token is revoked.
    pub fn grant_at(
        &mut self,
        execution_id: &str,
        capability: Capability,
        granted_by: GrantAuthority,
        reason: Option<String>,
        now: i64,
        token_id: &str,
        timestamp: String,
    ) -> (r: CapabilityGrant)
        requires
            now <= i64::MAX - CAPABILITY_TOKEN_TTL_SECONDS,
        ensures
            r@ == spec_grant(old(self).signing_seed(), execution_id@, capability@, true, granted_by, opt_view(reason), now, token_id@, timestamp@),
            final(self).grants_for(execution_id@) == old(self).grants_for(execution_id@).push(r@),
            forall|k: Seq<char>| k != execution_id@ ==> final(self).grants_for(k) == old(self).grants_for(k),
            final(self).signing_seed() == old(self).signing_seed(),
            final(self).revoked_ids() == old(self).revoked_ids(),
            forall|t: i64, rev: Option<Seq<Seq<char>>>|
                now <= t <= now + CAPABILITY_TOKEN_TTL_SECONDS && !revoked_in(rev, execution_id@ + "-"@ + token_id@)
                    ==> #[trigger] spec_verify_grant(old(self).verifying_key(), rev, r@, t) is Ok,
            forall|t: i64|
                now <= t <= now + CAPABILITY_TOKEN_TTL_SECONDS && !final(self).revoked_ids().contains(execution_id@ + "-"@ + token_id@)
                    ==> #[trigger] grants_verify(
                    final(self).verifying_key(),
                    Some(final(self).revoked_ids()),
                    final(self).grants_for(execution_id@),
                    capability@.kind,
                    t,
                ),
    {
        let ghost kind = capability@.kind;
        let r = self.issue(execution_id, capability, true, granted_by, reason, now, token_id, timestamp);
        proof {
            let gs = self.grants_for(execution_id@);
            assert forall|t: i64|
                now <= t <= now + CAPABILITY_TOKEN_TTL_SECONDS && !self.revoked_ids().contains(execution_id@ + "-"@ + token_id@)
                    implies #[trigger] grants_verify(self.verifying_key(), Some(self.revoked_ids()), gs, kind, t) by {
                let last = gs.len() - 1;
                assert(gs[last] == r@);
                assert(spec_verify_grant(self.verifying_key(), Some(self.revoked_ids()), r@, t) is Ok);
                assert(gs[last].granted && gs[last].capability.kind == kind
                    && spec_verify_grant(self.verifying_key(), Some(self.revoked_ids()), gs[last], t) is Ok);
            }
        }
        r
    }

    /// Grant a capability for an execution, at the current time and under a
    /// fresh token identifier. When the clock cannot be read or no random
    /// identifier can be drawn, nothing is granted and the refusal says why.
    pub fn grant(
        &mut self,
        execution_id: &str,
        capability: Capability,
        granted_by: GrantAuthority,
        reason: Option<String>,
    ) -> (r: Result<CapabilityGrant, String>)
        ensures
            r is Ok ==> exists|now: i64, id: Seq<char>, ts: Seq<char>|
                r->Ok_0@ == #[trigger] spec_grant(old(self).signing_seed(), execution_id@, capability@, true, granted_by, opt_view(reason), now, id, ts)
                && 0 <= now && is_uuid_v4_text(id) && clock_text(ts),
            r is Ok ==> final(self).grants_for(execution_id@) == old(self).grants_for(execution_id@).push(r->Ok_0@),
            r is Err ==> (r->Err_0@ == clock_error() || r->Err_0@ == randomness_error()) && *final(self) == *old(self),
            forall|k: Seq<char>| k != execution_id@ ==> final(self).grants_for(k) == old(self).grants_for(k),
            final(self).signing_seed() == old(self).signing_seed(),
            final(self).revoked_ids() == old(self).revoked_ids(),
    {
        let now = match now_timestamp() {
            Some(t) => t,
            None => return Err(clock_error_text()),
        };
        let id = match new_uuid() {
            Some(u) => u,
            None => return Err(randomness_error_text()),
        };
        let timestamp = match now_rfc3339() {
            Some(t) => t,
            None => return Err(clock_error_text()),
        };
        Ok(self.grant_at(execution_id, capability, granted_by, reason, now, id.as_str(), timestamp))
    }

    /// Deny a capability, at time `now`, with the token identifier
    /// `token_id` and the time stamp `timestamp`. Until its token expires
    /// and unless it is revoked, the grant is refused as denied.
    pub fn deny_at(
        &mut self,
        execution_id: &str,
        capability: Capability,
        granted_by: GrantAuthority,
        reason: String,
        now: i64,
        token_id: &str,
        timestamp: String,
    ) -> (r: CapabilityGrant)
        requires
            now <= i64::MAX - CAPABILITY_TOKEN_TTL_SECONDS,
        ensures
            r@ == spec_grant(old(self).signing_seed(), execution_id@, capability@, false, granted_by, Some(reason@), now, token_id@, timestamp@),
            final(self).grants_for(execution_id@) == old(self).grants_for(execution_id@).push(r@),
            forall|k: Seq<char>| k != execution_id@ ==> final(self).grants_for(k) == old(self).grants_for(k),
            final(self).signing_seed() == old(self).signing_seed(),
            final(self).revoked_ids() == old(self).revoked_ids(),
            forall|t: i64, rev: Option<Seq<Seq<char>>>|
                now <= t <= now + CAPABILITY_TOKEN_TTL_SECONDS && !revoked_in(rev, execution_id@ + "-"@ + token_id@)
                    ==> #[trigger] spec_verify_grant(old(self).verifying_key(), rev, r@, t) == Err::<(), Seq<char>>("capability was denied"@),
    {
        self.issue(execution_id, capability, false, granted_by, Some(reason), now, token_id, timestamp)
    }

    /// Deny a capability, at the current time and under a fresh token
    /// identifier. When the clock cannot be read or no random identifier can
    /// be drawn, nothing is recorded and the refusal says why.
    pub fn deny(
        &mut self,
        execution_id: &str,
        capability: Capability,
        granted_by: GrantAuthority,
        reason: String,
    ) -> (r: Result<CapabilityGrant, String>)
        ensures
            r is Ok ==> exists|now: i64, id: Seq<char>, ts: Seq<char>|
                r->Ok_0@ == #[trigger] spec_grant(old(self).signing_seed(), execution_id@, capability@, false, granted_by, Some(reason@), now, id, ts)
                && 0 <= now && is_uuid_v4_text(id) && clock_text(ts),
            r is Ok ==> final(self).grants_for(execution_id@) == old(self).grants_for(execution_id@).push(r->Ok_0@),
            r is Err ==> (r->Err_0@ == clock_error() || r->Err_0@ == randomness_error()) && *final(self) == *old(self),
            forall|k: Seq<char>| k != execution_id@ ==> final(self).grants_for(k) == old(self).grants_for(k),
            final(self).signing_seed() == old(self).signing_seed(),
            final(self).revoked_ids() == old(self).revoked_ids(),
    {
        let now = match now_timestamp() {
            Some(t) => t,
            None => return Err(clock_error_text()),
        };
        let id = match new_uuid() {
            Some(u) => u,
            None => return Err(randomness_error_text()),
        };
        let timestamp = match now_rfc3339() {
            Some(t) => t,
            None => return Err(clock_error_text()),
        };
        Ok(self.deny_at(execution_id, capability, granted_by, reason, now, id.as_str(), timestamp))
    }

    /// Return a verifier backed by this registry's public key and its
    /// revocations as they stand now.
    pub fn grant_verifier(&self) -> (r: CapabilityVerifier)
        ensures
            r.key() == self.verifying_key(),
            r.revocations() == Some(self.revoked_ids()),
    {
        CapabilityVerifier::from_signing_key(&self.seed).with_revoked_set(crate::types::capability::clone_strings(&self.revoked))
    }

    /// Return the hex-encoded public key used to verify grants; a verifier
    /// built from it has this registry's key.
    pub fn public_key_hex(&self) -> (r: String)
        ensures
            r@ == hex_lower(self.verifying_key()),
            spec_key_from_hex(r@) == Ok::<Seq<u8>, Seq<char>>(self.verifying_key()),
    {
        proof { use_type_invariant(self); }
        let r = hex_encode(&self.public_key);
        proof {
            lemma_hex_lower_ends(self.public_key@);
            if r@.len() > 0 {
                lemma_hex_digit_not_ws((self.public_key@[0] / 16) as nat);
                lemma_hex_digit_not_ws((self.public_key@.last() % 16) as nat);
            }
            lemma_trim_no_ws(r@);
        }
        r
    }

    /// Verify at time `now` that a capability is granted and signed.
    pub fn verify_at(&self, execution_id: &str, capability_name: &str, now: i64) -> (r: bool)
        ensures
            r == grants_verify(self.verifying_key(), Some(self.revoked_ids()), self.grants_for(execution_id@), capability_name@, now),
    {
        proof { use_type_invariant(self); }
        let ghost e = entry_views(self.grants@);
        let i = match last_entry(&self.grants, execution_id) {
            Some(i) => i,
            None => {
                proof { lemma_lookup_absent(e, execution_id@); }
                return false;
            },
        };
        let checker = self.grant_verifier();
        let grants = &self.grants[i].1;
        proof { lemma_lookup_at(e, execution_id@, i as int); }
        let ghost gs = grant_views(grants@);
        assert(gs == self.grants_for(execution_id@));
        let mut j: usize = 0;
        while j < grants.len()
            invariant
                j <= grants@.len(),
                gs == grant_views(grants@),
                gs == self.grants_for(execution_id@),
                checker.key() == self.verifying_key(),
                checker.revocations() == Some(self.revoked_ids()),
                forall|m: int| 0 <= m < j ==> !(#[trigger] gs[m].granted && gs[m].capability.kind == capability_name@
                    && spec_verify_grant(self.verifying_key(), Some(self.revoked_ids()), gs[m], now) is Ok),
            decreases grants@.len() - j,
        {
            let g = &grants[j];
            assert(gs[j as int] == g@);
            if g.granted && str_eq(g.capability.name(), capability_name) {
                let res = checker.verify_grant_at(g, now);
                if res.is_ok() {
                    assert(gs[j as int].granted && gs[j as int].capability.kind == capability_name@
                        && spec_verify_grant(self.verifying_key(), Some(self.revoked_ids()), gs[j as int], now) is Ok);
                    return true;
                }
            }
            j = j + 1;
        }
        false
    }

    /// Verify at the current time that a capability is granted and signed.
    /// When the clock cannot be read, nothing verifies.
    pub fn verify(&self, execution_id: &str, capability_name: &str) -> (r: bool)
        ensures
            r ==> exists|now: i64| 0 <= now && #[trigger] grants_verify(self.verifying_key(), Some(self.revoked_ids()), self.grants_for(execution_id@), capability_name@, now),
    {
        match now_timestamp() {
            Some(now) => self.verify_at(execution_id, capability_name, now),
            None => false,
        }
    }

    /// Get all grants for an execution.
    pub fn get_grants(&self, execution_id: &str) -> (r: Vec<CapabilityGrant>)
        ensures
            grant_views(r@) == self.grants_for(execution_id@),
    {
        let ghost e = entry_views(self.grants@);
        let mut out: Vec<CapabilityGrant> = Vec::new();
        match last_entry(&self.grants, execution_id) {
            None => {
                proof {
                    lemma_lookup_absent(e, execution_id@);
                    assert(grant_views(out@) =~= Seq::<GrantView>::empty());
                }
            },
            Some(i) => {
                let grants = &self.grants[i].1;
                proof { lemma_lookup_at(e, execution_id@, i as int); }
                let mut j: usize = 0;
                while j < grants.len()
                    invariant
                        j <= grants@.len(),
                        grant_views(out@) == grant_views(grants@).take(j as int),
                    decreases grants@.len() - j,
                {
                    let ghost before = grant_views(out@);
                    out.push(clone_grant(&grants[j]));
                    proof {
                        assert(grant_views(out@) =~= before.push(grants@[j as int]@));
                        assert(grant_views(grants@).take(j + 1) =~= grant_views(grants@).take(j as int).push(grants@[j as int]@));
                    }
                    j = j + 1;
                }
                assert(grant_views(grants@).take(grants@.len() as int) =~= grant_views(grants@));
            },
        }
        out
    }

    /// Revoke a capability token by its identifier. Recording it in the
    /// revocation table is left to the caller.
    pub fn revoke(&mut self, jti: &str) -> (r: Result<(), String>)
        ensures
            r is Ok,
            final(self).revoked_ids() == if old(self).revoked_ids().contains(jti@) {
                old(self).revoked_ids()
            } else {
                old(self).revoked_ids().push(jti@)
            },
            forall|k: Seq<char>| final(self).grants_for(k) == old(self).grants_for(k),
            final(self).signing_seed() == old(self).signing_seed(),
    {
        proof { use_type_invariant(&*self); }
        if !list_contains(&self.revoked, jti) {
            let mut revoked: Vec<String> = Vec::new();
            std::mem::swap(&mut revoked, &mut self.revoked);
            let ghost before = string_views(revoked@);
            revoked.push(owned(jti));
            assert(string_views(revoked@) =~= before.push(jti@));
            std::mem::swap(&mut revoked, &mut self.revoked);
        }
        Ok(())
    }

    /// Check whether a token identifier has been revoked.
    pub fn is_revoked(&self, jti: &str) -> (r: bool)
        ensures
            r == self.revoked_ids().contains(jti@),
    {
        list_contains(&self.revoked, jti)
    }

    /// Replace the grants recorded for an execution.
    pub fn replace_grants(&mut self, execution_id: &str, grants: Vec<CapabilityGrant>)
        ensures
            final(self).grants_for(execution_id@) == grant_views(grants@),
            forall|k: Seq<char>| k != execution_id@ ==> final(self).grants_for(k) == old(self).grants_for(k),
            final(self).signing_seed() == old(self).signing_seed(),
            final(self).revoked_ids() == old(self).revoked_ids(),
    {
        proof { use_type_invariant(&*self); }
        let mut entries: Vec<Entry> = Vec::new();
        std::mem::swap(&mut entries, &mut self.grants);
        replace_in(&mut entries, owned(execution_id), grants);
        std::mem::swap(&mut entries, &mut self.grants);
    }

    /// Record a grant under its execution.
    fn record(&mut self, g: CapabilityGrant)
        ensures
            final(self).grants_for(g.execution_id@) == old(self).grants_for(g.execution_id@).push(g@),
            forall|k: Seq<char>| k != g.execution_id@ ==> final(self).grants_for(k) == old(self).grants_for(k),
            final(self).signing_seed() == old(self).signing_seed(),
            final(self).revoked_ids() == old(self).revoked_ids(),
    {
        proof { use_type_invariant(&*self); }
        let ghost key = g.execution_id@;
        let mut entries: Vec<Entry> = Vec::new();
        std::mem::swap(&mut entries, &mut self.grants);
        record_in(&mut entries, g);
        std::mem::swap(&mut entries, &mut self.grants);
        assert(lookup(entry_views(self.grants@), key) == lookup(entry_views(old(self).grants@), key).push(g@));
    }
}

// ─── Verifier ───────────────────────────────────────────────────────────────

/// What building a verifier from a hex-encoded public key gives: the key,
/// or the error.
pub open spec fn spec_key_from_hex(text: Seq<char>) -> Result<Seq<u8>, Seq<char>> {
    match hex_decoded(trim(text)) {
        Err(e) => Err("decode pubkey: "@ + e),
        Ok(b) => if b.len() != 32 {
            Err("public key must be 32 bytes"@)
        } else if !ed25519_key_valid(b) {
            Err("invalid Ed25519 public key"@)
        } else {
            Ok(b)
        },
    }
}

/// The first failing grant's error, in order: a grant for another
/// execution, one that does not verify, or one that is not granted.
pub open spec fn first_grant_failure(
    public: Seq<u8>,
    revoked: Option<Seq<Seq<char>>>,
    task_execution_id: Seq<char>,
    gs: Seq<GrantView>,
    now: i64,
) -> Option<Seq<char>>
    decreases gs.len(),
{
    if gs.len() == 0 {
        None
    } else if gs[0].execution_id != task_execution_id {
        Some("capability grant execution ID mismatch"@)
    } else {
        match spec_verify_grant(public, revoked, gs[0], now) {
            Err(e) => Some(e),
            Ok(_) => if !gs[0].granted {
                Some("capability '"@ + gs[0].capability.kind + "' was denied"@)
            } else {
                first_grant_failure(public, revoked, task_execution_id, gs.drop_first(), now)
            },
        }
    }
}

/// Whether some grant is of the capability kind `kind`.
pub open spec fn kind_granted(gs: Seq<GrantView>, kind: Seq<char>) -> bool {
    exists|i: int| 0 <= i < gs.len() && #[trigger] gs[i].capability.kind == kind
}

/// The error for the first required capability whose kind no grant has.
pub open spec fn first_missing(gs: Seq<GrantView>, required: Seq<CapabilityView>) -> Option<Seq<char>>
    decreases required.len(),
{
    if required.len() == 0 {
        None
    } else if !kind_granted(gs, required[0].kind) {
        Some("missing capability grant for '"@ + required[0].kind + "'"@)
    } else {
        first_missing(gs, required.drop_first())
    }
}

/// What checking a task's grants answers at time `now`: the first failing
/// grant, then the first missing capability, else the granted capabilities
/// in order.
pub open spec fn spec_grants_for_task(
    public: Seq<u8>,
    revoked: Option<Seq<Seq<char>>>,
    task_execution_id: Seq<char>,
    gs: Seq<GrantView>,
    required: Seq<CapabilityView>,
    now: i64,
) -> Result<Seq<CapabilityView>, Seq<char>> {
    match first_grant_failure(public, revoked, task_execution_id, gs, now) {
        Some(e) => Err(e),
        None => match first_missing(gs, required) {
            Some(e) => Err(e),
            None => Ok(gs.map_values(|g: GrantView| g.capability)),
        },
    }
}

/// The views of a list of capabilities.
pub open spec fn capability_views(v: Seq<Capability>) -> Seq<CapabilityView> {
    v.map_values(|c: Capability| c@)
}

/// A list of capabilities or an error, as plain values.
pub open spec fn capabilities_result(r: Result<Vec<Capability>, String>) -> Result<Seq<CapabilityView>, Seq<char>> {
    match r {
        Ok(v) => Ok(capability_views(v@)),
        Err(e) => Err(e@),
    }
}

fn any_of_kind(grants: &[CapabilityGrant], kind: &str) -> (r: bool)
    ensures
        r == kind_granted(grant_views(grants@), kind@),
{
    let mut i: usize = 0;
    while i < grants.len()
        invariant
            i <= grants@.len(),
            forall|j: int| 0 <= j < i ==> grants@[j].capability@.kind != kind@,
        decreases grants@.len() - i,
    {
        if str_eq(grants[i].capability.name(), kind) {
            assert(grant_views(grants@)[i as int].capability.kind == kind@);
            return true;
        }
        i = i + 1;
    }
    assert(!kind_granted(grant_views(grants@), kind@)) by {
        if kind_granted(grant_views(grants@), kind@) {
            let k = choose|k: int| 0 <= k < grant_views(grants@).len() && #[trigger] grant_views(grants@)[k].capability.kind == kind@;
            assert(grants@[k].capability@.kind == kind@);
        }
    }
    false
}

fn quoted_error(prefix: &str, name: &str, suffix: &str) -> (r: String)
    ensures
        r@ == prefix@ + name@ + suffix@,
{
    let mut s = owned(prefix);
    push_str(&mut s, name);
    push_str(&mut s, suffix);
    s
}

/// Verifies capability grants using only the orchestrator's public key.
///
/// This is the trust boundary for VEE workers and the executor daemon: they
/// never hold the signing key, so they cannot mint new grants.
#[derive(Clone)]
pub struct CapabilityVerifier {
    public_key: [u8; 32],
    /// The revoked token identifiers, if known. Verifiers built from a
    /// public key alone cannot check revocation.
    revoked: Option<Vec<String>>,
}

impl CapabilityVerifier {
    /// The public key that grants are checked with.
    pub closed spec fn key(&self) -> Seq<u8> {
        self.public_key@
    }

    /// The revoked token identifiers, if the verifier has them.
    pub closed spec fn revocations(&self) -> Option<Seq<Seq<char>>> {
        revoked_view(self.revoked)
    }

    /// Build a verifier from a hex-encoded Ed25519 public key.
    ///
    /// Revocation checking is unavailable with this constructor; call
    /// `with_revoked_set` to supply a revocation set.
    pub fn from_public_key_hex(hex_key: &str) -> (r: Result<Self, String>)
        ensures
            match spec_key_from_hex(hex_key@) {
                Ok(k) => r is Ok && r->Ok_0.key() == k && r->Ok_0.revocations() is None,
                Err(e) => r is Err && r->Err_0@ == e,
            },
    {
        let text = trim_str(hex_key);
        let bytes = match hex_decode(text.as_str()) {
            Ok(b) => b,
            Err(e) => return Err(joined("decode pubkey: ", e.as_str())),
        };
        if bytes.len() != 32 {
            return Err(owned("public key must be 32 bytes"));
        }
        let mut key = [0u8; 32];
        let mut i: usize = 0;
        while i < 32
            invariant
                i <= 32,
                bytes@.len() == 32,
                forall|j: int| 0 <= j < i ==> key@[j] == bytes@[j],
            decreases 32 - i,
        {
            key.set(i, bytes[i]);
            i = i + 1;
        }
        assert(key@ =~= bytes@);
        if !key_is_valid(&key) {
            return Err(owned("invalid Ed25519 public key"));
        }
        Ok(CapabilityVerifier { public_key: key, revoked: None })
    }

    /// Build a verifier from the seed of a signing key (useful when sharing
    /// a keypair in tests or local development).
    pub fn from_signing_key(seed: &[u8; 32]) -> (r: Self)
        ensures
            r.key() == ed25519_public(seed@),
            r.revocations() is None,
    {
        CapabilityVerifier { public_key: public_key_of(seed), revoked: None }
    }

    /// Attach a revocation set to this verifier.
    pub fn with_revoked_set(self, revoked: Vec<String>) -> (r: Self)
        ensures
            r.key() == self.key(),
            r.revocations() == Some(string_views(revoked@)),
    {
        CapabilityVerifier { public_key: self.public_key, revoked: Some(revoked) }
    }

    /// Verify the signature and claims of a capability grant at time `now`.
    pub fn verify_grant_at(&self, grant: &CapabilityGrant, now: i64) -> (r: Result<(), String>)
        ensures
            unit_result(r) == spec_verify_grant(self.key(), self.revocations(), grant@, now),
    {
        verify_token(
            &self.public_key,
            &self.revoked,
            grant.signature.as_str(),
            grant.execution_id.as_str(),
            grant.capability.name(),
            now,
        )
    }

    /// Verify the signature and claims of a capability grant.
    ///
    /// Checks:
    /// - Ed25519 signature over the JWT header + claims.
    /// - Token is not expired and not revoked.
    /// - Claims `sub` matches the grant's execution ID.
    /// - Claims `cap` matches the grant's capability name.
    /// When the clock cannot be read, the grant is refused with that reason.
    pub fn verify_grant(&self, grant: &CapabilityGrant) -> (r: Result<(), String>)
        ensures
            (r is Err && r->Err_0@ == clock_error())
                || exists|now: i64| unit_result(r) == #[trigger] spec_verify_grant(self.key(), self.revocations(), grant@, now),
    {
        match now_timestamp() {
            Some(now) => self.verify_grant_at(grant, now),
            None => Err(clock_error_text()),
        }
    }

    /// Verify at time `now` that a set of grants covers every requested
    /// capability for a task.
    pub fn verify_grants_for_task_at(
        &self,
        task_execution_id: &str,
        grants: &[CapabilityGrant],
        required: &[Capability],
        now: i64,
    ) -> (r: Result<Vec<Capability>, String>)
        ensures
            capabilities_result(r) == spec_grants_for_task(
                self.key(),
                self.revocations(),
                task_execution_id@,
                grant_views(grants@),
                capability_views(required@),
                now,
            ),
    {
        let ghost gs = grant_views(grants@);
        let mut granted_caps: Vec<Capability> = Vec::new();
        let mut i: usize = 0;
        assert(gs.skip(0) =~= gs);
        assert(capability_views(granted_caps@) =~= gs.take(0).map_values(|g: GrantView| g.capability));
        while i < grants.len()
            invariant
                i <= grants@.len(),
                gs == grant_views(grants@),
                first_grant_failure(self.key(), self.revocations(), task_execution_id@, gs, now)
                    == first_grant_failure(self.key(), self.revocations(), task_execution_id@, gs.skip(i as int), now),
                capability_views(granted_caps@) == gs.take(i as int).map_values(|g: GrantView| g.capability),
            decreases grants@.len() - i,
        {
            let grant = &grants[i];
            proof {
                assert(gs.skip(i as int)[0] == grant@);
                assert(gs.skip(i as int).drop_first() =~= gs.skip(i + 1));
            }
            if !str_eq(grant.execution_id.as_str(), task_execution_id) {
                return Err(owned("capability grant execution ID mismatch"));
            }
            match self.verify_grant_at(grant, now) {
                Ok(()) => {},
                Err(e) => return Err(e),
            }
            if !grant.granted {
                return Err(quoted_error("capability '", grant.capability.name(), "' was denied"));
            }
            let ghost before = capability_views(granted_caps@);
            granted_caps.push(clone_capability(&grant.capability));
            proof {
                assert(capability_views(granted_caps@) =~= before.push(grant@.capability));
                assert(gs.take(i + 1).map_values(|g: GrantView| g.capability)
                    =~= gs.take(i as int).map_values(|g: GrantView| g.capability).push(grant@.capability));
            }
            i = i + 1;
        }
        proof {
            assert(gs.skip(gs.len() as int) =~= Seq::<GrantView>::empty());
            assert(gs.take(gs.len() as int) =~= gs);
        }
        let ghost rs = capability_views(required@);
        let mut k: usize = 0;
        assert(rs.skip(0) =~= rs);
        while k < required.len()
            invariant
                k <= required@.len(),
                rs == capability_views(required@),
                gs == grant_views(grants@),
                first_missing(gs, rs) == first_missing(gs, rs.skip(k as int)),
                first_grant_failure(self.key(), self.revocations(), task_execution_id@, gs, now) is None,
            decreases required@.len() - k,
        {
            let cap = &required[k];
            proof {
                assert(rs.skip(k as int)[0] == cap@);
                assert(rs.skip(k as int).drop_first() =~= rs.skip(k + 1));
            }
            if !any_of_kind(grants, cap.name()) {
                return Err(quoted_error("missing capability grant for '", cap.name(), "'"));
            }
            k = k + 1;
        }
        proof {
            assert(rs.skip(rs.len() as int) =~= Seq::<CapabilityView>::empty());
        }
        Ok(granted_caps)
    }

    /// Verify that a set of grants covers every requested capability for a
    /// task.
    ///
    /// Checks each grant is bound to `task_execution_id`, has a valid
    /// signature, is not expired/revoked, and is marked as granted. Then
    /// ensures every capability in `required` has a matching grant.
    /// When the clock cannot be read, the task is refused with that reason.
    pub fn verify_grants_for_task(
        &self,
        task_execution_id: &str,
        grants: &[CapabilityGrant],
        required: &[Capability],
    ) -> (r: Result<Vec<Capability>, String>)
        ensures
            (r is Err && r->Err_0@ == clock_error()) || exists|now: i64| capabilities_result(r) == #[trigger] spec_grants_for_task(
                self.key(),
                self.revocations(),
                task_execution_id@,
                grant_views(grants@),
                capability_views(required@),
                now,
            ),
    {
        match now_timestamp() {
            Some(now) => self.verify_grants_for_task_at(task_execution_id, grants, required, now),
            None => Err(clock_error_text()),
        }
    }
}

// ─── Capability lists ───────────────────────────────────────────────────────

/// The index of the first `c` in `s`, if there is one.
pub open spec fn first_index(s: Seq<char>, c: char) -> Option<int>
    decreases s.len(),
{
    if s.len() == 0 {
        None
    } else if s[0] == c {
        Some(0)
    } else {
        match first_index(s.drop_first(), c) {
            Some(i) => Some(i + 1),
            None => None,
        }
    }
}

proof fn lemma_first_index(s: Seq<char>, c: char, i: int)
    requires
        0 <= i <= s.len(),
        forall|j: int| 0 <= j < i ==> s[j] != c,
        i < s.len() ==> s[i] == c,
    ensures
        first_index(s, c) == if i < s.len() { Some(i) } else { None::<int> },
    decreases i,
{
    if i > 0 {
        assert forall|j: int| 0 <= j < i - 1 implies s.drop_first()[j] != c by {
            assert(s.drop_first()[j] == s[j + 1]);
        }
        if i < s.len() {
            assert(s.drop_first()[i - 1] == s[i]);
        }
        assert(s[0] != c);
        lemma_first_index(s.drop_first(), c, i - 1);
    }
}

/// A capability text split at its first `:` into a trimmed name and a
/// trimmed value, or the whole text trimmed and no value.
pub open spec fn name_and_value(s: Seq<char>) -> (Seq<char>, Option<Seq<char>>) {
    match first_index(s, ':') {
        Some(i) => (trim(s.take(i)), Some(trim(s.skip(i + 1)))),
        None => (trim(s), None),
    }
}

/// The comma-separated items of a value, trimmed, empty ones left out.
pub open spec fn csv_items(value: Option<Seq<char>>) -> Seq<Seq<char>> {
    match value {
        None => seq![],
        Some(raw) => split_char(raw, ',').map_values(|p: Seq<char>| trim(p)).filter(|p: Seq<char>| p.len() > 0),
    }
}

/// A capability that carries a list of texts.
pub open spec fn listed(kind: Seq<char>, texts: Seq<Seq<char>>) -> CapabilityView {
    CapabilityView { kind, texts, ports: seq![], number: None }
}

/// The capability a text names, if it names one: a kind, optionally
/// followed by `:` and its paths, hosts or provider.
pub open spec fn parse_one(s: Seq<char>) -> Option<CapabilityView> {
    let (name, value) = name_and_value(s);
    if name == "filesystem_read"@ || name == "filesystem_write"@ || name == "filesystem_create"@
        || name == "network_access"@ {
        Some(listed(name, csv_items(value)))
    } else if name == "network_dns"@ || name == "process_spawn"@ || name == "environment_read"@
        || name == "environment_write"@ || name == "gpu_compute"@ || name == "browser_automation"@
        || name == "ssme_read"@ || name == "ssme_write"@ || name == "belief_graph_query"@ {
        Some(crate::types::capability::bare_view(name))
    } else if name == "inference_provider"@ {
        match value {
            Some(p) => Some(listed(name, seq![p])),
            None => None,
        }
    } else {
        None
    }
}

fn char_range(chars: &Vec<char>, from: usize, to: usize) -> (r: String)
    requires
        from <= to <= chars@.len(),
    ensures
        r@ == chars@.subrange(from as int, to as int),
{
    let mut out = String::new();
    let mut i: usize = from;
    while i < to
        invariant
            from <= i <= to <= chars@.len(),
            out@ == chars@.subrange(from as int, i as int),
        decreases to - i,
    {
        push_char(&mut out, chars[i]);
        assert(out@ =~= chars@.subrange(from as int, i + 1));
        i = i + 1;
    }
    out
}

/// Split a capability text into its trimmed name and value.
fn split_name_value(s: &str) -> (r: (String, Option<String>))
    ensures
        r.0@ == name_and_value(s@).0,
        opt_view(r.1) == name_and_value(s@).1,
{
    let cs = chars_of(s);
    let mut i: usize = 0;
    while i < cs.len()
        invariant_except_break
            i <= cs@.len(),
            cs@ == s@,
            forall|j: int| 0 <= j < i ==> cs@[j] != ':',
        ensures
            i <= cs@.len(),
            cs@ == s@,
            forall|j: int| 0 <= j < i ==> cs@[j] != ':',
            i < cs@.len() ==> cs@[i as int] == ':',
        decreases cs@.len() - i,
    {
        if cs[i] == ':' {
            break;
        }
        i = i + 1;
    }
    proof { lemma_first_index(s@, ':', i as int); }
    if i < cs.len() {
        let name = char_range(&cs, 0, i);
        let value = char_range(&cs, i + 1, cs.len());
        assert(cs@.subrange(0, i as int) =~= s@.take(i as int));
        assert(cs@.subrange(i + 1, cs@.len() as int) =~= s@.skip(i + 1));
        (trim_str(name.as_str()), Some(trim_str(value.as_str())))
    } else {
        (trim_str(s), None)
    }
}

/// The comma-separated items of a capability value, trimmed, empty ones
/// left out.
pub fn parse_csv(value: Option<&str>) -> (r: Vec<String>)
    ensures
        string_views(r@) == csv_items(match value {
            Some(v) => Some(v@),
            None => None::<Seq<char>>,
        }),
{
    let raw = match value {
        Some(v) => v,
        None => {
            let r: Vec<String> = Vec::new();
            assert(string_views(r@) =~= Seq::<Seq<char>>::empty());
            return r;
        },
    };
    let pieces = split_by(raw, ',');
    let ghost trimmed = split_char(raw@, ',').map_values(|p: Seq<char>| trim(p));
    let ghost keep = |p: Seq<char>| p.len() > 0;
    let mut out: Vec<String> = Vec::new();
    let mut i: usize = 0;
    assert(trimmed.take(0).filter(keep) =~= Seq::<Seq<char>>::empty()) by {
        reveal(Seq::filter);
    }
    while i < pieces.len()
        invariant
            i <= pieces@.len(),
            string_views(pieces@) == split_char(raw@, ','),
            trimmed == split_char(raw@, ',').map_values(|p: Seq<char>| trim(p)),
            keep == |p: Seq<char>| p.len() > 0,
            string_views(out@) == trimmed.take(i as int).filter(keep),
        decreases pieces@.len() - i,
    {
        let t = trim_str(pieces[i].as_str());
        proof {
            assert(string_views(pieces@)[i as int] == pieces@[i as int]@);
            assert(trimmed[i as int] == t@);
            assert(trimmed.take(i + 1).drop_last() =~= trimmed.take(i as int));
            assert(trimmed.take(i + 1).last() == t@);
            reveal(Seq::filter);
            assert(trimmed.take(i + 1).filter(keep) == (if t@.len() > 0 {
                trimmed.take(i as int).filter(keep).push(t@)
            } else {
                trimmed.take(i as int).filter(keep)
            }));
        }
        if !t.as_str().is_empty() {
            let ghost before = string_views(out@);
            out.push(t);
            proof { assert(string_views(out@) =~= before.push(trimmed[i as int])); }
        }
        i = i + 1;
    }
    assert(trimmed.take(pieces@.len() as int) =~= trimmed);
    out
}

/// The capability a text names, built.
fn parse_capability(s: &str) -> (r: Option<Capability>)
    ensures
        match parse_one(s@) {
            Some(v) => r is Some && r->Some_0@ == v,
            None => r is None,
        },
{
    let (name, value) = split_name_value(s);
    let n = name.as_str();
    let v = match &value {
        Some(x) => Some(x.as_str()),
        None => None,
    };
    assert(match v { Some(x) => Some(x@), None => None::<Seq<char>> } == opt_view(value));
    if str_eq(n, "filesystem_read") {
        Some(Capability::FilesystemRead { paths: parse_csv(v) })
    } else if str_eq(n, "filesystem_write") {
        Some(Capability::FilesystemWrite { paths: parse_csv(v) })
    } else if str_eq(n, "filesystem_create") {
        Some(Capability::FilesystemCreate { paths: parse_csv(v) })
    } else if str_eq(n, "network_access") {
        let ports: Vec<u16> = Vec::new();
        let r = Capability::NetworkAccess { hosts: parse_csv(v), ports };
        assert(ports@ =~= Seq::<u16>::empty());
        Some(r)
    } else if str_eq(n, "network_dns") {
        Some(Capability::NetworkDns)
    } else if str_eq(n, "process_spawn") {
        Some(Capability::ProcessSpawn)
    } else if str_eq(n, "environment_read") {
        Some(Capability::EnvironmentRead)
    } else if str_eq(n, "environment_write") {
        Some(Capability::EnvironmentWrite)
    } else if str_eq(n, "gpu_compute") {
        Some(Capability::GpuCompute { device: None })
    } else if str_eq(n, "browser_automation") {
        Some(Capability::BrowserAutomation)
    } else if str_eq(n, "ssme_read") {
        Some(Capability::SsmeRead)
    } else if str_eq(n, "ssme_write") {
        Some(Capability::SsmeWrite)
    } else if str_eq(n, "belief_graph_query") {
        Some(Capability::BeliefGraphQuery)
    } else if str_eq(n, "inference_provider") {
        match v {
            Some(p) => Some(Capability::InferenceProvider { provider: owned(p) }),
            None => None,
        }
    } else {
        None
    }
}

impl CapabilityRegistry {
    /// Parse string capabilities into typed capabilities; texts that name
    /// no capability are left out.
    pub fn parse_capabilities(caps: &[String]) -> (r: Vec<Capability>)
        ensures
            capability_views(r@) == string_views(caps@).filter_map(|s: Seq<char>| parse_one(s)),
    {
        let ghost sv = string_views(caps@);
        let mut out: Vec<Capability> = Vec::new();
        let mut i: usize = 0;
        assert(sv.take(0).filter_map(|s: Seq<char>| parse_one(s)) =~= Seq::<CapabilityView>::empty());
        assert(capability_views(out@) =~= Seq::<CapabilityView>::empty());
        while i < caps.len()
            invariant
                i <= caps@.len(),
                sv == string_views(caps@),
                capability_views(out@) == sv.take(i as int).filter_map(|s: Seq<char>| parse_one(s)),
            decreases caps@.len() - i,
        {
            proof {
                assert(sv.take(i + 1).drop_last() =~= sv.take(i as int));
                assert(sv.take(i + 1).last() == caps@[i as int]@);
            }
            match parse_capability(caps[i].as_str()) {
                Some(c) => {
                    let ghost before = capability_views(out@);
                    let ghost cv = c@;
                    out.push(c);
                    proof { assert(capability_views(out@) =~= before + seq![cv]); }
                },
                None => {},
            }
            i = i + 1;
        }
        assert(sv.take(caps@.len() as int) =~= sv);
        out
    }
}

// ─── Laws ───────────────────────────────────────────────────────────────────

/// The identifier a token's claims carry, if the token can be read.
pub open spec fn token_jti(token: Seq<char>) -> Option<Seq<char>> {
    let parts = split_char(token, '.');
    if parts.len() != 3 {
        None
    } else {
        match b64url_decode(parts[1]) {
            Ok(cb) => match claims_of_bytes(cb) {
                Some(c) => Some(c.jti),
                None => None,
            },
            Err(_) => None,
        }
    }
}

/// A token that verifies when revocation is not checked is refused as
/// revoked once its identifier is in the revocation list.
pub proof fn lemma_revoked_token_refused(
    public: Seq<u8>,
    revoked: Seq<Seq<char>>,
    token: Seq<char>,
    execution_id: Seq<char>,
    capability: Seq<char>,
    now: i64,
)
    requires
        spec_verify_token(public, None, token, execution_id, capability, now) is Ok,
        token_jti(token) is Some,
        revoked.contains(token_jti(token)->Some_0),
    ensures
        spec_verify_token(public, Some(revoked), token, execution_id, capability, now)
            == Err::<(), Seq<char>>("capability grant revoked"@),
{
}

/// Revocation only ever adds the revocation error: a token verifies with
/// a revocation list exactly as without one, unless it is refused as
/// revoked.
pub proof fn lemma_revocation_only_refuses(
    public: Seq<u8>,
    revoked: Seq<Seq<char>>,
    token: Seq<char>,
    execution_id: Seq<char>,
    capability: Seq<char>,
    now: i64,
)
    ensures
        spec_verify_token(public, Some(revoked), token, execution_id, capability, now)
            == spec_verify_token(public, None, token, execution_id, capability, now)
        || spec_verify_token(public, Some(revoked), token, execution_id, capability, now)
            == Err::<(), Seq<char>>("capability grant revoked"@),
{
}

/// A registry that holds no grants, as one whose key was just rotated,
/// verifies no capability for any execution.
pub proof fn lemma_no_grants_verify_nothing(
    registry: CapabilityRegistry,
    execution_id: Seq<char>,
    capability: Seq<char>,
    now: i64,
)
    requires
        registry.grants_for(execution_id) == Seq::<GrantView>::empty(),
    ensures
        !grants_verify(registry.verifying_key(), Some(registry.revoked_ids()), registry.grants_for(execution_id), capability, now),
{
}

} // verus!
