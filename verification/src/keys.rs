//! How the capability signing seed is kept at rest: as hexadecimal text in
//! the OS keyring, or sealed with ChaCha20-Poly1305 under a key derived from
//! the key directory. Reading and writing the keyring and the file are left
//! to the caller.
use vstd::prelude::*;
use chacha20poly1305::aead::{Aead, KeyInit};
use vstd::utf8::encode_utf8;
use crate::capability::{bytes_of, hex_decode, hex_decoded, hex_encode, hex_lower};
use crate::text::{owned, push_char, push_str};

verus! {

broadcast use vstd::string::group_string_axioms;

/// What `ChaCha20Poly1305::encrypt` gives for a key, a nonce and a plaintext:
/// the ciphertext with its tag, or the text of the error.
pub uninterp spec fn aead_seal(key: Seq<u8>, nonce: Seq<u8>, plaintext: Seq<u8>) -> Result<Seq<u8>, Seq<char>>;

/// What `ChaCha20Poly1305::decrypt` gives for a key, a nonce and a
/// ciphertext: the plaintext, or the text of the error.
pub uninterp spec fn aead_open(key: Seq<u8>, nonce: Seq<u8>, ciphertext: Seq<u8>) -> Result<Seq<u8>, Seq<char>>;

/// What `blake3::hash(..).as_bytes()` gives: the 32-byte BLAKE3 hash.
pub uninterp spec fn blake3_bytes(bytes: Seq<u8>) -> Seq<u8>;

/// `ChaCha20Poly1305::new(key).encrypt(nonce, plaintext)`, its error shown
/// as text. Both outcomes are given by the name `aead_seal`. As the crates'
/// source shows, it fails only on a plaintext of 2^32 - 1 blocks of 64
/// bytes or more, appends a 16-byte tag to a ciphertext as long as the
/// plaintext, and `decrypt` with the same key and nonce gives the
/// plaintext back.
#[verifier::external_body]
fn seal(key: &[u8; 32], nonce: &[u8; 12], plaintext: &[u8]) -> (r: Result<Vec<u8>, String>)
    ensures
        match aead_seal(key@, nonce@, plaintext@) {
            Ok(c) => r is Ok && r->Ok_0@ == c,
            Err(e) => r is Err && r->Err_0@ == e,
        },
        plaintext@.len() / 64 < 0xffff_ffff ==> r is Ok,
        r is Ok ==> r->Ok_0@.len() == plaintext@.len() + 16,
        r is Ok ==> aead_open(key@, nonce@, r->Ok_0@) is Ok && aead_open(key@, nonce@, r->Ok_0@)->Ok_0 == plaintext@,
{
    let cipher = chacha20poly1305::ChaCha20Poly1305::new(&chacha20poly1305::Key::from(*key));
    match cipher.encrypt(chacha20poly1305::Nonce::from_slice(nonce), plaintext) {
        Ok(c) => Ok(c),
        Err(e) => Err(e.to_string()),
    }
}

/// `ChaCha20Poly1305::new(key).decrypt(nonce, ciphertext)`, its error shown
/// as text. Both outcomes are given by the name `aead_open`. The nonce must
/// be 12 bytes, as `Nonce::from_slice` panics otherwise.
#[verifier::external_body]
fn open(key: &[u8; 32], nonce: &[u8], ciphertext: &[u8]) -> (r: Result<Vec<u8>, String>)
    requires
        nonce@.len() == 12,
    ensures
        match aead_open(key@, nonce@, ciphertext@) {
            Ok(p) => r is Ok && r->Ok_0@ == p,
            Err(e) => r is Err && r->Err_0@ == e,
        },
{
    let cipher = chacha20poly1305::ChaCha20Poly1305::new(&chacha20poly1305::Key::from(*key));
    match cipher.decrypt(chacha20poly1305::Nonce::from_slice(nonce), ciphertext) {
        Ok(p) => Ok(p),
        Err(e) => Err(e.to_string()),
    }
}

/// `*blake3::hash(bytes).as_bytes()`: named `blake3_bytes`.
#[verifier::external_body]
fn blake3_digest(bytes: &[u8]) -> (r: [u8; 32])
    ensures
        r@ == blake3_bytes(bytes@),
{
    *blake3::hash(bytes).as_bytes()
}

/// `<[u8; 32]>::try_from(&[u8])`: the bytes as an array when there are
/// exactly 32 of them.
#[verifier::external_body]
fn to_array(bytes: &[u8]) -> (r: Option<[u8; 32]>)
    ensures
        r is Some == (bytes@.len() == 32),
        r is Some ==> r->Some_0@ == bytes@,
{
    <[u8; 32]>::try_from(bytes).ok()
}

/// The bytes from `lo` up to `hi`.
fn sub_bytes(b: &[u8], lo: usize, hi: usize) -> (r: Vec<u8>)
    requires
        lo <= hi <= b@.len(),
    ensures
        r@ == b@.subrange(lo as int, hi as int),
{
    let mut v: Vec<u8> = Vec::new();
    let mut i: usize = lo;
    while i < hi
        invariant
            lo <= i <= hi,
            hi <= b@.len(),
            v@ == b@.subrange(lo as int, i as int),
        decreases hi - i,
    {
        v.push(b[i]);
        proof { assert(v@ =~= b@.subrange(lo as int, i + 1)); }
        i = i + 1;
    }
    v
}

/// A seed as the keyring keeps it: lower-case hexadecimal text, which
/// `seed_from_hex` reads back.
pub fn seed_to_hex(seed: &[u8; 32]) -> (r: String)
    ensures
        r@ == hex_lower(seed@),
        spec_seed_from_hex(r@) == Ok::<Seq<u8>, Seq<char>>(seed@),
{
    hex_encode(seed)
}

/// The seed kept in the keyring as hexadecimal text.
pub open spec fn spec_seed_from_hex(text: Seq<char>) -> Result<Seq<u8>, Seq<char>> {
    match hex_decoded(text) {
        Err(e) => Err("decode keyring seed: "@ + e),
        Ok(b) => if b.len() == 32 { Ok(b) } else { Err("keyring seed length invalid"@) },
    }
}

pub fn seed_from_hex(text: &str) -> (r: Result<[u8; 32], String>)
    ensures
        match spec_seed_from_hex(text@) {
            Ok(b) => r is Ok && r->Ok_0@ == b,
            Err(e) => r is Err && r->Err_0@ == e,
        },
{
    match hex_decode(text) {
        Err(e) => {
            let mut msg = owned("decode keyring seed: ");
            push_str(&mut msg, e.as_str());
            Err(msg)
        },
        Ok(b) => match to_array(b.as_slice()) {
            Some(a) => Ok(a),
            None => Err(owned("keyring seed length invalid")),
        },
    }
}

/// The key the seed file is sealed with: the BLAKE3 hash of the key
/// directory, a colon and the pepper.
pub fn encryption_key(key_dir: &str, pepper: &str) -> (r: [u8; 32])
    ensures
        r@ == blake3_bytes(encode_utf8(key_dir@ + seq![':'] + pepper@)),
{
    let mut material = owned(key_dir);
    push_char(&mut material, ':');
    push_str(&mut material, pepper);
    proof { assert(material@ =~= key_dir@ + seq![':'] + pepper@); }
    let b = bytes_of(material.as_str());
    blake3_digest(b.as_slice())
}

/// The file a seed is kept in: the nonce followed by the sealed seed. A
/// seed always seals, and the file opens with the same key to that seed.
pub fn seal_seed(key: &[u8; 32], nonce: &[u8; 12], seed: &[u8; 32]) -> (r: Result<Vec<u8>, String>)
    ensures
        match aead_seal(key@, nonce@, seed@) {
            Ok(c) => r is Ok && r->Ok_0@ == nonce@ + c,
            Err(e) => r is Err && r->Err_0@ == "encrypt seed: "@ + e,
        },
        r is Ok,
        r is Ok ==> spec_seed_from_payload(key@, r->Ok_0@) == Ok::<Seq<u8>, Seq<char>>(seed@),
{
    match seal(key, nonce, seed) {
        Err(e) => {
            let mut msg = owned("encrypt seed: ");
            push_str(&mut msg, e.as_str());
            Err(msg)
        },
        Ok(c) => {
            let mut out: Vec<u8> = Vec::new();
            let mut i: usize = 0;
            while i < 12
                invariant
                    i <= 12,
                    out@ == nonce@.take(i as int),
                decreases 12 - i,
            {
                out.push(nonce[i]);
                proof { assert(out@ =~= nonce@.take(i + 1)); }
                i = i + 1;
            }
            let mut j: usize = 0;
            while j < c.len()
                invariant
                    j <= c@.len(),
                    out@ == nonce@ + c@.take(j as int),
                decreases c@.len() - j,
            {
                out.push(c[j]);
                proof { assert(out@ =~= nonce@ + c@.take(j + 1)); }
                j = j + 1;
            }
            proof {
                assert(c@.take(c@.len() as int) =~= c@);
                assert(out@.take(12) =~= nonce@);
                assert(out@.skip(12) =~= c@);
            }
            Ok(out)
        },
    }
}

/// The seed a seed file holds: its first 12 bytes are the nonce, the rest
/// the sealed seed, which must open to 32 bytes.
pub open spec fn spec_seed_from_payload(key: Seq<u8>, payload: Seq<u8>) -> Result<Seq<u8>, Seq<char>> {
    if payload.len() < 28 {
        Err("encrypted seed file is too short"@)
    } else {
        match aead_open(key, payload.take(12), payload.skip(12)) {
            Err(e) => Err("decrypt seed: "@ + e),
            Ok(p) => if p.len() == 32 { Ok(p) } else { Err("decrypted seed length invalid"@) },
        }
    }
}

pub fn seed_from_payload(key: &[u8; 32], payload: &[u8]) -> (r: Result<[u8; 32], String>)
    ensures
        match spec_seed_from_payload(key@, payload@) {
            Ok(b) => r is Ok && r->Ok_0@ == b,
            Err(e) => r is Err && r->Err_0@ == e,
        },
{
    if payload.len() < 28 {
        return Err(owned("encrypted seed file is too short"));
    }
    let nonce = sub_bytes(payload, 0, 12);
    let ciphertext = sub_bytes(payload, 12, payload.len());
    proof {
        assert(nonce@ =~= payload@.take(12));
        assert(ciphertext@ =~= payload@.skip(12));
    }
    match open(key, nonce.as_slice(), ciphertext.as_slice()) {
        Err(e) => {
            let mut msg = owned("decrypt seed: ");
            push_str(&mut msg, e.as_str());
            Err(msg)
        },
        Ok(p) => match to_array(p.as_slice()) {
            Some(a) => Ok(a),
            None => Err(owned("decrypted seed length invalid")),
        },
    }
}

} // verus!
