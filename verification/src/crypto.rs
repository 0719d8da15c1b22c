//! Cryptographic primitives behind trusted wrappers: SHA-512 digests and
//! Ed25519ph signatures over prehashed messages. The mathematical results of
//! the outside calls are named by uninterpreted spec functions; everything the
//! protocol concludes about digests and signatures goes through the contracts
//! stated here.

use vstd::prelude::*;

use ed25519_dalek::Digest as _;
use sha2::Digest as _;

verus! {

/// The 64-byte SHA-512 digest of a byte string.
pub uninterp spec fn sha512_of(bytes: Seq<u8>) -> Seq<u8>;

/// Whether these 64 bytes are a usable keypair: `Keypair::from_bytes`
/// accepts them, and the stored public half (the last 32 bytes) equals the
/// public key derived from the secret half. Without the second condition a
/// signature would hash a foreign public key into its challenge and verify
/// under no key at all.
pub uninterp spec fn keypair_wf(key_pair: Seq<u8>) -> bool;

/// The public-key bytes of the keypair parsed from `key_pair`: its last 32
/// bytes, which for a well-formed keypair are also the key derived from the
/// secret half.
pub uninterp spec fn public_key_of(key_pair: Seq<u8>) -> Seq<u8>;

/// The Ed25519ph signature produced by the keypair parsed from `key_pair`
/// over the SHA-512 prehash of `msg`, with no context string.
pub uninterp spec fn signature_of(key_pair: Seq<u8>, msg: Seq<u8>) -> Seq<u8>;

/// Whether Ed25519ph verification of `sig` over the SHA-512 prehash of `msg`
/// succeeds under the public key parsed from `public_key` (false whenever the
/// key or signature bytes do not parse).
pub uninterp spec fn signature_valid(public_key: Seq<u8>, msg: Seq<u8>, sig: Seq<u8>) -> bool;

/// Relies on `sha2::Sha512`: the digest is a pure function of the input
/// bytes and is 64 bytes long.
#[verifier::external_body]
pub(crate) fn sha512(bytes: &Vec<u8>) -> (r: Vec<u8>)
    ensures
        r@ == sha512_of(bytes@),
        r@.len() == 64,
{
    let mut hasher = sha2::Sha512::new();
    hasher.update(bytes.as_slice());
    hasher.finalize().to_vec()
}

/// Relies on `ed25519_dalek::Keypair::from_bytes` and
/// `PublicKey::from(&SecretKey)`: both are deterministic, so whether the
/// bytes parse and whether the stored public half matches the derived one
/// depend on the bytes alone. `from_bytes` itself never checks that the two
/// halves belong together, so the derivation check here is what makes
/// signing sound.
#[verifier::external_body]
pub(crate) fn keypair_is_wf(key_pair: &Vec<u8>) -> (r: bool)
    ensures
        r == keypair_wf(key_pair@),
{
    match ed25519_dalek::Keypair::from_bytes(key_pair.as_slice()) {
        Ok(parsed) => {
            let derived = ed25519_dalek::PublicKey::from(&parsed.secret);
            parsed.public.to_bytes() == derived.to_bytes()
        },
        Err(_) => false,
    }
}

/// Relies on `ed25519_dalek::Keypair::sign_prehashed` over the SHA-512
/// prehash of `msg` with no context: the signature is deterministic in the
/// keypair and message, is 64 bytes, and — because a well-formed keypair's
/// stored public half is the one derived from its secret half — verifies
/// under that public key (the documented correctness of Ed25519ph). With a
/// well-formed keypair and an empty context neither call can fail.
#[verifier::external_body]
pub(crate) fn sign_message(key_pair: &Vec<u8>, msg: &Vec<u8>) -> (r: Vec<u8>)
    requires
        keypair_wf(key_pair@),
    ensures
        r@ == signature_of(key_pair@, msg@),
        r@.len() == 64,
        signature_valid(public_key_of(key_pair@), msg@, r@),
{
    let parsed = ed25519_dalek::Keypair::from_bytes(key_pair.as_slice()).unwrap();
    let mut prehashed = ed25519_dalek::Sha512::new();
    prehashed.update(msg.as_slice());
    let signature = parsed.sign_prehashed(prehashed, None).unwrap();
    signature.to_bytes().to_vec()
}

/// Relies on `ed25519_dalek::PublicKey::verify_prehashed` over the SHA-512
/// prehash of `msg` with no context: acceptance is deterministic in the key,
/// message and signature bytes; unparseable key or signature bytes verify as
/// false.
#[verifier::external_body]
pub(crate) fn verify_signature(public_key: &Vec<u8>, msg: &Vec<u8>, sig: &Vec<u8>) -> (r: bool)
    ensures
        r == signature_valid(public_key@, msg@, sig@),
{
    let parsed_key = match ed25519_dalek::PublicKey::from_bytes(public_key.as_slice()) {
        Ok(k) => k,
        Err(_) => return false,
    };
    let parsed_sig = match ed25519_dalek::Signature::from_bytes(sig.as_slice()) {
        Ok(s) => s,
        Err(_) => return false,
    };
    let mut prehashed = ed25519_dalek::Sha512::new();
    prehashed.update(msg.as_slice());
    parsed_key.verify_prehashed(prehashed, None, &parsed_sig).is_ok()
}

} // verus!
