//! Envelope encryption of the environment payload for the VM manager.
//!
//! Each call draws a fresh ephemeral key pair, derives a shared secret with
//! the recipient's public key, and seals the payload under AES-256-GCM with
//! a fresh twelve-byte nonce. The envelope is the ephemeral public key, the
//! nonce and the ciphertext, hex-encoded. The shared secret is used as the
//! cipher key directly, with no separate derivation step; that is a
//! deliberate simplification of the scheme and must not change silently.

use vstd::prelude::*;
use vstd::string::StringSliceAdditionalSpecFns;

use crate::hashing::{bytes_of_hex, hex_decode, hex_encode, hex_of_bytes, valid_hex};

verus! {

/// Why sealing failed; a failure aborts the cycle before any create call.
#[derive(Debug)]
pub enum CryptoError {
    InvalidHexKey,
    WrongKeyLength { len: usize },
    EncryptionFailed,
}

#[verifier::external_type_specification]
#[verifier::external_body]
pub struct ExEphemeralSecret(x25519_dalek::EphemeralSecret);

/// Relies on x25519_dalek::EphemeralSecret::random_from_rng with the thread
/// generator: a fresh secret; nothing can be said of its value.
#[verifier::external_body]
fn x25519_ephemeral_secret() -> x25519_dalek::EphemeralSecret {
    x25519_dalek::EphemeralSecret::random_from_rng(rand::thread_rng())
}

/// Relies on x25519_dalek::PublicKey::from a secret reference: the public
/// key is thirty-two bytes.
#[verifier::external_body]
fn x25519_public_bytes(secret: &x25519_dalek::EphemeralSecret) -> (r: Vec<u8>)
    ensures
        r@.len() == 32,
{
    x25519_dalek::PublicKey::from(secret).to_bytes().to_vec()
}

/// Relies on x25519_dalek::EphemeralSecret::diffie_hellman: the shared
/// secret is thirty-two bytes.
#[verifier::external_body]
fn x25519_shared_secret(secret: x25519_dalek::EphemeralSecret, remote: &[u8]) -> (r: Vec<u8>)
    requires
        remote@.len() == 32,
    ensures
        r@.len() == 32,
{
    let mut key = [0u8; 32];
    key.copy_from_slice(remote);
    secret.diffie_hellman(&x25519_dalek::PublicKey::from(key)).to_bytes().to_vec()
}

/// Relies on rand::thread_rng's fill_bytes: twelve fresh bytes; nothing can
/// be said of their values.
#[verifier::external_body]
fn random_nonce_bytes() -> (r: Vec<u8>)
    ensures
        r@.len() == 12,
{
    let mut nonce = [0u8; 12];
    rand::RngCore::fill_bytes(&mut rand::thread_rng(), &mut nonce);
    nonce.to_vec()
}

/// Relies on aes_gcm::Aes256Gcm (KeyInit::new and Aead::encrypt): the
/// ciphertext carries the sixteen-byte tag after the plaintext, and with no
/// associated data the one failure is a message over 2^36 bytes.
#[verifier::external_body]
fn aes256_gcm_seal(key: &[u8], nonce: &[u8], plaintext: &[u8]) -> (r: Option<Vec<u8>>)
    requires
        key@.len() == 32,
        nonce@.len() == 12,
    ensures
        r is Some <==> plaintext@.len() <= 0x10_0000_0000,
        r matches Option::Some(c) ==> c@.len() == plaintext@.len() + 16,
{
    let cipher = <aes_gcm::Aes256Gcm as aes_gcm::KeyInit>::new(key.into());
    aes_gcm::aead::Aead::encrypt(&cipher, nonce.into(), plaintext).ok()
}

/// The exact bytes that are sealed: the environment list wrapped as the
/// single member of an `env` object.
pub open spec fn env_payload(env_json: Seq<u8>) -> Seq<u8> {
    seq![0x7bu8, 0x22u8, 0x65u8, 0x6eu8, 0x76u8, 0x22u8, 0x3au8] + env_json + seq![0x7du8]
}

/// The key hex text with an optional leading `0x` removed.
pub open spec fn stripped_key(s: Seq<u8>) -> Seq<u8> {
    if s.len() >= 2 && s[0] == 0x30 && s[1] == 0x78 {
        s.skip(2)
    } else {
        s
    }
}

/// Seals the environment JSON for the holder of the private key matching
/// `pubkey_hex`. A key that is not hex text, or that does not decode to
/// exactly thirty-two bytes, is rejected before any randomness is drawn;
/// every well-formed key seals successfully unless the payload exceeds the
/// cipher's 2^36-byte bound. The envelope is the fresh ephemeral public
/// key, the fresh nonce and the ciphertext with its tag, as lower-case hex.
pub fn encrypt_env(env_json: &str, pubkey_hex: &str) -> (r: Result<String, CryptoError>)
    ensures
        !valid_hex(stripped_key(pubkey_hex.spec_bytes())) <==> (r matches Result::Err(e)
            && e is InvalidHexKey),
        valid_hex(stripped_key(pubkey_hex.spec_bytes())) && bytes_of_hex(
            stripped_key(pubkey_hex.spec_bytes()),
        ).len() != 32 <==> (r matches Result::Err(e) && (e matches CryptoError::WrongKeyLength {
            len,
        } && len == bytes_of_hex(stripped_key(pubkey_hex.spec_bytes())).len())),
        (r matches Result::Err(e) && e is EncryptionFailed) <==> (valid_hex(
            stripped_key(pubkey_hex.spec_bytes()),
        ) && bytes_of_hex(stripped_key(pubkey_hex.spec_bytes())).len() == 32 && env_payload(
            env_json.spec_bytes(),
        ).len() > 0x10_0000_0000),
        r is Ok <==> (valid_hex(stripped_key(pubkey_hex.spec_bytes())) && bytes_of_hex(
            stripped_key(pubkey_hex.spec_bytes()),
        ).len() == 32 && env_payload(env_json.spec_bytes()).len() <= 0x10_0000_0000),
        r matches Result::Ok(s) ==> s@.len() == 2 * (60 + env_payload(
            env_json.spec_bytes(),
        ).len()),
        r matches Result::Ok(s) ==> (exists|eph: Seq<u8>, non: Seq<u8>, ct: Seq<u8>|
            eph.len() == 32 && non.len() == 12 && ct.len() == env_payload(
                env_json.spec_bytes(),
            ).len() + 16 && s@ == #[trigger] hex_of_bytes(eph + non + ct)),
{
    let hex_bytes = pubkey_hex.as_bytes();
    let stripped: &[u8] = if hex_bytes.len() >= 2 && hex_bytes[0] == 0x30 && hex_bytes[1] == 0x78 {
        vstd::slice::slice_subrange(hex_bytes, 2, hex_bytes.len())
    } else {
        hex_bytes
    };
    proof {
        assert(stripped@ == stripped_key(pubkey_hex.spec_bytes()));
    }
    let key_bytes = match hex_decode(stripped) {
        Option::Some(b) => b,
        Option::None => {
            return Result::Err(CryptoError::InvalidHexKey);
        },
    };
    if key_bytes.len() != 32 {
        return Result::Err(CryptoError::WrongKeyLength { len: key_bytes.len() });
    }
    let mut payload: Vec<u8> = Vec::new();
    payload.push(0x7b);
    payload.push(0x22);
    payload.push(0x65);
    payload.push(0x6e);
    payload.push(0x76);
    payload.push(0x22);
    payload.push(0x3a);
    let env_bytes = env_json.as_bytes();
    let mut i: usize = 0;
    while i < env_bytes.len()
        invariant
            0 <= i <= env_bytes@.len(),
            payload@ == seq![0x7bu8, 0x22u8, 0x65u8, 0x6eu8, 0x76u8, 0x22u8, 0x3au8]
                + env_bytes@.take(i as int),
        decreases env_bytes@.len() - i,
    {
        payload.push(env_bytes[i]);
        proof {
            assert(payload@ =~= seq![0x7bu8, 0x22u8, 0x65u8, 0x6eu8, 0x76u8, 0x22u8, 0x3au8]
                + env_bytes@.take(i + 1));
        }
        i = i + 1;
    }
    payload.push(0x7d);
    proof {
        assert(env_bytes@.take(env_bytes@.len() as int) =~= env_bytes@);
        assert(payload@ =~= env_payload(env_json.spec_bytes()));
    }
    let ephemeral = x25519_ephemeral_secret();
    let ephemeral_public = x25519_public_bytes(&ephemeral);
    let shared = x25519_shared_secret(ephemeral, key_bytes.as_slice());
    let nonce = random_nonce_bytes();
    let ciphertext = match aes256_gcm_seal(
        shared.as_slice(),
        nonce.as_slice(),
        payload.as_slice(),
    ) {
        Option::Some(c) => c,
        Option::None => {
            return Result::Err(CryptoError::EncryptionFailed);
        },
    };
    let ghost ep = ephemeral_public@;
    let ghost ng = nonce@;
    let ghost cg = ciphertext@;
    let mut envelope = ephemeral_public;
    let mut j: usize = 0;
    while j < nonce.len()
        invariant
            0 <= j <= ng.len(),
            ng.len() == 12,
            nonce@ == ng,
            envelope@ == ep + ng.take(j as int),
        decreases ng.len() - j,
    {
        envelope.push(nonce[j]);
        proof {
            assert(envelope@ =~= ep + ng.take(j + 1));
        }
        j = j + 1;
    }
    proof {
        assert(ng.take(ng.len() as int) =~= ng);
    }
    let mut j: usize = 0;
    while j < ciphertext.len()
        invariant
            0 <= j <= cg.len(),
            cg.len() == env_payload(env_json.spec_bytes()).len() + 16,
            ciphertext@ == cg,
            envelope@ == ep + ng + cg.take(j as int),
        decreases cg.len() - j,
    {
        envelope.push(ciphertext[j]);
        proof {
            assert(envelope@ =~= ep + ng + cg.take(j + 1));
        }
        j = j + 1;
    }
    proof {
        assert(cg.take(cg.len() as int) =~= cg);
        assert(envelope@ == ep + ng + cg);
    }
    let sealed = hex_encode(envelope.as_slice());
    proof {
        assert(ep.len() == 32 && ng.len() == 12 && cg.len() == env_payload(
            env_json.spec_bytes(),
        ).len() + 16 && sealed@ == hex_of_bytes(ep + ng + cg));
    }
    Result::Ok(sealed)
}

} // verus!
