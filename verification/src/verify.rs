//! Signing and checking signatures, block hashing, and the link between
//! consecutive blocks. Keys travel as their DER encodings: a private key as
//! PKCS#8, a public key as SubjectPublicKeyInfo.
use vstd::prelude::*;

use crate::block::block::Block;
use rsa::pkcs8::{DecodePrivateKey, DecodePublicKey, EncodePublicKey};
use rsa::signature::{RandomizedSigner, SignatureEncoding, Verifier};
use sha2::Digest;

verus! {

/// An amount of value, as signed and verified by the node.
#[derive(Debug, Clone, Copy, PartialEq, Eq)]
pub struct Transaction {
    pub amount: u64,
}

/// Whether `signature` is a valid RSA-PSS signature with SHA-256 over `data`
/// under the public key whose SubjectPublicKeyInfo DER encoding is
/// `public_key_der`.
pub uninterp spec fn spec_pss_verify(
    public_key_der: Seq<u8>,
    data: Seq<u8>,
    signature: Seq<u8>,
) -> bool;

/// Whether a byte string is the PKCS#8 DER encoding of an RSA private key
/// that `rsa` accepts.
pub uninterp spec fn spec_private_key_decodes(private_key_der: Seq<u8>) -> bool;

/// Whether a byte string is the SubjectPublicKeyInfo DER encoding of an RSA
/// public key that `rsa` accepts for checking signatures.
pub uninterp spec fn spec_public_key_decodes(public_key_der: Seq<u8>) -> bool;

/// The SubjectPublicKeyInfo DER encoding of the public half of the private
/// key whose PKCS#8 DER encoding is given.
pub uninterp spec fn spec_public_key_der(private_key_der: Seq<u8>) -> Seq<u8>;

/// Checks a signature with `rsa`: decodes the public key
/// (`DecodePublicKey::from_public_key_der`) and the signature
/// (`pss::Signature::try_from`), then calls
/// `pss::VerifyingKey::<Sha256>::new(key).verify(data, &signature)`. The
/// result is named, not described: it depends on the three byte strings
/// alone. A key that does not decode (`RsaPublicKey::new` refuses, among
/// others, a modulus over 4096 bits) gives `false`.
#[verifier::external_body]
pub fn verify_data(data: &[u8], signature: &[u8], public_key_der: &[u8]) -> (r: bool)
    ensures
        r == spec_pss_verify(public_key_der@, data@, signature@),
        r ==> spec_public_key_decodes(public_key_der@),
{
    let key = match rsa::RsaPublicKey::from_public_key_der(public_key_der) {
        Ok(key) => key,
        Err(_) => return false,
    };
    let signature = match rsa::pss::Signature::try_from(signature) {
        Ok(signature) => signature,
        Err(_) => return false,
    };
    rsa::pss::VerifyingKey::<sha2::Sha256>::new(key).verify(data, &signature).is_ok()
}

/// Signs `data` with `rsa`: decodes the private key
/// (`DecodePrivateKey::from_pkcs8_der`), then calls
/// `pss::SigningKey::<Sha256>::new(key).try_sign_with_rng` with the thread's
/// random generator, and returns the signature's bytes. The signature depends
/// on a random salt, so which bytes come back is left unsaid. Claimed of
/// every signature made: the key decodes, and the signature checks out under
/// the key's public half wherever that public key decodes for checking. The
/// source shows why: the signing step re-encrypts its result and fails unless
/// it gives back the encoded message (`rsa_decrypt_and_check`), and checking
/// uses the same salt length and padding. Signing can fail on a key too
/// small for the salt.
#[verifier::external_body]
pub fn sign_data(data: &[u8], private_key_der: &[u8]) -> (r: Option<Vec<u8>>)
    ensures
        r is Some ==> spec_private_key_decodes(private_key_der@),
        r matches Some(signature) ==> (spec_public_key_decodes(
            spec_public_key_der(private_key_der@),
        ) ==> spec_pss_verify(spec_public_key_der(private_key_der@), data@, signature@)),
{
    let key = rsa::RsaPrivateKey::from_pkcs8_der(private_key_der).ok()?;
    let signing_key = rsa::pss::SigningKey::<sha2::Sha256>::new(key);
    match signing_key.try_sign_with_rng(&mut rand::thread_rng(), data) {
        Ok(signature) => Some(signature.to_vec()),
        Err(_) => None,
    }
}

/// Derives with `rsa` the public key of a private key: decodes the private
/// key (`DecodePrivateKey::from_pkcs8_der`), takes `to_public_key()`, and
/// encodes it (`EncodePublicKey::to_public_key_der`). `None` where the
/// private key does not decode or the encoding fails.
#[verifier::external_body]
fn derive_public_key_der(private_key_der: &[u8]) -> (r: Option<Vec<u8>>)
    ensures
        r is Some ==> spec_private_key_decodes(private_key_der@),
        r matches Some(p) ==> p@ == spec_public_key_der(private_key_der@),
{
    let key = rsa::RsaPrivateKey::from_pkcs8_der(private_key_der).ok()?;
    let public = key.to_public_key().to_public_key_der().ok()?;
    Some(public.into_vec())
}

/// The public key, as checks of this key's signatures take it, of the
/// private key given as its PKCS#8 DER encoding; `None` where the private key
/// does not decode.
pub fn public_key_of(private_key_der: &[u8]) -> (r: Option<Vec<u8>>)
    ensures
        r is Some ==> spec_private_key_decodes(private_key_der@),
        r matches Some(p) ==> p@ == spec_public_key_der(private_key_der@),
{
    derive_public_key_der(private_key_der)
}

/// The SHA-256 digest of a byte string.
pub uninterp spec fn spec_sha256(data: Seq<u8>) -> Seq<u8>;

/// Calls `sha2::Sha256::digest` on `data` and returns the 32-byte digest.
/// The digest is named, not described: it equals `spec_sha256` of the input.
#[verifier::external_body]
fn sha256_digest(data: &[u8]) -> (r: [u8; 32])
    ensures
        r@ == spec_sha256(data@),
{
    sha2::Sha256::digest(data).into()
}

/// The hash of a block, given as its archived bytes: their SHA-256 digest.
pub fn hash_block(block: &[u8]) -> (r: [u8; 32])
    ensures
        r@ == spec_sha256(block@),
{
    sha256_digest(block)
}

/// Whether two hashes are equal, byte by byte.
fn same_hash(a: &[u8; 32], b: &[u8; 32]) -> (r: bool)
    ensures
        r == (a@ == b@),
{
    let mut i: usize = 0;
    while i < 32
        invariant
            i <= 32,
            a@.len() == 32,
            b@.len() == 32,
            forall|j: int| 0 <= j < i ==> a@[j] == b@[j],
        decreases 32 - i,
    {
        if a[i] != b[i] {
            return false;
        }
        i = i + 1;
    }
    assert(a@ =~= b@);
    true
}

/// Whether `received` follows the local tip, given as its archived bytes:
/// its previous-hash field is the tip's hash.
pub fn verify_chain_link(received: &Block, local_tip: &[u8]) -> (r: bool)
    ensures
        r == (received.block_header.prev_hash@ == spec_sha256(local_tip@)),
{
    let local_tip_hash = hash_block(local_tip);
    same_hash(&received.block_header.prev_hash, &local_tip_hash)
}

} // verus!
