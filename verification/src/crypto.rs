//! Trusted boundary to the cryptographic primitives: SHA-256, RIPEMD-160,
//! base58 encoding, and RSA-SHA256 signing and verification.
//!
//! Each digest or signature is a pure function of its input bytes, so the
//! wrappers name their results with uninterpreted spec functions; nothing
//! else is assumed of the underlying algorithms.
use sha2::Digest;
use vstd::prelude::*;

verus! {

/// The 32-byte SHA-256 digest of a byte string.
pub uninterp spec fn sha256_of(data: Seq<u8>) -> Seq<u8>;

/// The 20-byte RIPEMD-160 digest of a byte string.
pub uninterp spec fn ripemd160_of(data: Seq<u8>) -> Seq<u8>;

/// The bytes of the base58 rendering (Bitcoin alphabet) of a byte string.
pub uninterp spec fn base58_of(data: Seq<u8>) -> Seq<u8>;

/// The RSA PKCS#1 v1.5 SHA-256 signature of `msg` under the private key
/// serialized as `private_pem`. PKCS#1 v1.5 signing is deterministic, so the
/// signature is a function of the key and message bytes alone; the signing
/// wrapper refuses every non-RSA key, so this name is never applied to a
/// randomized scheme.
pub uninterp spec fn rsa_sign_of(private_pem: Seq<u8>, msg: Seq<u8>) -> Seq<u8>;

/// Whether `private_pem` parses as an RSA private key that signs: whether the
/// signing wrapper succeeds, a function of the key bytes alone.
pub uninterp spec fn rsa_private_key_usable(private_pem: Seq<u8>) -> bool;

/// Whether `public_pem` parses as an RSA public key usable for
/// verification: whether the verifying wrapper returns a verdict, a function
/// of the key bytes alone (the wrapper refuses every other algorithm, and
/// for an RSA key a verdict always comes back, whatever the signature).
pub uninterp spec fn rsa_public_key_usable(public_pem: Seq<u8>) -> bool;

/// Whether `sig` is a valid RSA-SHA256 signature of `msg` under the RSA
/// public key serialized as `public_pem`.
pub uninterp spec fn rsa_verifies(public_pem: Seq<u8>, msg: Seq<u8>, sig: Seq<u8>) -> bool;

/// Relies on sha2's `Sha256::digest`: the 32-byte digest of the input,
/// depending on the input bytes alone.
#[verifier::external_body]
pub(crate) fn sha256(data: &Vec<u8>) -> (r: Vec<u8>)
    ensures
        r@ == sha256_of(data@),
        r@.len() == 32,
{
    sha2::Sha256::digest(data.as_slice()).to_vec()
}

/// Relies on ripemd's `Ripemd160::digest`: the 20-byte digest of the input,
/// depending on the input bytes alone.
#[verifier::external_body]
pub(crate) fn ripemd160(data: &Vec<u8>) -> (r: Vec<u8>)
    ensures
        r@ == ripemd160_of(data@),
        r@.len() == 20,
{
    ripemd::Ripemd160::digest(data.as_slice()).to_vec()
}

/// Relies on bs58's `encode` with the default (Bitcoin) alphabet: the base58
/// text of the input, as bytes, depending on the input bytes alone.
#[verifier::external_body]
pub(crate) fn base58_encode(data: &Vec<u8>) -> (r: Vec<u8>)
    ensures
        r@ == base58_of(data@),
{
    bs58::encode(data.as_slice()).into_vec()
}

/// Relies on openssl's `PKey::private_key_from_pem`, `PKey::id`,
/// `Signer::new` with `MessageDigest::sha256`, `Signer::update` and
/// `Signer::sign_to_vec`: an RSA PKCS#1 v1.5 SHA-256 signature, deterministic
/// in the key and message. Keys of any other algorithm (which could sign
/// non-deterministically) are refused, so success and the signature bytes are
/// functions of the key and message bytes alone.
#[verifier::external_body]
pub(crate) fn rsa_sha256_sign(private_pem: &Vec<u8>, msg: &Vec<u8>) -> (r: Option<Vec<u8>>)
    ensures
        (r is Some) == rsa_private_key_usable(private_pem@),
        r matches Some(sig) ==> sig@ == rsa_sign_of(private_pem@, msg@),
{
    let key = match openssl::pkey::PKey::private_key_from_pem(private_pem) {
        Ok(k) if k.id() == openssl::pkey::Id::RSA => k,
        _ => return None,
    };
    let mut signer = match openssl::sign::Signer::new(openssl::hash::MessageDigest::sha256(), &key)
    {
        Ok(s) => s,
        Err(_) => return None,
    };
    if signer.update(msg).is_err() {
        return None;
    }
    signer.sign_to_vec().ok()
}

/// Relies on openssl's `PKey::public_key_from_pem`, `PKey::id`,
/// `Verifier::new` with `MessageDigest::sha256`, `Verifier::update` and
/// `Verifier::verify`: whether the signature verifies, a function of key,
/// message and signature bytes. Keys of any algorithm but RSA are refused:
/// for them a verdict could depend on the signature's shape, while RSA
/// verification answers true or false for every signature — so whether a
/// verdict comes back is a function of the key bytes alone.
#[verifier::external_body]
pub(crate) fn rsa_sha256_verify(public_pem: &Vec<u8>, msg: &Vec<u8>, sig: &Vec<u8>) -> (r: Option<
    bool,
>)
    ensures
        (r is Some) == rsa_public_key_usable(public_pem@),
        r matches Some(b) ==> b == rsa_verifies(public_pem@, msg@, sig@),
{
    let key = match openssl::pkey::PKey::public_key_from_pem(public_pem) {
        Ok(k) if k.id() == openssl::pkey::Id::RSA => k,
        _ => return None,
    };
    let mut verifier = match openssl::sign::Verifier::new(
        openssl::hash::MessageDigest::sha256(),
        &key,
    ) {
        Ok(v) => v,
        Err(_) => return None,
    };
    if verifier.update(msg).is_err() {
        return None;
    }
    verifier.verify(sig).ok()
}

/// Relies on openssl's `Rsa::generate`, `Rsa::private_key_to_pem` and
/// `Rsa::public_key_to_pem`: a freshly generated RSA-2048 key pair as
/// (private PEM, public PEM). The key material is random, so nothing is
/// assumed of the bytes themselves; but both PEMs re-parse as the RSA keys
/// they were exported from, so both are usable by the wrappers above, and —
/// RSA PKCS#1 v1.5 verification accepting exactly the PKCS#1 v1.5 signatures
/// made under the matching key — a signature by the private key verifies
/// under the public one for every message.
#[verifier::external_body]
pub(crate) fn generate_rsa_keypair() -> (r: Option<(Vec<u8>, Vec<u8>)>)
    ensures
        r matches Some(kp) ==> rsa_private_key_usable(kp.0@) && rsa_public_key_usable(kp.1@),
        r matches Some(kp) ==> forall|msg: Seq<u8>|
            #[trigger] rsa_verifies(kp.1@, msg, rsa_sign_of(kp.0@, msg)),
{
    let rsa = match openssl::rsa::Rsa::generate(2048) {
        Ok(k) => k,
        Err(_) => return None,
    };
    let private_pem = match rsa.private_key_to_pem() {
        Ok(p) => p,
        Err(_) => return None,
    };
    let public_pem = match rsa.public_key_to_pem() {
        Ok(p) => p,
        Err(_) => return None,
    };
    Some((private_pem, public_pem))
}

} // verus!
