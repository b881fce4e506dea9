//! Post-quantum signatures over certificates (FIPS 204, ML-DSA-65).
//!
//! A certificate's hash makes any edit detectable, but anyone can mint a fresh
//! certificate with a matching hash. A signature over the hash says who attested
//! to it, and covers every field that the hash covers. It proves who attested,
//! not that what was attested is true. Where the key is stored, and how it is
//! rotated, is up to the caller.

use fips204::ml_dsa_65;
use fips204::traits::{SerDes, Signer, Verifier};
use vstd::prelude::*;
use vstd::utf8::encode_utf8;
use crate::cert::{cert_preimage, cert_valid, CertModel, EffectCert, TicketModel};
use crate::cert_laws::{cert_wf, same_effect, tampering_is_evident};
use crate::json::{json_text, Tree};
use crate::sha::sha256_of;

verus! {

/// The length of a public key.
pub const PK_LEN: usize = 1952;

/// The length of a private key.
pub const SK_LEN: usize = 4032;

/// The length of a signature.
pub const SIG_LEN: usize = 3309;

/// The public and the private key that `fips204::ml_dsa_65::KG::keygen_from_seed`
/// makes from a seed.
pub uninterp spec fn mldsa65_keypair(seed: Seq<u8>) -> (Seq<u8>, Seq<u8>);

/// Whether `fips204::ml_dsa_65::PublicKey::verify` accepts a signature of a
/// message, with an empty context, under a public key.
pub uninterp spec fn mldsa65_accepts(
    public_key: Seq<u8>,
    message: Seq<u8>,
    signature: Seq<u8>,
) -> bool;

/// Whether two byte strings are the public and the private key of one seed.
pub open spec fn is_keypair(public_key: Seq<u8>, private_key: Seq<u8>) -> bool {
    exists|seed: Seq<u8>|
        seed.len() == 32 && (public_key, private_key) == #[trigger] mldsa65_keypair(seed)
}

/// What a failure to make a keypair says.
pub open spec fn keygen_failed() -> Seq<char> {
    "KeyGen: Random number generator failed"@
}

/// What a failure to sign says.
pub open spec fn sign_failed() -> Seq<char> {
    "ML-DSA.Sign: random number generator failed"@
}

/// Calls `fips204::ml_dsa_65::try_keygen`, which draws a seed of thirty-two
/// bytes from the system's random number generator and makes the pair of that
/// seed. It fails as `keygen_failed` says, and only where the generator gives no
/// seed. Which seed is drawn, and whether one can be drawn, is left open.
#[verifier::external_body]
fn mldsa65_generate() -> (keys: Result<(Vec<u8>, Vec<u8>), &'static str>)
    ensures
        match keys {
            Ok((public_key, private_key)) => {
                &&& exists|seed: Seq<u8>|
                    seed.len() == 32 && (public_key@, private_key@) == #[trigger] mldsa65_keypair(
                        seed,
                    )
                &&& public_key@.len() == PK_LEN
                &&& private_key@.len() == SK_LEN
            },
            Err(reason) => reason@ == keygen_failed(),
        },
{
    let (public_key, private_key) = ml_dsa_65::try_keygen()?;
    Ok((public_key.into_bytes().to_vec(), private_key.into_bytes().to_vec()))
}

/// Calls `fips204::ml_dsa_65::PrivateKey::try_sign` with an empty context. A
/// signature that it makes with the private key of a pair is accepted under the
/// public key of that pair. It fails as `sign_failed` says, and only where the
/// system's random number generator does: `PrivateKey::try_from_bytes` takes the
/// private key of a pair. Signing is randomized: which signature comes out, and
/// whether the generator fails, is left open.
#[verifier::external_body]
fn mldsa65_sign(private_key: &[u8], message: &[u8]) -> (signature: Result<Vec<u8>, &'static str>)
    requires
        private_key@.len() == SK_LEN,
        exists|public_key: Seq<u8>| is_keypair(public_key, private_key@),
    ensures
        match signature {
            Ok(sig) => {
                &&& sig@.len() == SIG_LEN
                &&& forall|public_key: Seq<u8>| #[trigger]
                    is_keypair(public_key, private_key@) ==> mldsa65_accepts(
                        public_key,
                        message@,
                        sig@,
                    )
            },
            Err(reason) => reason@ == sign_failed(),
        },
{
    let bytes: [u8; ml_dsa_65::SK_LEN] = private_key.try_into().map_err(|_| "private key length")?;
    let key = ml_dsa_65::PrivateKey::try_from_bytes(bytes)?;
    Ok(key.try_sign(message, &[])?.to_vec())
}

/// Calls `fips204::ml_dsa_65::PublicKey::verify` with an empty context. Bytes
/// that `PublicKey::try_from_bytes` does not take for a key accept nothing.
#[verifier::external_body]
fn mldsa65_verify(public_key: &[u8], message: &[u8], signature: &[u8]) -> (accepted: bool)
    requires
        public_key@.len() == PK_LEN,
        signature@.len() == SIG_LEN,
    ensures
        accepted == mldsa65_accepts(public_key@, message@, signature@),
{
    let key: [u8; ml_dsa_65::PK_LEN] = public_key.try_into().expect("public key length");
    let sig: [u8; ml_dsa_65::SIG_LEN] = signature.try_into().expect("signature length");
    match ml_dsa_65::PublicKey::try_from_bytes(key) {
        Ok(key) => key.verify(message, &sig, &[]),
        Err(_) => false,
    }
}

/// A keypair for signing certificates. The private key never leaves it; only
/// the public key is handed out.
pub struct CertSigner {
    private_key: Vec<u8>,
    public_key: Vec<u8>,
}

/// A detached signature over a certificate's hash.
#[derive(PartialEq, Eq)]
pub struct CertSignature(pub Vec<u8>);

/// Whether `signature` attests to `cert` under `public_key`: the certificate
/// carries the hash of its own fields, and the signature is one of that hash.
pub open spec fn attests(cert: CertModel, signature: Seq<u8>, public_key: Seq<u8>) -> bool {
    &&& cert_valid(cert)
    &&& public_key.len() == PK_LEN
    &&& signature.len() == SIG_LEN
    &&& mldsa65_accepts(public_key, encode_utf8(cert.hash), signature)
}

impl CertSigner {
    /// The public key.
    pub closed spec fn key(&self) -> Seq<u8> {
        self.public_key@
    }

    #[verifier::type_invariant]
    spec fn paired(&self) -> bool {
        &&& is_keypair(self.public_key@, self.private_key@)
        &&& self.public_key@.len() == PK_LEN
        &&& self.private_key@.len() == SK_LEN
    }

    /// A fresh keypair. Fails only if the platform's random number generator
    /// does.
    pub fn generate() -> (signer: Result<Self, &'static str>)
        ensures
            match signer {
                Ok(s) => s.key().len() == PK_LEN && exists|private_key: Seq<u8>|
                    is_keypair(s.key(), private_key),
                Err(reason) => reason@ == keygen_failed(),
            },
    {
        let keys: Result<(Vec<u8>, Vec<u8>), &'static str> = mldsa65_generate();
        assert(keys is Ok ==> is_keypair(keys->Ok_0.0@, keys->Ok_0.1@));
        CertSigner::from_keys(keys)
    }

    /// The signer with the keys that were generated, if they were.
    fn from_keys(keys: Result<(Vec<u8>, Vec<u8>), &'static str>) -> (signer: Result<
        Self,
        &'static str,
    >)
        requires
            match keys {
                Ok((public_key, private_key)) => {
                    &&& is_keypair(public_key@, private_key@)
                    &&& public_key@.len() == PK_LEN
                    &&& private_key@.len() == SK_LEN
                },
                Err(_) => true,
            },
        ensures
            match keys {
                Ok((public_key, private_key)) => {
                    &&& signer is Ok
                    &&& signer->Ok_0.key() == public_key@
                    &&& signer->Ok_0.private_key == private_key
                },
                Err(reason) => signer == Err::<Self, &'static str>(reason),
            },
    {
        match keys {
            Ok((public_key, private_key)) => Ok(CertSigner { private_key, public_key }),
            Err(reason) => Err(reason),
        }
    }

    /// The public key that a verifier needs. Safe to publish.
    pub fn public_key_bytes(&self) -> (bytes: Vec<u8>)
        ensures
            bytes@ == self.key(),
            bytes@.len() == PK_LEN,
    {
        proof {
            use_type_invariant(self);
        }
        copy_bytes(&self.public_key)
    }

    /// Signs a certificate's hash, and through it every field of the
    /// certificate. The signature is accepted under this signer's public key.
    /// Fails only if the platform's random number generator does.
    pub fn sign(&self, cert: &EffectCert) -> (signature: Result<CertSignature, &'static str>)
        ensures
            match signature {
                Ok(sig) => {
                    &&& sig.0@.len() == SIG_LEN
                    &&& mldsa65_accepts(self.key(), encode_utf8(cert.hash@), sig.0@)
                    &&& attests(cert@, sig.0@, self.key()) == cert_valid(cert@)
                },
                Err(reason) => reason@ == sign_failed(),
            },
    {
        proof {
            use_type_invariant(self);
        }
        assert(is_keypair(self.public_key@, self.private_key@));
        CertSignature::from_bytes(
            mldsa65_sign(self.private_key.as_slice(), cert.hash.as_str().as_bytes()),
        )
    }
}

impl CertSignature {
    /// The signature with the bytes that were made, if they were.
    fn from_bytes(bytes: Result<Vec<u8>, &'static str>) -> (signature: Result<Self, &'static str>)
        ensures
            match bytes {
                Ok(sig) => signature == Ok::<Self, &'static str>(CertSignature(sig)),
                Err(reason) => signature == Err::<Self, &'static str>(reason),
            },
    {
        match bytes {
            Ok(sig) => Ok(CertSignature(sig)),
            Err(reason) => Err(reason),
        }
    }
}

impl Clone for CertSignature {
    fn clone(&self) -> (copy: Self)
        ensures
            copy.0@ == self.0@,
    {
        CertSignature(copy_bytes(&self.0))
    }
}

fn copy_bytes(bytes: &Vec<u8>) -> (copy: Vec<u8>)
    ensures
        copy@ == bytes@,
{
    let mut copy: Vec<u8> = Vec::new();
    copy.extend_from_slice(bytes.as_slice());
    assert(copy@ =~= bytes@);
    copy
}

/// Whether `sig` attests to `cert` under `public_key_bytes`, without trusting
/// the signer: the certificate's hash must be that of its own fields, and the
/// signature a genuine one of that hash. Both matter, for a signature over a
/// hash that does not match the fields would attest to swapped content.
pub fn verify(cert: &EffectCert, sig: &CertSignature, public_key_bytes: &[u8]) -> (genuine: bool)
    ensures
        genuine == attests(cert@, sig.0@, public_key_bytes@),
{
    if !cert.verify() {
        return false;
    }
    if public_key_bytes.len() != PK_LEN || sig.0.len() != SIG_LEN {
        return false;
    }
    mldsa65_verify(public_key_bytes, cert.hash.as_str().as_bytes(), sig.0.as_slice())
}

/// No signature under any key attests to a certificate of which a field was
/// changed after it was minted, beyond the order of members, unless the old and the new fields make SHA-256
/// collide.
pub proof fn tampered_certificates_are_not_attested(
    cert: CertModel,
    ticket: TicketModel,
    result: Tree,
    signature: Seq<u8>,
    public_key: Seq<u8>,
)
    requires
        cert_wf(cert.ticket, cert.result),
        cert_wf(ticket, result),
        cert_valid(cert),
        !same_effect(cert.ticket, cert.result, ticket, result),
    ensures
        attests(CertModel { ticket, result, hash: cert.hash }, signature, public_key) ==> {
            let x = encode_utf8(json_text(cert_preimage(cert.ticket, cert.result)));
            let y = encode_utf8(json_text(cert_preimage(ticket, result)));
            x != y && sha256_of(x) == sha256_of(y)
        },
{
    tampering_is_evident(cert, ticket, result);
}

/// A signature attests to nothing but certificates with the hash that was
/// signed: whether it attests depends on the certificate through its validity
/// and its hash alone.
pub proof fn attestation_rests_on_the_hash(
    a: CertModel,
    b: CertModel,
    signature: Seq<u8>,
    public_key: Seq<u8>,
)
    requires
        cert_valid(a),
        cert_valid(b),
        a.hash == b.hash,
    ensures
        attests(a, signature, public_key) == attests(b, signature, public_key),
{
}

/// A signature attests to a certificate exactly if the certificate is valid, the key
/// and the signature have their lengths, and the signature is accepted for the bytes
/// of the certificate's hash under that key.
pub proof fn attestation_takes_a_valid_certificate_and_its_signature(
    cert: CertModel,
    signature: Seq<u8>,
    public_key: Seq<u8>,
)
    ensures
        attests(cert, signature, public_key) ==> cert.hash == crate::cert::cert_hash(
            cert.ticket,
            cert.result,
        ),
        attests(cert, signature, public_key) ==> mldsa65_accepts(
            public_key,
            encode_utf8(cert.hash),
            signature,
        ),
        cert_valid(cert) && public_key.len() == 1952 && signature.len() == 3309 && mldsa65_accepts(
            public_key,
            encode_utf8(cert.hash),
            signature,
        ) ==> attests(cert, signature, public_key),
        public_key.len() != 1952 || signature.len() != 3309 ==> !attests(cert, signature, public_key),
{
}

} // verus!
