use effectfence::fence::{
    commit_effect_cert, prepare_effect_fence, Admission, EffectCert, EffectFence, EffectRequest,
    VectorClock,
};
use effectfence::json::Json;
use effectfence::pqc::{verify, CertSignature, CertSigner};

fn one_cert() -> EffectCert {
    let mut fence = EffectFence::new();
    let req = EffectRequest {
        intent: "charge:order-1".into(),
        parent: None,
        domain: "order:1".into(),
        tool: "charge_card".into(),
        args: Json::Object(vec![("amount".into(), Json::Number("4900".into()))]),
        read_set: vec![],
        agent: "agent-A".into(),
        known_clock: VectorClock::new(),
    };
    match prepare_effect_fence(&mut fence, req).unwrap() {
        Admission::Fresh(p) => {
            commit_effect_cert(&mut fence, p, Json::Object(vec![("ok".into(), Json::Bool(true))]))
                .unwrap()
        }
        _ => panic!("expected fresh"),
    }
}

#[test]
fn genuine_signature_verifies() {
    let signer = CertSigner::generate().unwrap();
    let cert = one_cert();
    let sig = signer.sign(&cert).unwrap();
    assert!(verify(&cert, &sig, &signer.public_key_bytes()));
}

#[test]
fn a_different_key_does_not_verify() {
    let signer = CertSigner::generate().unwrap();
    let attacker = CertSigner::generate().unwrap();
    let cert = one_cert();
    let sig = signer.sign(&cert).unwrap();
    // Same cert, same signature, WRONG public key -> must fail.
    assert!(!verify(&cert, &sig, &attacker.public_key_bytes()));
}

#[test]
fn tampering_with_the_cert_breaks_verification() {
    let signer = CertSigner::generate().unwrap();
    let mut cert = one_cert();
    let sig = signer.sign(&cert).unwrap();
    // Swap the recorded result; the stored hash no longer matches the fields,
    // so verify() must reject even though the signature is real.
    cert.result = Json::Object(vec![("ok".into(), Json::Bool(false))]);
    assert!(!verify(&cert, &sig, &signer.public_key_bytes()));
}

#[test]
fn a_garbage_signature_does_not_verify() {
    let signer = CertSigner::generate().unwrap();
    let cert = one_cert();
    let bogus = CertSignature(vec![0u8; 3309]); // right length, wrong bytes
    assert!(!verify(&cert, &bogus, &signer.public_key_bytes()));
}

#[test]
fn keys_and_signatures_of_wrong_length_do_not_verify() {
    let signer = CertSigner::generate().unwrap();
    let cert = one_cert();
    let sig = signer.sign(&cert).unwrap();
    let key = signer.public_key_bytes();
    assert_eq!(key.len(), 1952);
    assert_eq!(sig.0.len(), 3309);
    assert!(!verify(&cert, &sig, &key[..1951]));
    assert!(!verify(&cert, &sig, &[]));
    assert!(!verify(&cert, &CertSignature(sig.0[..3308].to_vec()), &key));
    assert!(verify(&cert, &sig.clone(), &key));
}

#[test]
fn a_signature_of_another_certificate_does_not_verify() {
    let signer = CertSigner::generate().unwrap();
    let cert = one_cert();
    let mut other = cert.clone();
    other.hash = "0".to_string();
    let sig = signer.sign(&other).unwrap();
    assert!(!verify(&cert, &sig, &signer.public_key_bytes()));
    // A signature over a hash that is not the certificate's own is no
    // attestation either.
    assert!(!verify(&other, &sig, &signer.public_key_bytes()));
}
