use base64::engine::general_purpose::URL_SAFE_NO_PAD;
use base64::Engine;
use google_ddns::auth::{token_request_body, AuthError, ServiceAccount, TokenProvider, TokenStep};
use rand_core::{CryptoRng, RngCore};
use rsa::pkcs1v15::{Signature, SigningKey, VerifyingKey};
use rsa::pkcs8::{DecodePrivateKey, EncodePrivateKey, LineEnding};
use rsa::signature::{Signer, SignatureEncoding, Verifier};
use rsa::RsaPrivateKey;
use sha2::Sha256;

/// A deterministic generator, good enough to make a throwaway test key.
struct TestRng(u64);

impl RngCore for TestRng {
    fn next_u32(&mut self) -> u32 {
        self.next_u64() as u32
    }
    fn next_u64(&mut self) -> u64 {
        self.0 ^= self.0 << 13;
        self.0 ^= self.0 >> 7;
        self.0 ^= self.0 << 17;
        self.0
    }
    fn fill_bytes(&mut self, dest: &mut [u8]) {
        for b in dest.iter_mut() {
            *b = self.next_u64() as u8;
        }
    }
    fn try_fill_bytes(&mut self, dest: &mut [u8]) -> Result<(), rand_core::Error> {
        self.fill_bytes(dest);
        Ok(())
    }
}

impl CryptoRng for TestRng {}

fn test_key() -> RsaPrivateKey {
    let mut rng = TestRng(0x9e37_79b9_7f4a_7c15);
    RsaPrivateKey::new(&mut rng, 1024).unwrap()
}

fn account(pem: String) -> ServiceAccount {
    ServiceAccount {
        private_key: pem,
        private_key_id: "kid-1".to_string(),
        client_email: "ddns@proj.iam.gserviceaccount.com".to_string(),
        project_id: "proj".to_string(),
    }
}

fn provider() -> (TokenProvider, RsaPrivateKey) {
    let key = test_key();
    let pem = key.to_pkcs8_pem(LineEnding::LF).unwrap().to_string();
    (TokenProvider::new(account(pem)).unwrap(), key)
}

fn decode(segment: &str) -> String {
    String::from_utf8(URL_SAFE_NO_PAD.decode(segment).unwrap()).unwrap()
}

#[test]
fn new_refuses_a_bad_key() {
    match TokenProvider::new(account("not a key".to_string())) {
        Err(e @ AuthError::InvalidKey(_)) => {
            let detail = RsaPrivateKey::from_pkcs8_pem("not a key").unwrap_err().to_string();
            assert!(!detail.is_empty());
            assert_eq!(e.message(), format!("invalid RSA private key: {}", detail));
        }
        Ok(_) => panic!("a bad key was accepted"),
    }
}

#[test]
fn new_keeps_the_account_fields() {
    let (p, key) = provider();
    assert_eq!(p.project_id(), "proj");
    assert_eq!(p.private_key(), &key);
}

#[test]
fn fresh_provider_asks_for_a_signed_assertion() {
    let (p, _) = provider();
    match p.access_token(1_700_000_000) {
        TokenStep::Refresh { signing_input } => {
            let parts: Vec<&str> = signing_input.split('.').collect();
            assert_eq!(parts.len(), 2);
            assert_eq!(decode(parts[0]), r#"{"alg":"RS256","typ":"JWT","kid":"kid-1"}"#);
            assert_eq!(
                decode(parts[1]),
                "{\"iss\":\"ddns@proj.iam.gserviceaccount.com\",\
                 \"scope\":\"https://www.googleapis.com/auth/cloud-platform\",\
                 \"aud\":\"https://oauth2.googleapis.com/token\",\
                 \"iat\":1700000000,\"exp\":1700003600}"
            );
        }
        TokenStep::Cached(_) => panic!("nothing was cached yet"),
    }
}

#[test]
fn accepted_token_is_reused_until_a_minute_before_expiry() {
    let (mut p, _) = provider();
    let now = 1_700_000_000;
    assert_eq!(p.accept_token("tok-1".to_string(), Some(120), now), "tok-1");
    match p.access_token(now + 59) {
        TokenStep::Cached(t) => assert_eq!(t, "tok-1"),
        other => panic!("expected the cached token, got {:?}", other),
    }
    assert!(matches!(p.access_token(now + 60), TokenStep::Refresh { .. }));
}

#[test]
fn token_without_lifetime_lives_an_hour() {
    let (mut p, _) = provider();
    let now = 1_000;
    p.accept_token("tok".to_string(), None, now);
    assert!(matches!(p.access_token(now + 3539), TokenStep::Cached(_)));
    assert!(matches!(p.access_token(now + 3540), TokenStep::Refresh { .. }));
}

#[test]
fn short_lived_token_is_not_reused() {
    let (mut p, _) = provider();
    p.accept_token("tok".to_string(), Some(60), 5_000);
    assert!(matches!(p.access_token(5_000), TokenStep::Refresh { .. }));
}

#[test]
fn request_body_carries_the_assertion() {
    let body = token_request_body("aGVhZA.Y2xhaW1z", &[0xfb, 0xff, 0x01]);
    assert_eq!(
        body,
        "grant_type=urn%3Aietf%3Aparams%3Aoauth%3Agrant-type%3Ajwt-bearer&assertion=aGVhZA.Y2xhaW1z.-_8B"
    );
}

#[test]
fn signed_assertion_verifies() {
    let (p, key) = provider();
    let signing_input = match p.access_token(42) {
        TokenStep::Refresh { signing_input } => signing_input,
        TokenStep::Cached(_) => panic!("nothing was cached yet"),
    };
    let signer = SigningKey::<Sha256>::new(p.private_key().clone());
    let signature = signer.sign(signing_input.as_bytes()).to_bytes();
    let body = token_request_body(&signing_input, &signature);
    let assertion = body.rsplit('=').next().unwrap();
    let parts: Vec<&str> = assertion.split('.').collect();
    assert_eq!(parts.len(), 3);
    let sig_bytes = URL_SAFE_NO_PAD.decode(parts[2]).unwrap();
    let verifier = VerifyingKey::<Sha256>::new(key.to_public_key());
    let sig = Signature::try_from(sig_bytes.as_slice()).unwrap();
    verifier
        .verify(format!("{}.{}", parts[0], parts[1]).as_bytes(), &sig)
        .unwrap();
}

#[test]
fn provider_signs_with_the_key_of_the_account() {
    let key = test_key();
    let pem = key.to_pkcs8_pem(LineEnding::LF).unwrap().to_string();
    let p = TokenProvider::new(account(pem.clone())).unwrap();
    assert_eq!(p.private_key(), &RsaPrivateKey::from_pkcs8_pem(&pem).unwrap());
}

#[test]
fn base64_vectors() {
    // RFC 4648 test vectors, URL-safe alphabet, no padding.
    let cases: [(&[u8], &str); 7] = [
        (b"", ""),
        (b"f", "Zg"),
        (b"fo", "Zm8"),
        (b"foo", "Zm9v"),
        (b"foob", "Zm9vYg"),
        (b"fooba", "Zm9vYmE"),
        (b"foobar", "Zm9vYmFy"),
    ];
    for (bytes, text) in cases {
        let body = token_request_body("x", bytes);
        assert_eq!(body.rsplit('.').next().unwrap(), text);
    }
}
