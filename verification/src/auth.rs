//! Service-account authentication: the RS256-signed JWT assertion that is
//! traded for an OAuth access token, and the cache of that token.
use rsa::pkcs8::DecodePrivateKey;
use rsa::RsaPrivateKey;
use vstd::prelude::*;
use vstd::utf8::encode_utf8;
use crate::text::{decimal, push_char, push_decimal, signed_decimal, escaped};
use crate::json::{json_string, json_int, no_control, lacks, quoted, is_digit, lemma_json_string_quoted,
    lemma_json_int_decimal, lemma_escaped_plain};
use crate::dns::starts_with;
use crate::form::{form_decode, lemma_grant_type_decodes};
use crate::base64url::{
    base64_url, base64_len, encode_base64_url, is_base64_url_char, is_base64_url_text,
    lemma_base64_url_shape,
};

verus! {

#[verifier::external_type_specification]
#[verifier::external_body]
pub struct ExRsaPrivateKey(RsaPrivateKey);

/// What `RsaPrivateKey::from_pkcs8_pem` gives for a PEM text: the key, or
/// the text (`Display`) of the error.
pub uninterp spec fn pkcs8_pem_decoded(pem: Seq<char>) -> Result<RsaPrivateKey, Seq<char>>;

/// `RsaPrivateKey::from_pkcs8_pem` (`pkcs8::DecodePrivateKey`), with the
/// error turned into its text. What it gives for a PEM text is named by
/// `pkcs8_pem_decoded`.
#[verifier::external_body]
fn decode_private_key(pem: &str) -> (r: Result<RsaPrivateKey, String>)
    ensures
        match r {
            Ok(key) => pkcs8_pem_decoded(pem@) == Ok::<RsaPrivateKey, Seq<char>>(key),
            Err(text) => pkcs8_pem_decoded(pem@) == Err::<RsaPrivateKey, Seq<char>>(text@),
        },
{
    RsaPrivateKey::from_pkcs8_pem(pem).map_err(|e| e.to_string())
}

/// A service-account key file, as far as it is read.
#[derive(Debug)]
pub struct ServiceAccount {
    pub private_key: String,
    pub private_key_id: String,
    pub client_email: String,
    pub project_id: String,
}

/// An access token and the time (in seconds since the epoch) at which it
/// expires.
#[derive(Debug)]
pub struct Cached {
    pub token: String,
    pub expires_at: u64,
}

/// Why a token provider could not be made.
#[derive(Debug)]
pub enum AuthError {
    /// The service account's private key is not a PKCS#8 PEM RSA key; the
    /// text is what the decoder said.
    InvalidKey(String),
}

/// The message shown for an authentication error.
pub open spec fn auth_error_text(e: AuthError) -> Seq<char> {
    match e {
        AuthError::InvalidKey(detail) => "invalid RSA private key: "@ + detail@,
    }
}

impl AuthError {
    /// The message shown for this error.
    pub fn message(&self) -> (r: String)
        ensures
            r@ == auth_error_text(*self),
    {
        match self {
            AuthError::InvalidKey(detail) => {
                let mut r = String::from_str("invalid RSA private key: ");
                r.append(detail.as_str());
                r
            },
        }
    }
}

/// Where a signed assertion is traded for an access token (also the
/// assertion's audience).
pub fn token_endpoint() -> (r: &'static str)
    ensures
        r@ == "https://oauth2.googleapis.com/token"@,
{
    "https://oauth2.googleapis.com/token"
}

/// What `access_token` asks of its caller.
#[derive(Debug)]
pub enum TokenStep {
    /// The cached token is still good for more than a minute: use it.
    Cached(String),
    /// Sign this JWT signing input with RS256, send the assertion made by
    /// `token_request_body`, and hand the reply to `accept_token`.
    Refresh { signing_input: String },
}

/// How long a requested token is asked to live, and how long one is taken
/// to live when the token endpoint does not say.
pub const TOKEN_LIFETIME_SECS: u64 = 3600;

/// A cached token is used only while it has more than this many seconds left.
pub const REFRESH_MARGIN_SECS: u64 = 60;

/// The JOSE header of the assertion.
pub open spec fn jwt_header(key_id: Seq<char>) -> Seq<char> {
    "{\"alg\":\"RS256\",\"typ\":\"JWT\",\"kid\":\""@ + key_id + "\"}"@
}

/// The claims of the assertion: issued by the service account, for the
/// cloud-platform scope, at `iat`, expiring an hour later.
pub open spec fn jwt_claims(email: Seq<char>, iat: nat) -> Seq<char> {
    "{\"iss\":\""@ + email
        + "\",\"scope\":\"https://www.googleapis.com/auth/cloud-platform\",\"aud\":\"https://oauth2.googleapis.com/token\",\"iat\":"@
        + decimal(iat) + ",\"exp\":"@ + decimal(iat + TOKEN_LIFETIME_SECS as nat) + "}"@
}

/// The part of the JWT that is signed: the encoded header, a dot, and the
/// encoded claims.
pub open spec fn jwt_signing_input(key_id: Seq<char>, email: Seq<char>, iat: nat) -> Seq<char> {
    base64_url(encode_utf8(jwt_header(key_id))) + seq!['.'] + base64_url(
        encode_utf8(jwt_claims(email, iat)),
    )
}

/// Whether the encoded header and claims fit in memory (`usize`).
pub open spec fn jwt_fits(key_id: Seq<char>, email: Seq<char>, iat: nat) -> bool {
    &&& base64_len(encode_utf8(jwt_header(key_id)).len()) <= usize::MAX
    &&& base64_len(encode_utf8(jwt_claims(email, iat)).len()) <= usize::MAX
}

/// The form body that trades a signed assertion for an access token.
pub open spec fn token_request(signing_input: Seq<char>, signature: Seq<u8>) -> Seq<char> {
    "grant_type=urn%3Aietf%3Aparams%3Aoauth%3Agrant-type%3Ajwt-bearer&assertion="@
        + signing_input + seq!['.'] + base64_url(signature)
}

/// Whether a token expiring at `expires_at` is still used at `now`.
pub open spec fn still_fresh(expires_at: u64, now: u64) -> bool {
    expires_at > now + REFRESH_MARGIN_SECS
}

/// The token that the cache gives at `now`, if any.
pub open spec fn cache_hit(cached: Option<(Seq<char>, u64)>, now: u64) -> Option<Seq<char>> {
    match cached {
        Some((token, expires_at)) => if still_fresh(expires_at, now) {
            Some(token)
        } else {
            None
        },
        None => None,
    }
}

/// The lifetime of a fetched token: as the endpoint said, or an hour.
pub open spec fn lifetime_of(expires_in: Option<u64>) -> u64 {
    match expires_in {
        Some(e) => e,
        None => TOKEN_LIFETIME_SECS,
    }
}

/// Makes and caches access tokens for one service account.
pub struct TokenProvider {
    private_key: RsaPrivateKey,
    private_key_id: String,
    client_email: String,
    project_id: String,
    cached: Option<Cached>,
}

impl TokenProvider {
    /// The key id that the assertion header names.
    pub closed spec fn key_id(&self) -> Seq<char> {
        self.private_key_id@
    }

    /// The service account's e-mail, the assertion's issuer.
    pub closed spec fn email(&self) -> Seq<char> {
        self.client_email@
    }

    /// The GCP project of the service account.
    pub closed spec fn project(&self) -> Seq<char> {
        self.project_id@
    }

    /// The signing key.
    pub closed spec fn key(&self) -> RsaPrivateKey {
        self.private_key
    }

    /// The cached token and its expiry time, if any.
    pub closed spec fn cached(&self) -> Option<(Seq<char>, u64)> {
        match self.cached {
            Some(c) => Some((c.token@, c.expires_at)),
            None => None,
        }
    }

    /// Decodes the service account's private key; the provider starts with
    /// no cached token.
    pub fn new(sa: ServiceAccount) -> (r: Result<TokenProvider, AuthError>)
        ensures
            r is Ok <==> pkcs8_pem_decoded(sa.private_key@) is Ok,
            r matches Ok(p) ==> {
                &&& pkcs8_pem_decoded(sa.private_key@) == Ok::<RsaPrivateKey, Seq<char>>(p.key())
                &&& p.key_id() == sa.private_key_id@
                &&& p.email() == sa.client_email@
                &&& p.project() == sa.project_id@
                &&& p.cached() is None
            },
            r matches Err(AuthError::InvalidKey(detail)) ==> pkcs8_pem_decoded(sa.private_key@)
                == Err::<RsaPrivateKey, Seq<char>>(detail@),
    {
        match decode_private_key(sa.private_key.as_str()) {
            Ok(key) => Ok(TokenProvider {
                private_key: key,
                private_key_id: sa.private_key_id,
                client_email: sa.client_email,
                project_id: sa.project_id,
                cached: None,
            }),
            Err(text) => Err(AuthError::InvalidKey(text)),
        }
    }

    /// The GCP project of the service account.
    pub fn project_id(&self) -> (r: &str)
        ensures
            r@ == self.project(),
    {
        self.project_id.as_str()
    }

    /// The RSA key that signs the assertions.
    pub fn private_key(&self) -> (r: &RsaPrivateKey)
        ensures
            *r == self.key(),
    {
        &self.private_key
    }

    /// An access token at time `now` (seconds since the epoch): the cached
    /// one while it has more than a minute left, otherwise the JWT signing
    /// input of a fresh assertion issued at `now`.
    pub fn access_token(&self, now: u64) -> (r: TokenStep)
        requires
            now + REFRESH_MARGIN_SECS <= u64::MAX,
            cache_hit(self.cached(), now) is None ==> now + TOKEN_LIFETIME_SECS <= u64::MAX
                && jwt_fits(self.key_id(), self.email(), now as nat),
        ensures
            match cache_hit(self.cached(), now) {
                Some(token) => r matches TokenStep::Cached(t) && t@ == token,
                None => r matches TokenStep::Refresh { signing_input } && signing_input@
                    == jwt_signing_input(self.key_id(), self.email(), now as nat),
            },
            match self.cached() {
                Some((token, expires_at)) => if expires_at > now + 60 {
                    r matches TokenStep::Cached(t) && t@ == token
                } else {
                    r is Refresh
                },
                None => r is Refresh,
            },
    {
        if let Some(c) = &self.cached {
            if c.expires_at > now + REFRESH_MARGIN_SECS {
                return TokenStep::Cached(c.token.clone());
            }
        }
        TokenStep::Refresh { signing_input: self.signing_input(now) }
    }

    fn signing_input(&self, iat: u64) -> (r: String)
        requires
            iat + TOKEN_LIFETIME_SECS <= u64::MAX,
            jwt_fits(self.key_id(), self.email(), iat as nat),
        ensures
            r@ == jwt_signing_input(self.key_id(), self.email(), iat as nat),
    {
        let exp = iat + TOKEN_LIFETIME_SECS;
        let mut header = String::from_str("{\"alg\":\"RS256\",\"typ\":\"JWT\",\"kid\":\"");
        header.append(self.private_key_id.as_str());
        header.append("\"}");
        let mut claims = String::from_str("{\"iss\":\"");
        claims.append(self.client_email.as_str());
        claims.append(
            "\",\"scope\":\"https://www.googleapis.com/auth/cloud-platform\",\"aud\":\"https://oauth2.googleapis.com/token\",\"iat\":",
        );
        push_decimal(&mut claims, iat);
        claims.append(",\"exp\":");
        push_decimal(&mut claims, exp);
        claims.append("}");
        let mut r = encode_base64_url(header.as_str().as_bytes());
        push_char(&mut r, '.');
        let c = encode_base64_url(claims.as_str().as_bytes());
        r.append(c.as_str());
        r
    }

    /// Caches a token fetched at `now`, which the endpoint said lives
    /// `expires_in` seconds (an hour when it did not say), and returns it.
    pub fn accept_token(&mut self, token: String, expires_in: Option<u64>, now: u64) -> (r: String)
        requires
            now + lifetime_of(expires_in) <= u64::MAX,
        ensures
            r@ == token@,
            final(self).cached() == Some((token@, (now + lifetime_of(expires_in)) as u64)),
            expires_in matches Some(e) ==> final(self).cached() == Some((token@, (now + e) as u64)),
            expires_in is None ==> final(self).cached() == Some((token@, (now + 3600) as u64)),
            final(self).key_id() == old(self).key_id(),
            final(self).email() == old(self).email(),
            final(self).project() == old(self).project(),
            final(self).key() == old(self).key(),
    {
        let lifetime = match expires_in {
            Some(e) => e,
            None => TOKEN_LIFETIME_SECS,
        };
        let expires_at = now + lifetime;
        self.cached = Some(Cached { token: token.clone(), expires_at });
        token
    }
}

/// The form body that trades the signed assertion for an access token: the
/// JWT-bearer grant type and the assertion (signing input, a dot, and the
/// encoded signature).
pub fn token_request_body(signing_input: &str, signature: &[u8]) -> (r: String)
    requires
        base64_len(signature@.len()) <= usize::MAX,
    ensures
        r@ == token_request(signing_input@, signature@),
{
    let mut r = String::from_str(
        "grant_type=urn%3Aietf%3Aparams%3Aoauth%3Agrant-type%3Ajwt-bearer&assertion=",
    );
    r.append(signing_input);
    push_char(&mut r, '.');
    let s = encode_base64_url(signature);
    r.append(s.as_str());
    r
}

/// A dot-separated pair of base64 texts determines both of them.
proof fn lemma_dot_pair_determined(x: Seq<char>, y: Seq<char>, x2: Seq<char>, y2: Seq<char>)
    requires
        is_base64_url_text(x),
        is_base64_url_text(x2),
        x + seq!['.'] + y == x2 + seq!['.'] + y2,
    ensures
        x == x2,
        y == y2,
{
    let s = x + seq!['.'] + y;
    let s2 = x2 + seq!['.'] + y2;
    if x.len() < x2.len() {
        assert(s[x.len() as int] == '.');
        assert(s2[x.len() as int] == x2[x.len() as int]);
        assert(is_base64_url_char(x2[x.len() as int]));
    } else if x2.len() < x.len() {
        assert(s2[x2.len() as int] == '.');
        assert(s[x2.len() as int] == x[x2.len() as int]);
        assert(is_base64_url_char(x[x2.len() as int]));
    }
    assert(x =~= s.take(x.len() as int));
    assert(x2 =~= s2.take(x2.len() as int));
    assert(y =~= s.skip(x.len() as int + 1));
    assert(y2 =~= s2.skip(x2.len() as int + 1));
}

/// The assertion sent for a token splits back into its three segments: two
/// assertions are equal only when their encoded headers, encoded claims and
/// encoded signatures are.
pub proof fn lemma_assertion_segments_determined(
    header: Seq<u8>,
    claims: Seq<u8>,
    signature: Seq<u8>,
    header2: Seq<u8>,
    claims2: Seq<u8>,
    signature2: Seq<u8>,
)
    requires
        base64_url(header) + seq!['.'] + base64_url(claims) + seq!['.'] + base64_url(signature)
            == base64_url(header2) + seq!['.'] + base64_url(claims2) + seq!['.'] + base64_url(
            signature2,
        ),
    ensures
        base64_url(header) == base64_url(header2),
        base64_url(claims) == base64_url(claims2),
        base64_url(signature) == base64_url(signature2),
{
    lemma_base64_url_shape(header);
    lemma_base64_url_shape(claims);
    lemma_base64_url_shape(header2);
    lemma_base64_url_shape(claims2);
    let h = base64_url(header);
    let c = base64_url(claims);
    let s = base64_url(signature);
    let h2 = base64_url(header2);
    let c2 = base64_url(claims2);
    let s2 = base64_url(signature2);
    let rest = c + seq!['.'] + s;
    let rest2 = c2 + seq!['.'] + s2;
    assert(h + seq!['.'] + c + seq!['.'] + s == h + seq!['.'] + rest);
    assert(h2 + seq!['.'] + c2 + seq!['.'] + s2 == h2 + seq!['.'] + rest2);
    lemma_dot_pair_determined(h, rest, h2, rest2);
    lemma_dot_pair_determined(c, s, c2, s2);
}

/// A cached token is never served once a minute or less of it is left.
pub proof fn lemma_expiring_token_not_served(token: Seq<char>, expires_at: u64, now: u64)
    requires
        expires_at <= now + 60,
    ensures
        cache_hit(Some((token, expires_at)), now) is None,
{
}

/// A token fetched at `now` with lifetime `lifetime` is served from the cache
/// at any time `later` for which more than a minute of it is left, and
/// refreshed otherwise.
pub proof fn lemma_cached_token_reuse(token: Seq<char>, now: u64, lifetime: u64, later: u64)
    requires
        now + lifetime <= u64::MAX,
    ensures
        cache_hit(Some((token, (now + lifetime) as u64)), later) == if now + lifetime > later
            + 60 {
            Some(token)
        } else {
            None
        },
{
}

/// Accepting a token and then asking for one at the same moment gives that
/// token back, unless its lifetime is a minute or less.
pub proof fn lemma_accepted_token_served(token: Seq<char>, now: u64, lifetime: u64)
    requires
        now + lifetime <= u64::MAX,
    ensures
        cache_hit(Some((token, (now + lifetime) as u64)), now) == if lifetime > 60 {
            Some(token)
        } else {
            None
        },
{
}

/// A token fetched at `now` that the endpoint said lives `e` seconds is
/// served from the cache exactly while it expires more than a minute after
/// the time asked for, its expiry being `now + e` (an hour when the endpoint
/// gave no lifetime).
pub proof fn lemma_fetched_token_lifetime(
    cached: Option<(Seq<char>, u64)>,
    token: Seq<char>,
    expires_in: Option<u64>,
    now: u64,
    later: u64,
)
    requires
        now + lifetime_of(expires_in) <= u64::MAX,
        cached == Some((token, (now + lifetime_of(expires_in)) as u64)),
    ensures
        expires_in matches Some(e) ==> (cache_hit(cached, later) == Some(token) <==> now + e > later
            + 60),
        expires_in is None ==> (cache_hit(cached, later) == Some(token) <==> now + 3600 > later
            + 60),
        cache_hit(cached, later) is Some ==> cache_hit(cached, later) == Some(token),
{
}

/// Reads the assertion header: the JSON object naming the algorithm RS256,
/// the type JWT and the key id, in that order without white space. Gives the
/// key id.
pub open spec fn read_jwt_header(s: Seq<char>) -> Option<Seq<char>> {
    let k1 = "{\"alg\":\"RS256\",\"typ\":\"JWT\",\"kid\":"@;
    if !starts_with(s, k1) {
        None
    } else {
        match json_string(s.skip(k1.len() as int)) {
            Some((kid, r)) => if r == "}"@ {
                Some(kid)
            } else {
                None
            },
            None => None,
        }
    }
}

/// Reads the assertion claims: the JSON object with the issuer, the
/// cloud-platform scope, the token endpoint as audience, and the integer
/// times `iat` and `exp`, in that order without white space. Gives the
/// issuer, `iat` and `exp`.
pub open spec fn read_jwt_claims(s: Seq<char>) -> Option<(Seq<char>, int, int)> {
    let k1 = "{\"iss\":"@;
    let k2 = ",\"scope\":\"https://www.googleapis.com/auth/cloud-platform\",\"aud\":\"https://oauth2.googleapis.com/token\",\"iat\":"@;
    let k3 = ",\"exp\":"@;
    if !starts_with(s, k1) {
        None
    } else {
        match json_string(s.skip(k1.len() as int)) {
            None => None,
            Some((iss, r1)) => if !starts_with(r1, k2) {
                None
            } else {
                match json_int(r1.skip(k2.len() as int)) {
                    None => None,
                    Some((iat, r2)) => if !starts_with(r2, k3) {
                        None
                    } else {
                        match json_int(r2.skip(k3.len() as int)) {
                            Some((exp, r3)) => if r3 == "}"@ {
                                Some((iss, iat, exp))
                            } else {
                                None
                            },
                            None => None,
                        }
                    },
                }
            },
        }
    }
}

proof fn lemma_skip(prefix: Seq<char>, rest: Seq<char>)
    ensures
        starts_with(prefix + rest, prefix),
        (prefix + rest).skip(prefix.len() as int) == rest,
{
    assert((prefix + rest).take(prefix.len() as int) =~= prefix);
    assert((prefix + rest).skip(prefix.len() as int) =~= rest);
}

/// A text that JSON can carry in a string without escapes.
pub open spec fn is_plain_text(s: Seq<char>) -> bool {
    no_control(s) && lacks(s, '\\') && lacks(s, '"')
}

/// The header of an assertion reads back with its key id.
pub proof fn lemma_jwt_header_reads_back(key_id: Seq<char>)
    requires
        is_plain_text(key_id),
    ensures
        read_jwt_header(jwt_header(key_id)) == Some(key_id),
{
    reveal_strlit("{\"alg\":\"RS256\",\"typ\":\"JWT\",\"kid\":");
    reveal_strlit("{\"alg\":\"RS256\",\"typ\":\"JWT\",\"kid\":\"");
    reveal_strlit("\"}");
    reveal_strlit("}");
    let k1 = "{\"alg\":\"RS256\",\"typ\":\"JWT\",\"kid\":"@;
    let k2 = "}"@;
    assert("{\"alg\":\"RS256\",\"typ\":\"JWT\",\"kid\":\""@ =~= k1 + seq!['"']);
    assert("\"}"@ =~= seq!['"'] + k2);
    lemma_escaped_plain(key_id);
    let x = quoted(key_id) + k2;
    assert(jwt_header(key_id) =~= k1 + x);
    lemma_skip(k1, x);
    lemma_json_string_quoted(key_id, k2);
}

/// The claims of an assertion issued at `iat` read back with the service
/// account as issuer, `iat` as issue time and `iat + 3600` as expiry.
pub proof fn lemma_jwt_claims_read_back(email: Seq<char>, iat: nat)
    requires
        is_plain_text(email),
    ensures
        read_jwt_claims(jwt_claims(email, iat)) == Some((email, iat as int, iat as int + 3600)),
{
    reveal_strlit("{\"iss\":");
    reveal_strlit("{\"iss\":\"");
    reveal_strlit(",\"scope\":\"https://www.googleapis.com/auth/cloud-platform\",\"aud\":\"https://oauth2.googleapis.com/token\",\"iat\":");
    reveal_strlit("\",\"scope\":\"https://www.googleapis.com/auth/cloud-platform\",\"aud\":\"https://oauth2.googleapis.com/token\",\"iat\":");
    reveal_strlit(",\"exp\":");
    reveal_strlit("}");
    let k1 = "{\"iss\":"@;
    let k2 = ",\"scope\":\"https://www.googleapis.com/auth/cloud-platform\",\"aud\":\"https://oauth2.googleapis.com/token\",\"iat\":"@;
    let k3 = ",\"exp\":"@;
    let k4 = "}"@;
    assert("{\"iss\":\""@ =~= k1 + seq!['"']);
    assert("\",\"scope\":\"https://www.googleapis.com/auth/cloud-platform\",\"aud\":\"https://oauth2.googleapis.com/token\",\"iat\":"@ =~= seq!['"'] + k2);
    lemma_escaped_plain(email);
    let exp = iat + TOKEN_LIFETIME_SECS as nat;
    assert(signed_decimal(iat as int) == decimal(iat));
    assert(signed_decimal(exp as int) == decimal(exp));
    let x3 = decimal(exp) + k4;
    let x2 = decimal(iat) + (k3 + x3);
    let x1 = quoted(email) + (k2 + x2);
    assert(jwt_claims(email, iat) =~= k1 + x1);
    lemma_skip(k1, x1);
    lemma_json_string_quoted(email, k2 + x2);
    lemma_skip(k2, x2);
    assert((k3 + x3)[0] == ',');
    assert(!is_digit((k3 + x3)[0]));
    lemma_json_int_decimal(iat as int, k3 + x3);
    lemma_skip(k3, x3);
    assert(k4[0] == '}');
    assert(!is_digit(k4[0]));
    lemma_json_int_decimal(exp as int, k4);
}

/// The signing input that a refresh asks to sign is the encoded header and
/// the encoded claims, separated by a dot, where the header names the
/// provider's key id and the claims read back with the service account as
/// issuer, the time of the request as `iat`, and an hour later as `exp`.
pub proof fn lemma_signing_input_claims(key_id: Seq<char>, email: Seq<char>, now: nat)
    requires
        is_plain_text(key_id),
        is_plain_text(email),
    ensures
        exists|header: Seq<char>, claims: Seq<char>|
            {
                &&& jwt_signing_input(key_id, email, now) == base64_url(encode_utf8(header))
                    + seq!['.'] + base64_url(encode_utf8(claims))
                &&& #[trigger] read_jwt_header(header) == Some(key_id)
                &&& #[trigger] read_jwt_claims(claims) == Some((email, now as int, now as int + 3600))
            },
{
    lemma_jwt_header_reads_back(key_id);
    lemma_jwt_claims_read_back(email, now);
    let header = jwt_header(key_id);
    let claims = jwt_claims(email, now);
    assert(read_jwt_header(header) == Some(key_id));
    assert(read_jwt_claims(claims) == Some((email, now as int, now as int + 3600)));
}

/// Where the first `c` stands in `s` (its length when there is none).
pub open spec fn index_of_char(s: Seq<char>, c: char) -> nat
    decreases s.len(),
{
    if s.len() == 0 || s[0] == c {
        0
    } else {
        1 + index_of_char(s.skip(1), c)
    }
}

/// Reads the token request form `grant_type=<value>&assertion=<value>`:
/// gives the decoded grant type and the decoded assertion.
pub open spec fn read_token_form(s: Seq<char>) -> Option<(Seq<char>, Seq<char>)> {
    let k1 = "grant_type="@;
    let k2 = "assertion="@;
    if !starts_with(s, k1) {
        None
    } else {
        let t = s.skip(k1.len() as int);
        let i = index_of_char(t, '&');
        if i >= t.len() {
            None
        } else {
            let rest = t.skip(i as int + 1);
            if !starts_with(rest, k2) {
                None
            } else {
                match (form_decode(t.take(i as int)), form_decode(rest.skip(k2.len() as int))) {
                    (Some(grant), Some(assertion)) => Some((grant, assertion)),
                    _ => None,
                }
            }
        }
    }
}

/// A text with no `%`, `+` or `&` is its own form encoding.
proof fn lemma_form_decode_plain(s: Seq<char>)
    requires
        lacks(s, '%'),
        lacks(s, '+'),
    ensures
        form_decode(s) == Some(s),
    decreases s.len(),
{
    if s.len() > 0 {
        let t = s.skip(1);
        assert(lacks(t, '%') && lacks(t, '+')) by {
            assert forall|i: int| 0 <= i < t.len() implies #[trigger] t[i] != '%' && t[i] != '+' by {
                assert(t[i] == s[i + 1]);
            }
        }
        lemma_form_decode_plain(t);
        assert(seq![s[0]] + t =~= s);
    }
}

/// The first `c` of `a + [c] + b` is the one after `a` when `a` has none.
proof fn lemma_index_of_char(a: Seq<char>, c: char, b: Seq<char>)
    requires
        lacks(a, c),
    ensures
        index_of_char(a + seq![c] + b, c) == a.len(),
    decreases a.len(),
{
    let s = a + seq![c] + b;
    if a.len() > 0 {
        let t = a.skip(1);
        assert(s.skip(1) =~= t + seq![c] + b);
        assert(lacks(t, c)) by {
            assert forall|i: int| 0 <= i < t.len() implies #[trigger] t[i] != c by {
                assert(t[i] == a[i + 1]);
            }
        }
        assert(s[0] == a[0]);
        lemma_index_of_char(t, c, b);
    } else {
        assert(s[0] == c);
    }
}

/// The grant type, as the form writes it, has no `&`.
proof fn lemma_grant_type_has_no_ampersand()
    ensures
        lacks("urn%3Aietf%3Aparams%3Aoauth%3Agrant-type%3Ajwt-bearer"@, '&'),
{
    reveal_strlit("urn%3Aietf%3Aparams%3Aoauth%3Agrant-type%3Ajwt-bearer");
}

/// The token request is the form that asks for the JWT-bearer grant
/// (`urn:ietf:params:oauth:grant-type:jwt-bearer`) with the assertion made of
/// the signing input, a dot, and the encoded signature.
pub proof fn lemma_token_request_reads_back(signing_input: Seq<char>, signature: Seq<u8>)
    requires
        lacks(signing_input, '%'),
        lacks(signing_input, '+'),
        lacks(signing_input, '&'),
    ensures
        read_token_form(token_request(signing_input, signature)) == Some(
            (
                "urn:ietf:params:oauth:grant-type:jwt-bearer"@,
                signing_input + seq!['.'] + base64_url(signature),
            ),
        ),
{
    reveal_strlit("grant_type=urn%3Aietf%3Aparams%3Aoauth%3Agrant-type%3Ajwt-bearer&assertion=");
    reveal_strlit("grant_type=");
    reveal_strlit("assertion=");
    reveal_strlit("urn%3Aietf%3Aparams%3Aoauth%3Agrant-type%3Ajwt-bearer");
    let k1 = "grant_type="@;
    let k2 = "assertion="@;
    let g = "urn%3Aietf%3Aparams%3Aoauth%3Agrant-type%3Ajwt-bearer"@;
    let a = signing_input + seq!['.'] + base64_url(signature);
    assert("grant_type=urn%3Aietf%3Aparams%3Aoauth%3Agrant-type%3Ajwt-bearer&assertion="@ =~= k1 + g
        + seq!['&'] + k2);
    let s = token_request(signing_input, signature);
    assert(s =~= k1 + (g + seq!['&'] + (k2 + a)));
    lemma_skip(k1, g + seq!['&'] + (k2 + a));
    let t = g + seq!['&'] + (k2 + a);
    lemma_index_of_char(g, '&', k2 + a);
    assert(t.take(g.len() as int) =~= g);
    assert(t.skip(g.len() as int + 1) =~= k2 + a);
    lemma_skip(k2, a);
    lemma_grant_type_decodes();
    lemma_grant_type_has_no_ampersand();
    lemma_base64_url_shape(signature);
    let e = base64_url(signature);
    assert(lacks(a, '%') && lacks(a, '+')) by {
        assert forall|i: int| 0 <= i < a.len() implies #[trigger] a[i] != '%' && a[i] != '+' by {
            if i < signing_input.len() {
                assert(a[i] == signing_input[i]);
            } else if i > signing_input.len() {
                assert(a[i] == e[i - signing_input.len() - 1]);
                assert(is_base64_url_char(e[i - signing_input.len() - 1]));
            }
        }
    }
    lemma_form_decode_plain(a);
}

} // verus!
