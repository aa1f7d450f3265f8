//! The credential gate for mutating requests.
//!
//! A single configured secret admits or rejects each mutating request before
//! any whitelist mutation is attempted. Two verification strategies are
//! selected once at startup from the secret's shape: a PHC-formatted
//! `$argon2` string is checked by password-hash verification; any other
//! secret is compared byte-for-byte in constant time. The presented
//! credential arrives as a `Bearer` Authorization header.
//!
//! Nothing here panics: every failure is a typed rejection.

use crate::error::AppError;
use vstd::prelude::*;
use vstd::string::*;
use vstd::utf8::encode_utf8;

verus! {

/// Why a mutating request was turned away before reaching the whitelist.
#[derive(Debug, Clone, Copy, PartialEq, Eq, Structural)]
pub enum AuthRejection {
    /// No Authorization header was presented.
    MissingToken,
    /// The header does not carry the `Bearer` scheme.
    NotBearer,
    /// The presented credential does not match the configured secret.
    BadCredential,
    /// The configured secret itself is unusable (an unparseable PHC string).
    ServerError,
}

/// The HTTP status a rejection answers with: 500 when the server's own
/// configuration is at fault, 401 otherwise.
pub open spec fn spec_rejection_status(r: AuthRejection) -> u16 {
    match r {
        AuthRejection::ServerError => 500,
        _ => 401,
    }
}

/// The response body text for each rejection.
pub open spec fn spec_rejection_message(r: AuthRejection) -> Seq<char> {
    match r {
        AuthRejection::MissingToken => "Missing auth token"@,
        AuthRejection::NotBearer => "Token should be Bearer"@,
        AuthRejection::BadCredential => "Unathorized"@,
        AuthRejection::ServerError => "Server error"@,
    }
}

impl AuthRejection {
    /// The HTTP status for this rejection.
    pub fn status_code(&self) -> (code: u16)
        ensures
            code == spec_rejection_status(*self),
    {
        match self {
            AuthRejection::ServerError => 500,
            _ => 401,
        }
    }

    /// The response body text for this rejection.
    pub fn message(&self) -> (m: String)
        ensures
            m@ == spec_rejection_message(*self),
    {
        match self {
            AuthRejection::MissingToken => String::from_str("Missing auth token"),
            AuthRejection::NotBearer => String::from_str("Token should be Bearer"),
            AuthRejection::BadCredential => String::from_str("Unathorized"),
            AuthRejection::ServerError => String::from_str("Server error"),
        }
    }
}

/// Whether `p` is a prefix of `s`.
pub open spec fn has_prefix(s: Seq<char>, p: Seq<char>) -> bool {
    s.len() >= p.len() && s.take(p.len() as int) == p
}

/// Decides `has_prefix` on the views of two strings.
fn str_has_prefix(s: &str, p: &str) -> (r: bool)
    ensures
        r == has_prefix(s@, p@),
{
    let plen = p.unicode_len();
    let slen = s.unicode_len();
    if slen < plen {
        return false;
    }
    let mut i: usize = 0;
    while i < plen
        invariant
            i <= plen,
            plen == p@.len(),
            slen == s@.len(),
            plen <= slen,
            forall|j: int| 0 <= j < i ==> s@[j] == p@[j],
        decreases plen - i,
    {
        let sc = s.get_char(i);
        let pc = p.get_char(i);
        if sc != pc {
            proof {
                assert(s@.take(plen as int)[i as int] == s@[i as int]);
                assert(s@.take(plen as int) != p@);
            }
            return false;
        }
        i = i + 1;
    }
    proof {
        assert(s@.take(plen as int) =~= p@);
    }
    true
}

/// The result of `str::trim`: the text with leading and trailing whitespace
/// removed. It depends on the characters alone.
pub uninterp spec fn trim_of(s: Seq<char>) -> Seq<char>;

/// Relies on `str::trim` to strip surrounding whitespace from the
/// Authorization header.
#[verifier::external_body]
fn str_trim<'a>(s: &'a str) -> (r: &'a str)
    ensures
        r@ == trim_of(s@),
{
    s.trim()
}

/// The bearer scheme marker that a presented credential must carry.
pub open spec fn bearer_prefix() -> Seq<char> {
    "Bearer "@
}

/// Whether a (trimmed) header value carries the bearer scheme.
pub open spec fn has_bearer(s: Seq<char>) -> bool {
    has_prefix(s, bearer_prefix())
}

/// The credential that follows the bearer marker.
pub open spec fn bearer_token(s: Seq<char>) -> Seq<char> {
    s.skip(bearer_prefix().len() as int)
}

/// Strips the bearer marker off a trimmed header value.
fn strip_bearer(s: &str) -> (r: Option<String>)
    ensures
        r is Some <==> has_bearer(s@),
        r matches Some(t) ==> t@ == bearer_token(s@),
{
    let p = "Bearer ";
    if !str_has_prefix(s, p) {
        return None;
    }
    let plen = p.unicode_len();
    let slen = s.unicode_len();
    let rest = s.substring_char(plen, slen);
    proof {
        assert(rest@ =~= bearer_token(s@));
    }
    Some(String::from_str(rest))
}

/// Pulls the bearer credential out of a request's Authorization header: the
/// header is trimmed of surrounding whitespace and must carry the `Bearer `
/// scheme.
pub fn extract_token(header: Option<&str>) -> (r: Result<String, AuthRejection>)
    ensures
        header is None ==> r == Err::<String, AuthRejection>(AuthRejection::MissingToken),
        header matches Some(h) ==> (if has_bearer(trim_of(h@)) {
            r matches Ok(t) && t@ == bearer_token(trim_of(h@))
        } else {
            r == Err::<String, AuthRejection>(AuthRejection::NotBearer)
        }),
{
    match header {
        None => Err(AuthRejection::MissingToken),
        Some(h) => {
            let trimmed = str_trim(h);
            match strip_bearer(trimmed) {
                Some(t) => Ok(t),
                None => Err(AuthRejection::NotBearer),
            }
        },
    }
}

/// Relies on `ring::constant_time::verify_slices_are_equal`: returns `Ok`
/// exactly when the two byte slices are equal (in constant time).
#[verifier::external_body]
#[allow(deprecated)]
fn ct_bytes_eq(a: &[u8], b: &[u8]) -> (r: bool)
    ensures
        r == (a@ == b@),
{
    ring::constant_time::verify_slices_are_equal(a, b).is_ok()
}

/// Whether `s` parses as a PHC password-hash string, as decided by
/// `argon2::PasswordHash::new`; a function of the text alone.
pub uninterp spec fn phc_parses(s: Seq<char>) -> bool;

/// Relies on `argon2::PasswordHash::new` (the PHC string parser).
#[verifier::external_body]
fn phc_parse_ok(s: &str) -> (r: bool)
    ensures
        r == phc_parses(s@),
{
    argon2::PasswordHash::new(s).is_ok()
}

/// Whether argon2 verifies password `pw` against the PHC string `phc`, as
/// decided by `Argon2::verify_password` with the default context; the PHC
/// string carries the salt and parameters, so the result is a function of
/// the two inputs alone.
pub uninterp spec fn argon2_verifies(pw: Seq<u8>, phc: Seq<char>) -> bool;

/// Relies on `argon2::Argon2::verify_password` (the `str` form, which
/// parses the PHC string and recomputes the hash).
#[verifier::external_body]
fn argon2_verify(pw: &[u8], phc: &str) -> (r: bool)
    ensures
        r == argon2_verifies(pw@, phc@),
{
    let argon = argon2::Argon2::default();
    argon2::PasswordVerifier::<str>::verify_password(&argon, pw, phc).is_ok()
}

/// The PHC string produced by Argon2id (version 0x13) with the given cost
/// parameters, password and salt; a function of its arguments alone.
pub uninterp spec fn argon2_phc_of(pw: Seq<u8>, salt: Seq<u8>, m: u32, t: u32, p: u32) -> Seq<char>;

/// Relies on `argon2::Argon2::hash_password_with_salt` with explicit
/// Argon2id/V0x13 parameters; `None` when argon2 rejects the parameters,
/// salt or password.
#[verifier::external_body]
fn argon2_hash(pw: &[u8], salt: &[u8], m_cost: u32, t_cost: u32, p_cost: u32) -> (r: Option<
    String,
>)
    ensures
        r matches Some(s) ==> s@ == argon2_phc_of(pw@, salt@, m_cost, t_cost, p_cost),
{
    let mut builder = argon2::ParamsBuilder::new();
    builder.m_cost(m_cost).t_cost(t_cost).p_cost(p_cost);
    let params = match builder.build() {
        Ok(p) => p,
        Err(_) => return None,
    };
    let argon = argon2::Argon2::new(argon2::Algorithm::Argon2id, argon2::Version::V0x13, params);
    match argon2::PasswordHasher::hash_password_with_salt(&argon, pw, salt) {
        Ok(h) => Some(h.to_string()),
        Err(_) => None,
    }
}

/// Memory cost, in kibibytes, of generated admin credentials.
pub const HASH_M_COST: u32 = 65540;

/// Iteration count of generated admin credentials.
pub const HASH_T_COST: u32 = 3;

/// Parallelism degree of generated admin credentials.
pub const HASH_P_COST: u32 = 4;

/// Produces the PHC string for a new admin credential: Argon2id over the
/// token with the caller's salt and this library's cost parameters.
pub fn generate_hash(token: &[u8], salt: &[u8]) -> (r: Result<String, AppError>)
    ensures
        r matches Ok(s) ==> s@ == argon2_phc_of(
            token@,
            salt@,
            HASH_M_COST,
            HASH_T_COST,
            HASH_P_COST,
        ),
        r matches Err(e) ==> e matches AppError::Other(m) && m@ == "Could not hash token"@,
{
    match argon2_hash(token, salt, HASH_M_COST, HASH_T_COST, HASH_P_COST) {
        Some(s) => Ok(s),
        None => Err(AppError::Other(String::from_str("Could not hash token"))),
    }
}

/// Constant-time comparison against a plain shared secret.
#[derive(Clone, Debug)]
pub struct SimpleAuthTokenValidator {
    token: Vec<u8>,
}

impl SimpleAuthTokenValidator {
    /// The configured secret, as bytes.
    pub closed spec fn token_view(&self) -> Seq<u8> {
        self.token@
    }

    /// Wraps the configured shared-secret bytes.
    pub fn new(token: Vec<u8>) -> (r: Self)
        ensures
            r.token_view() == token@,
    {
        Self { token }
    }
}

/// Password-hash verification against a precomputed PHC string.
#[derive(Clone, Debug)]
pub struct Argon2AuthTokenValidator {
    token: String,
}

impl Argon2AuthTokenValidator {
    /// The configured PHC string.
    pub closed spec fn token_view(&self) -> Seq<char> {
        self.token@
    }

    /// Wraps the configured PHC string.
    pub fn new(token: String) -> (r: Self)
        ensures
            r.token_view() == token@,
    {
        Self { token }
    }
}

/// The marker that selects password-hash verification.
pub open spec fn argon2_marker() -> Seq<char> {
    "$argon2"@
}

/// The credential gate, with its verification strategy fixed at
/// construction.
#[derive(Clone, Debug)]
pub enum AuthTokenValidator {
    Simple(SimpleAuthTokenValidator),
    Argon2(Argon2AuthTokenValidator),
}

/// Gate outcome for one request: the configured secret judges the presented
/// bearer credential.
pub open spec fn spec_validate(v: AuthTokenValidator, header: Option<Seq<char>>) -> Result<
    (),
    AuthRejection,
> {
    match v {
        AuthTokenValidator::Simple(sv) => match header {
            None => Err(AuthRejection::MissingToken),
            Some(h) => if !has_bearer(trim_of(h)) {
                Err(AuthRejection::NotBearer)
            } else if encode_utf8(bearer_token(trim_of(h))) == sv.token_view() {
                Ok(())
            } else {
                Err(AuthRejection::BadCredential)
            },
        },
        AuthTokenValidator::Argon2(av) => if !phc_parses(av.token_view()) {
            Err(AuthRejection::ServerError)
        } else {
            match header {
                None => Err(AuthRejection::MissingToken),
                Some(h) => if !has_bearer(trim_of(h)) {
                    Err(AuthRejection::NotBearer)
                } else if argon2_verifies(encode_utf8(bearer_token(trim_of(h))), av.token_view()) {
                    Ok(())
                } else {
                    Err(AuthRejection::BadCredential)
                },
            }
        },
    }
}

impl AuthTokenValidator {
    /// Chooses the strategy from the configured secret's shape: a `$argon2`
    /// PHC string selects password-hash verification, anything else the
    /// constant-time byte comparison.
    pub fn new(token: String) -> (r: Self)
        ensures
            has_prefix(token@, argon2_marker()) ==> (r matches AuthTokenValidator::Argon2(v)
                && v.token_view() == token@),
            !has_prefix(token@, argon2_marker()) ==> (r matches AuthTokenValidator::Simple(v)
                && v.token_view() == encode_utf8(token@)),
    {
        if str_has_prefix(token.as_str(), "$argon2") {
            AuthTokenValidator::Argon2(Argon2AuthTokenValidator::new(token))
        } else {
            let bytes = token.as_str().as_bytes_vec();
            AuthTokenValidator::Simple(SimpleAuthTokenValidator::new(bytes))
        }
    }

    /// Admits or rejects a mutating request from its Authorization header.
    /// On `Err` the whitelist is never touched.
    pub fn validate_header(&self, header: Option<&str>) -> (r: Result<(), AuthRejection>)
        ensures
            r == spec_validate(*self, header.deep_view()),
    {
        match self {
            AuthTokenValidator::Simple(v) => {
                let token = match extract_token(header) {
                    Ok(t) => t,
                    Err(e) => { return Err(e) },
                };
                if ct_bytes_eq(token.as_str().as_bytes(), v.token.as_slice()) {
                    Ok(())
                } else {
                    Err(AuthRejection::BadCredential)
                }
            },
            AuthTokenValidator::Argon2(v) => {
                if !phc_parse_ok(v.token.as_str()) {
                    return Err(AuthRejection::ServerError);
                }
                let token = match extract_token(header) {
                    Ok(t) => t,
                    Err(e) => { return Err(e) },
                };
                if argon2_verify(token.as_str().as_bytes(), v.token.as_str()) {
                    Ok(())
                } else {
                    Err(AuthRejection::BadCredential)
                }
            },
        }
    }
}

} // verus!
