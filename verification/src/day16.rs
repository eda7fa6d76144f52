use vstd::prelude::*;

use crate::reply::{Reply, ReplyBody};

verus! {

#[verifier::external_type_specification]
#[verifier::external_body]
pub struct ExDecodingKey(jsonwebtoken::DecodingKey);

#[verifier::external_type_specification]
#[verifier::external_body]
pub struct ExValidation(jsonwebtoken::Validation);

#[verifier::external_type_specification]
#[verifier::external_body]
pub struct ExHeader(jsonwebtoken::Header);

#[verifier::external_type_specification]
#[verifier::external_body]
pub struct ExJwtError(jsonwebtoken::errors::Error);

/// Seconds that a gift token stays valid.
pub const GIFT_LIFETIME_SECS: u64 = 3600;

/// The claims of a gift token: the wrapped data and when it expires, in
/// seconds since the Unix epoch.
pub struct Claims {
    pub data: String,
    pub exp: usize,
}

/// The kinds of failure of reading a token that the answers tell apart.
#[derive(Debug, Clone, Copy, PartialEq, Eq, Structural)]
pub enum JwtErrorKind {
    InvalidToken,
    InvalidSignature,
    InvalidRsaKey,
    ExpiredSignature,
    ImmatureSignature,
    InvalidAlgorithm,
    MissingRequiredClaim,
    Other,
}

/// Signing algorithms that a token check may accept.
#[derive(Debug, Clone, Copy, PartialEq, Eq, Structural)]
pub enum JwtAlgorithm {
    HS256,
    RS256,
    RS512,
}

/// The checks that a jsonwebtoken `Validation` makes, as plain values: the
/// registered claims that must be present, the leeway in seconds, how long
/// before expiry tokens are refused, which of expiry, not-before and audience
/// are checked, whether an audience, issuer or subject is imposed, the
/// accepted algorithms, and whether the signature is checked.
pub struct TokenChecks {
    pub required_claims: Set<Seq<char>>,
    pub leeway: u64,
    pub reject_expiring_within: u64,
    pub validate_exp: bool,
    pub validate_nbf: bool,
    pub validate_aud: bool,
    pub audience_imposed: bool,
    pub issuer_imposed: bool,
    pub subject_imposed: bool,
    pub algorithms: Seq<JwtAlgorithm>,
    pub validate_signature: bool,
}

/// The checks of a `Validation` (jsonwebtoken keeps them in its fields).
pub uninterp spec fn token_checks(validation: jsonwebtoken::Validation) -> TokenChecks;

/// The checks that `Validation::default` makes, as the crate's source sets
/// them: `exp` required, 60 s leeway, expiry checked, audience checked when
/// present, HS256 only, signature checked.
pub open spec fn default_checks() -> TokenChecks {
    TokenChecks {
        required_claims: set!["exp"@],
        leeway: 60,
        reject_expiring_within: 0,
        validate_exp: true,
        validate_nbf: false,
        validate_aud: true,
        audience_imposed: false,
        issuer_imposed: false,
        subject_imposed: false,
        algorithms: seq![JwtAlgorithm::HS256],
        validate_signature: true,
    }
}

/// The checks that tokens from the north pole get: the default checks with
/// expiry checked, RS256 or RS512 accepted, and no registered claim
/// required (the one name given, the empty name, is none of them).
pub open spec fn north_pole_checks() -> TokenChecks {
    TokenChecks {
        validate_exp: true,
        algorithms: seq![JwtAlgorithm::RS256, JwtAlgorithm::RS512],
        required_claims: set![""@],
        ..default_checks()
    }
}

/// The RSA public key that `DecodingKey::from_rsa_pem` reads from a PEM
/// document, if it holds one.
pub uninterp spec fn pem_rsa_key(pem: Seq<u8>) -> Option<jsonwebtoken::DecodingKey>;

/// `token` has the shape of a JWT whose header reads, as `decode_header`
/// reads it.
pub uninterp spec fn jwt_header_reads(token: Seq<char>) -> bool;

/// The kind of a jsonwebtoken error, with the kinds that the answers tell
/// apart named and the others grouped.
pub uninterp spec fn kind_of(error: jsonwebtoken::errors::Error) -> JwtErrorKind;

/// The compact JSON text of a token's payload, as `decode` reads it into a
/// `serde_json::Value` and writes it again.
pub uninterp spec fn payload_json(token: Seq<char>) -> Seq<char>;

/// The HS256 token, with the default header, whose claims are the object
/// `{"data": data, "exp": exp}` and whose signature uses `secret`, as
/// `encode` writes it.
pub uninterp spec fn hs256_gift_token(data: Seq<char>, exp: nat, secret: Seq<u8>) -> Seq<char>;

/// The claims of a gift token made at `now` seconds since the Unix epoch.
pub fn gift_claims(data: String, now: u64) -> (c: Claims)
    requires
        now + GIFT_LIFETIME_SECS <= usize::MAX,
    ensures
        c.data@ == data@,
        c.exp == now + GIFT_LIFETIME_SECS,
{
    Claims { data, exp: (now + GIFT_LIFETIME_SECS) as usize }
}

/// `encode` (jsonwebtoken) with `Header::default()` (HS256), an
/// `EncodingKey::from_secret` key and the claims object `{"data", "exp"}`
/// (keys in that order, as a struct with those two fields writes them):
/// the token named by [`hs256_gift_token`]. HMAC keys match the HS256
/// header and these claims always serialise, so it always succeeds.
#[verifier::external_body]
fn encode_gift_token(data: &str, exp: usize, secret: &[u8]) -> (r: Result<String, jsonwebtoken::errors::Error>)
    ensures
        r is Ok,
        r matches Ok(t) ==> t@ == hs256_gift_token(data@, exp as nat, secret@),
{
    let mut claims = std::collections::BTreeMap::new();
    claims.insert("data", serde_json::Value::from(data));
    claims.insert("exp", serde_json::Value::from(exp));
    jsonwebtoken::encode(
        &jsonwebtoken::Header::default(),
        &claims,
        &jsonwebtoken::EncodingKey::from_secret(secret),
    )
}

/// The gift token for `data` made at `now` seconds since the Unix epoch:
/// its claims are those of [`gift_claims`], signed with `secret`.
pub fn gift_token(data: &str, now: u64, secret: &[u8]) -> (t: String)
    requires
        now + GIFT_LIFETIME_SECS <= usize::MAX,
    ensures
        t@ == hs256_gift_token(data@, (now + GIFT_LIFETIME_SECS) as nat, secret@),
{
    let exp = (now + GIFT_LIFETIME_SECS) as usize;
    match encode_gift_token(data, exp, secret) {
        Ok(t) => t,
        Err(_) => String::new(),
    }
}

/// `DecodingKey::from_rsa_pem` (jsonwebtoken): reads an RSA public key from a
/// PEM document; the key, or its absence, is named by [`pem_rsa_key`].
#[verifier::external_body]
fn rsa_key_from_pem(pem: &[u8]) -> (r: Result<jsonwebtoken::DecodingKey, jsonwebtoken::errors::Error>)
    ensures
        match r {
            Ok(key) => pem_rsa_key(pem@) == Some(key),
            Err(_) => pem_rsa_key(pem@) is None,
        },
{
    jsonwebtoken::DecodingKey::from_rsa_pem(pem)
}

/// `decode_header` (jsonwebtoken): reads the header of a token without
/// checking its signature. It succeeds exactly on the tokens named by
/// [`jwt_header_reads`]; the header itself is opaque.
#[verifier::external_body]
fn read_header(token: &str) -> (r: Result<jsonwebtoken::Header, jsonwebtoken::errors::Error>)
    ensures
        r is Ok == jwt_header_reads(token@),
{
    jsonwebtoken::decode_header(token)
}

/// `Validation::default` (jsonwebtoken): the default checks.
#[verifier::external_body]
fn default_validation() -> (v: jsonwebtoken::Validation)
    ensures
        token_checks(v) == default_checks(),
{
    jsonwebtoken::Validation::default()
}

/// Sets the `validate_exp` field of a `Validation` (jsonwebtoken): whether
/// the expiry claim is checked; the other checks stay.
#[verifier::external_body]
fn set_validate_exp(validation: &mut jsonwebtoken::Validation, on: bool)
    ensures
        token_checks(*final(validation)) == (TokenChecks {
            validate_exp: on,
            ..token_checks(*old(validation))
        }),
{
    validation.validate_exp = on;
}

/// Sets the `algorithms` field of a `Validation` (jsonwebtoken): the
/// algorithms a token's header may name; the other checks stay.
#[verifier::external_body]
fn set_algorithms(validation: &mut jsonwebtoken::Validation, algorithms: &[JwtAlgorithm])
    ensures
        token_checks(*final(validation)) == (TokenChecks {
            algorithms: algorithms@,
            ..token_checks(*old(validation))
        }),
{
    validation.algorithms = algorithms.iter().map(|a| match a {
        JwtAlgorithm::HS256 => jsonwebtoken::Algorithm::HS256,
        JwtAlgorithm::RS256 => jsonwebtoken::Algorithm::RS256,
        JwtAlgorithm::RS512 => jsonwebtoken::Algorithm::RS512,
    }).collect();
}

/// `Validation::set_required_spec_claims` (jsonwebtoken): the registered
/// claims a token must carry become the given names; the other checks stay.
#[verifier::external_body]
fn set_required_claims(validation: &mut jsonwebtoken::Validation, claims: &[&str])
    ensures
        token_checks(*final(validation)) == (TokenChecks {
            required_claims: claims@.map_values(|c: &str| c@).to_set(),
            ..token_checks(*old(validation))
        }),
{
    validation.set_required_spec_claims(claims);
}

/// `decode::<serde_json::Value>` (jsonwebtoken): checks the token's signature
/// with the key and its claims against the validation, and gives the claims
/// as compact JSON text, named by [`payload_json`]. Whether it succeeds is
/// not stated: the expiry check reads the clock.
#[verifier::external_body]
fn decode_claims(
    token: &str,
    key: &jsonwebtoken::DecodingKey,
    validation: &jsonwebtoken::Validation,
) -> (r: Result<String, jsonwebtoken::errors::Error>)
    ensures
        r matches Ok(t) ==> t@ == payload_json(token@),
{
    jsonwebtoken::decode::<serde_json::Value>(token, key, validation).map(|t| t.claims.to_string())
}

/// `Error::kind` (jsonwebtoken), with the kinds that the answers tell apart
/// named and the others grouped; named by [`kind_of`].
#[verifier::external_body]
fn error_kind(error: &jsonwebtoken::errors::Error) -> (k: JwtErrorKind)
    ensures
        k == kind_of(*error),
{
    match error.kind() {
        jsonwebtoken::errors::ErrorKind::InvalidToken => JwtErrorKind::InvalidToken,
        jsonwebtoken::errors::ErrorKind::InvalidSignature => JwtErrorKind::InvalidSignature,
        jsonwebtoken::errors::ErrorKind::InvalidRsaKey(_) => JwtErrorKind::InvalidRsaKey,
        jsonwebtoken::errors::ErrorKind::ExpiredSignature => JwtErrorKind::ExpiredSignature,
        jsonwebtoken::errors::ErrorKind::ImmatureSignature => JwtErrorKind::ImmatureSignature,
        jsonwebtoken::errors::ErrorKind::InvalidAlgorithm => JwtErrorKind::InvalidAlgorithm,
        jsonwebtoken::errors::ErrorKind::MissingRequiredClaim(_) => JwtErrorKind::MissingRequiredClaim,
        _ => JwtErrorKind::Other,
    }
}

/// `outcome` is an outcome that decoding `token` with `key` under
/// `validation` can give: what [`decode_claims`] may return for those
/// arguments.
pub closed spec fn decode_outcome(
    token: &str,
    key: jsonwebtoken::DecodingKey,
    validation: jsonwebtoken::Validation,
    outcome: Result<String, jsonwebtoken::errors::Error>,
) -> bool {
    call_ensures(decode_claims, (token, &key, &validation), outcome)
}

/// The outcome of decoding a token with the error taken by its kind.
pub open spec fn outcome_by_kind(outcome: Result<String, jsonwebtoken::errors::Error>) -> Result<
    Seq<char>,
    JwtErrorKind,
> {
    match outcome {
        Ok(json) => Ok(json@),
        Err(e) => Err(kind_of(e)),
    }
}

/// The answer that the outcome of decoding a token gives: 200 with the claims
/// as JSON, 401 for a bad signature, 400 for any other failure.
pub open spec fn decode_answer(outcome: Result<Seq<char>, JwtErrorKind>, r: Reply) -> bool {
    match outcome {
        Ok(json) => r.is_json(200, json),
        Err(JwtErrorKind::InvalidSignature) => r.is_bare(401),
        Err(_) => r.is_bare(400),
    }
}

/// The outcome of decoding a token, with the claims' JSON text taken as
/// characters.
pub open spec fn outcome_view(outcome: Result<String, JwtErrorKind>) -> Result<
    Seq<char>,
    JwtErrorKind,
> {
    match outcome {
        Ok(json) => Ok(json@),
        Err(kind) => Err(kind),
    }
}

/// The answer to the outcome of decoding a token.
pub fn decode_reply(outcome: Result<String, JwtErrorKind>) -> (r: Reply)
    ensures
        decode_answer(outcome_view(outcome), r),
{
    match outcome {
        Ok(json) => Reply { status: 200, body: ReplyBody::Json(json) },
        Err(JwtErrorKind::InvalidSignature) => Reply::bare(401),
        Err(_) => Reply::bare(400),
    }
}

/// Decodes a token signed by the north pole with the RSA public key in
/// `pem`: 500 when the key does not read, 400 when the token's header does
/// not read; otherwise the token is decoded with that key under
/// [`north_pole_checks`] and the answer is that of [`decode_reply`] for the
/// outcome. Which outcome decoding gives depends on the clock.
pub fn decode_endpoint(jwt: &str, pem: &[u8]) -> (r: Reply)
    ensures
        pem_rsa_key(pem@) is None ==> r.is_bare(500),
        pem_rsa_key(pem@) is Some && !jwt_header_reads(jwt@) ==> r.is_bare(400),
        pem_rsa_key(pem@) is Some && jwt_header_reads(jwt@) ==> exists|
            validation: jsonwebtoken::Validation,
            outcome: Result<String, jsonwebtoken::errors::Error>,
        |
            {
                &&& token_checks(validation) == north_pole_checks()
                &&& decode_outcome(jwt, pem_rsa_key(pem@)->0, validation, outcome)
                &&& decode_answer(outcome_by_kind(outcome), r)
            },
{
    let key = match rsa_key_from_pem(pem) {
        Ok(key) => key,
        Err(_) => return Reply::bare(500),
    };
    match read_header(jwt) {
        Ok(_) => {},
        Err(_) => return Reply::bare(400),
    }
    let mut validation = default_validation();
    set_validate_exp(&mut validation, true);
    let algorithms = [JwtAlgorithm::RS256, JwtAlgorithm::RS512];
    set_algorithms(&mut validation, &algorithms);
    let required = [""];
    set_required_claims(&mut validation, &required);
    proof {
        reveal_strlit("");
        assert(required@.map_values(|c: &str| c@) =~= seq![""@]);
        let names = seq![""@];
        assert forall|x: Seq<char>| #[trigger] names.to_set().contains(x) == set![""@].contains(x) by {
            if x == ""@ {
                assert(names[0] == x);
            }
        }
        assert(names.to_set() =~= set![""@]);
        assert(token_checks(validation) == north_pole_checks());
    }
    let decoded = decode_claims(jwt, &key, &validation);
    let ghost seen = decoded;
    let outcome = match decoded {
        Ok(json) => Ok(json),
        Err(e) => Err(error_kind(&e)),
    };
    let r = decode_reply(outcome);
    proof {
        // the witnesses of the last `ensures` clause: this validation and outcome
        assert(key == pem_rsa_key(pem@)->0);
        assert(decode_outcome(jwt, pem_rsa_key(pem@)->0, validation, seen));
        assert(decode_answer(outcome_by_kind(seen), r));
    }
    r
}


/// The answers to decoding: a decoded token gives 200 with its claims as the
/// JSON body, a bad signature 401 with no body, and every other failure 400
/// with no body.
pub proof fn lemma_decode_answers(r: Reply, json: Seq<char>, kind: JwtErrorKind)
    ensures
        decode_answer(Ok(json), r) <==> (r.status == 200 && (r.body matches ReplyBody::Json(t) && t@ == json)),
        decode_answer(Err(JwtErrorKind::InvalidSignature), r) <==> (r.status == 401 && r.body is Empty),
        kind != JwtErrorKind::InvalidSignature ==> (decode_answer(Err(kind), r) <==> (r.status == 400
            && r.body is Empty)),
{
}


/// A decode outcome is read by its kind: claims text is kept as it is, and an
/// error is taken by the kind that `kind_of` gives it.
pub proof fn lemma_outcome_kinds(json: String, e: jsonwebtoken::errors::Error, kind: JwtErrorKind)
    ensures
        outcome_by_kind(Ok(json)) == Ok::<Seq<char>, JwtErrorKind>(json@),
        outcome_by_kind(Err(e)) == Err::<Seq<char>, JwtErrorKind>(kind_of(e)),
        outcome_view(Ok(json)) == Ok::<Seq<char>, JwtErrorKind>(json@),
        outcome_view(Err(kind)) == Err::<Seq<char>, JwtErrorKind>(kind),
{
}

} // verus!
