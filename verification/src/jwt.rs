//! Signed tokens: claims that a secret vouches for.
use jsonwebtoken::{DecodingKey, EncodingKey, Header, Validation};
use serde_json::{Map as JsonMap, Value};
use vstd::prelude::*;

use crate::http;
use crate::http::{FieldView, Headers};
use crate::text;

verus! {

/// The value of a claim, as far as this library reads it.
#[derive(Debug)]
pub enum JwtValue {
    Text(String),
    Number(i64),
    Other,
}

pub enum JwtView {
    Text(Seq<char>),
    Number(i64),
    Other,
}

impl View for JwtValue {
    type V = JwtView;

    open spec fn view(&self) -> JwtView {
        match self {
            JwtValue::Text(s) => JwtView::Text(s@),
            JwtValue::Number(n) => JwtView::Number(*n),
            JwtValue::Other => JwtView::Other,
        }
    }
}

pub open spec fn fields(claims: Seq<(String, JwtValue)>) -> Seq<(Seq<char>, JwtView)> {
    claims.map_values(|f: (String, JwtValue)| (f.0@, f.1@))
}

/// The token that `jsonwebtoken` signs with HS256 for some claims.
pub uninterp spec fn jwt_token(claims: Seq<(Seq<char>, JwtView)>, secret: Seq<char>) -> Seq<char>;

/// The claims that `jsonwebtoken` reads out of a token: those of a token that
/// the secret has signed with HS256, that has a numeric `exp` and no `aud`.
pub uninterp spec fn jwt_claims(token: Seq<char>, secret: Seq<char>) -> Option<
    Seq<(Seq<char>, JwtView)>,
>;

/// Claims that a token gives back as they are: no name twice, an `exp` that is
/// a number and not negative, no `aud`.
pub open spec fn reads_back(claims: Seq<(Seq<char>, JwtView)>) -> bool {
    &&& forall|i: int, j: int|
        0 <= i < j < claims.len() ==> (#[trigger] claims[i]).0 != (#[trigger] claims[j]).0
    &&& exists|i: int|
        0 <= i < claims.len() && (#[trigger] claims[i]).0 == "exp"@
            && claims[i].1 is Number && claims[i].1->Number_0 >= 0
    &&& forall|i: int|
        0 <= i < claims.len() ==> (#[trigger] claims[i]).0 != "aud"@ && !(claims[i].1 is Other)
}

/// A token as it is sent: letters, digits, hyphens, underscores and dots.
pub open spec fn is_compact(token: Seq<char>) -> bool {
    &&& token.len() > 0
    &&& forall|i: int|
        0 <= i < token.len() ==> {
            let c = #[trigger] token[i];
            text::is_digit(c) || text::is_lower(c) || text::is_upper(c) || c == '-' || c == '_' || c
                == '.'
        }
}

/// `jsonwebtoken::encode` with the default header. Signing with a shared secret
/// does not fail. The token is made of three parts in the URL-safe base 64
/// alphabet, without padding, and dots between them, and it gives back the
/// claims that went into it.
#[verifier::external_body]
pub(crate) fn sign(claims: &Vec<(String, JwtValue)>, secret: &str) -> (token: Option<String>)
    ensures
        token is Some,
        token->0@ == jwt_token(fields(claims@), secret@),
        is_compact(token->0@),
        reads_back(fields(claims@)) ==> jwt_claims(token->0@, secret@) == Some(fields(claims@)),
{
    let mut map: JsonMap<String, Value> = JsonMap::new();
    for (name, value) in claims.iter() {
        map.insert(name.clone(), match value {
            JwtValue::Text(s) => Value::from(s.clone()),
            JwtValue::Number(n) => Value::from(*n),
            JwtValue::Other => Value::Null,
        });
    }
    jsonwebtoken::encode(&Header::default(), &map, &EncodingKey::from_secret(secret.as_bytes())).ok()
}

/// `jsonwebtoken::decode` with the default validation, but for the comparison
/// of `exp` with the clock, which is left to the caller: the claims of a token
/// that the secret has signed. They are read into a JSON map, so a name that
/// the token repeats counts with its last value; `exp` and `sub` cannot be
/// repeated.
#[verifier::external_body]
pub(crate) fn read_token(token: &str, secret: &str) -> (claims: Option<Vec<(String, JwtValue)>>)
    ensures
        match claims {
            Some(c) => jwt_claims(token@, secret@) == Some(fields(c@)),
            None => jwt_claims(token@, secret@) is None,
        },
{
    let mut validation = Validation::default();
    validation.validate_exp = false;
    let key = DecodingKey::from_secret(secret.as_bytes());
    let data = jsonwebtoken::decode::<JsonMap<String, Value>>(token, &key, &validation).ok()?;
    Some(data.claims.into_iter().map(|(name, value)| (name, match value {
        Value::String(s) => JwtValue::Text(s),
        Value::Number(n) => n.as_i64().map_or(JwtValue::Other, JwtValue::Number),
        Value::Null => JwtValue::Other,
        Value::Bool(_) => JwtValue::Other,
        Value::Array(_) => JwtValue::Other,
        Value::Object(_) => JwtValue::Other,
    })).collect())
}

// ---- reading claims -------------------------------------------------------

/// A claim by its name.
pub open spec fn claim(claims: Seq<(Seq<char>, JwtView)>, name: Seq<char>) -> Option<JwtView>
    decreases claims.len(),
{
    if claims.len() == 0 {
        None
    } else if claims[0].0 == name {
        Some(claims[0].1)
    } else {
        claim(claims.drop_first(), name)
    }
}

/// A claim that is a text.
pub open spec fn text_claim(claims: Seq<(Seq<char>, JwtView)>, name: Seq<char>) -> Option<
    Seq<char>,
> {
    match claim(claims, name) {
        Some(JwtView::Text(s)) => Some(s),
        _ => None,
    }
}

/// A claim that is an integer.
pub open spec fn number_claim(claims: Seq<(Seq<char>, JwtView)>, name: Seq<char>) -> Option<i64> {
    match claim(claims, name) {
        Some(JwtView::Number(n)) => Some(n),
        _ => None,
    }
}

fn claim_index(claims: &Vec<(String, JwtValue)>, name: &str) -> (n: usize)
    ensures
        n <= claims.len(),
        claim(fields(claims@), name@) == (if n < claims.len() {
            Some(claims@[n as int].1@)
        } else {
            None
        }),
{
    let ghost fs = fields(claims@);
    assert(fs.skip(0) == fs);
    for i in 0..claims.len()
        invariant
            fs == fields(claims@),
            claim(fs, name@) == claim(fs.skip(i as int), name@),
    {
        assert(fs.skip(i as int)[0] == (claims@[i as int].0@, claims@[i as int].1@));
        assert(fs.skip(i as int).drop_first() == fs.skip(i + 1));
        if text::same(claims[i].0.as_str(), name) {
            return i;
        }
    }
    assert(fs.skip(claims.len() as int) == Seq::<(Seq<char>, JwtView)>::empty());
    claims.len()
}

/// A claim that is a text.
pub fn get_text(claims: &Vec<(String, JwtValue)>, name: &str) -> (out: Option<String>)
    ensures
        text::opt(out) == text_claim(fields(claims@), name@),
{
    let n = claim_index(claims, name);
    if n < claims.len() {
        match &claims[n].1 {
            JwtValue::Text(s) => Some(s.clone()),
            _ => None,
        }
    } else {
        None
    }
}

/// A claim that is an integer.
pub fn get_number(claims: &Vec<(String, JwtValue)>, name: &str) -> (out: Option<i64>)
    ensures
        out == number_claim(fields(claims@), name@),
{
    let n = claim_index(claims, name);
    if n < claims.len() {
        match &claims[n].1 {
            JwtValue::Number(v) => Some(*v),
            _ => None,
        }
    } else {
        None
    }
}

// ---- tokens ---------------------------------------------------------------

/// How long a token is taken past its `exp`, in seconds.
pub const LEEWAY_SECS: i64 = 60;

/// Claims that have not expired at the given time.
pub open spec fn is_live(claims: Seq<(Seq<char>, JwtView)>, now: i64) -> bool {
    match number_claim(claims, "exp"@) {
        Some(exp) => exp >= now - LEEWAY_SECS,
        None => false,
    }
}

/// The claims of a token that the secret has signed and that has not expired.
pub open spec fn live_claims(token: Seq<char>, secret: Seq<char>, now: i64) -> Option<
    Seq<(Seq<char>, JwtView)>,
> {
    match jwt_claims(token, secret) {
        Some(c) => if is_live(c, now) {
            Some(c)
        } else {
            None
        },
        None => None,
    }
}

/// Signs claims with a secret.
pub fn encode_jwt(claims: &Vec<(String, JwtValue)>, secret: &str) -> (token: Option<String>)
    ensures
        token is Some,
        token->0@ == jwt_token(fields(claims@), secret@),
        is_compact(token->0@),
        reads_back(fields(claims@)) ==> jwt_claims(token->0@, secret@) == Some(fields(claims@)),
{
    sign(claims, secret)
}

/// The claims of a token that the secret has signed and that has not expired at
/// the given time.
pub fn decode_jwt(token: &str, secret: &str, now: i64) -> (out: Option<Vec<(String, JwtValue)>>)
    ensures
        match out {
            Some(c) => live_claims(token@, secret@, now) == Some(fields(c@)),
            None => live_claims(token@, secret@, now) is None,
        },
{
    match read_token(token, secret) {
        Some(claims) => match get_number(&claims, "exp") {
            Some(exp) => if exp as i128 >= now as i128 - LEEWAY_SECS as i128 {
                Some(claims)
            } else {
                None
            },
            None => None,
        },
        None => None,
    }
}

/// The token that the `Authorization` field of a request carries.
pub open spec fn bearer(request: Seq<FieldView>) -> Option<Seq<char>> {
    match http::field_text(request, "authorization"@) {
        Some(v) => text::stripped(v, "Bearer "@),
        None => None,
    }
}

/// The token that a request carries; the status 401 where it carries none.
pub fn extract_bearer_token(headers: &Headers) -> (out: Result<String, u16>)
    ensures
        match out {
            Ok(t) => bearer(headers@) == Some(t@),
            Err(status) => bearer(headers@) is None && status == 401,
        },
{
    match headers.text("authorization") {
        Some(v) => match text::strip_prefix(v.as_str(), "Bearer ") {
            Some(t) => Ok(t),
            None => Err(401),
        },
        None => Err(401),
    }
}

/// A claim is found by its name, the first one where it is there twice.
pub proof fn law_first_claim_counts(
    before: Seq<(Seq<char>, JwtView)>,
    name: Seq<char>,
    value: JwtView,
    behind: Seq<(Seq<char>, JwtView)>,
)
    requires
        forall|i: int| 0 <= i < before.len() ==> (#[trigger] before[i]).0 != name,
    ensures
        claim(before, name) is None,
        claim(before.push((name, value)) + behind, name) == Some(value),
        text_claim(before.push((name, value)) + behind, name) == (match value {
            JwtView::Text(s) => Some(s),
            _ => None,
        }),
        number_claim(before.push((name, value)) + behind, name) == (match value {
            JwtView::Number(n) => Some(n),
            _ => None,
        }),
    decreases before.len(),
{
    let all = before.push((name, value)) + behind;
    if before.len() > 0 {
        let rest = before.drop_first();
        assert(before[0].0 != name);
        assert forall|i: int| 0 <= i < rest.len() implies (#[trigger] rest[i]).0 != name by {
            assert(rest[i] == before[i + 1]);
        }
        law_first_claim_counts(rest, name, value, behind);
        assert(all[0] == before[0]);
        assert(all.drop_first() =~= rest.push((name, value)) + behind);
    } else {
        assert(all[0] == (name, value));
    }
}

/// A token is taken until sixty seconds after its `exp`, by who has its secret, and
/// only where it has an `exp`.
pub proof fn law_tokens_expire(token: Seq<char>, secret: Seq<char>, now: i64)
    ensures
        match live_claims(token, secret, now) {
            Some(c) => jwt_claims(token, secret) == Some(c) && number_claim(c, "exp"@) is Some
                && number_claim(c, "exp"@)->0 + 60 >= now,
            None => match jwt_claims(token, secret) {
                Some(c) => match number_claim(c, "exp"@) {
                    Some(exp) => exp + 60 < now,
                    None => true,
                },
                None => true,
            },
        },
{
}

/// A request carries its token in the `Authorization` field, behind the word
/// Bearer and one blank.
pub proof fn law_bearer_token(request: Seq<FieldView>, token: Seq<char>)
    ensures
        bearer(request) == Some(token) <==> http::field_text(request, "authorization"@) == Some(
            "Bearer "@ + token,
        ),
        http::field_text(request, "authorization"@) is None ==> bearer(request) is None,
{
    if let Some(v) = http::field_text(request, "authorization"@) {
        text::law_stripping_takes_the_prefix(v, "Bearer "@, token);
        if let Some(r) = text::stripped(v, "Bearer "@) {
            text::law_stripping_takes_the_prefix("Bearer "@ + token, "Bearer "@, token);
        }
    }
}

} // verus!
