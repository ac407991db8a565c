//! Admin sessions: the login check, the session cookie, and where a
//! request's token is read from.
use vstd::prelude::*;

use crate::manager::{api_err, ApiError};
use crate::text::{
    chars_of, owned, push_decimal, push_str, split_on, starts_with, str_eq, string_from_range,
    trim_bounds, trim_seq, views,
};

verus! {

/// How long a session lasts, in seconds (seven days).
pub const JWT_TTL_SECS: u64 = 604800;

/// A login request.
#[derive(Debug)]
pub struct LoginInput {
    pub username: String,
    pub password: String,
}

/// The signed-in user, with the session token right after a login.
#[derive(Debug)]
pub struct LoginUser {
    pub username: String,
    pub token: Option<String>,
}

/// A login succeeds only with the administrator's name and password; a
/// refusal is a 401.
pub fn login_check(input: &LoginInput, admin_user: &str, admin_password: &str) -> (r: Result<(), ApiError>)
    ensures
        (input.username@ == admin_user@ && input.password@ == admin_password@) ==> r is Ok,
        !(input.username@ == admin_user@ && input.password@ == admin_password@) ==> (r matches Err(e)
            && api_err(e, 401, "用户名或密码错误"@)),
{
    if !str_eq(input.username.as_str(), admin_user) || !str_eq(input.password.as_str(), admin_password) {
        return Err(ApiError::unauthorized(owned("用户名或密码错误")));
    }
    Ok(())
}

/// The cookie that carries a new session token.
pub fn login_cookie(token: &str) -> (r: String)
    ensures
        r@ == "flb_token="@ + token@ + "; Path=/; HttpOnly; SameSite=Lax; Max-Age="@
            + crate::text::decimal(604800),
{
    let mut c = owned("flb_token=");
    push_str(&mut c, token);
    push_str(&mut c, "; Path=/; HttpOnly; SameSite=Lax; Max-Age=");
    push_decimal(&mut c, 604800);
    c
}

/// The cookie that ends a session.
pub fn logout_cookie() -> (r: String)
    ensures
        r@ == "flb_token=; Path=/; HttpOnly; SameSite=Lax; Max-Age=0"@,
{
    owned("flb_token=; Path=/; HttpOnly; SameSite=Lax; Max-Age=0")
}

/// The token of a `Bearer` authorization header: the trimmed text after
/// `Bearer `, when it is not empty.
pub open spec fn bearer_token(authorization: Seq<char>) -> Option<Seq<char>> {
    if "Bearer "@.is_prefix_of(authorization) && trim_seq(authorization.skip(7)).len() > 0 {
        Some(trim_seq(authorization.skip(7)))
    } else {
        None
    }
}

/// The session token in one `;`-separated cookie piece, if it is the
/// session cookie with a non-blank value.
pub open spec fn cookie_piece_token(piece: Seq<char>) -> Option<Seq<char>> {
    let p = trim_seq(piece);
    if "flb_token="@.is_prefix_of(p) && trim_seq(p.skip(10)).len() > 0 {
        Some(trim_seq(p.skip(10)))
    } else {
        None
    }
}

/// The first session token among cookie pieces.
pub open spec fn first_cookie_token(pieces: Seq<Seq<char>>) -> Option<Seq<char>>
    decreases pieces.len(),
{
    if pieces.len() == 0 {
        None
    } else {
        match cookie_piece_token(pieces[0]) {
            Some(t) => Some(t),
            None => first_cookie_token(pieces.skip(1)),
        }
    }
}

/// Where a request's session token comes from: a bearer token first, else
/// the session cookie.
pub open spec fn request_token(authorization: Option<Seq<char>>, cookie: Option<Seq<char>>) -> Option<Seq<char>> {
    match authorization {
        Some(a) if bearer_token(a) is Some => bearer_token(a),
        _ => match cookie {
            Some(c) => first_cookie_token(crate::text::split_seq(c, |ch: char| ch == ';')),
            None => None,
        },
    }
}

fn piece_token(piece: &String) -> (r: Option<String>)
    ensures
        match r {
            Some(t) => cookie_piece_token(piece@) == Some(t@),
            None => cookie_piece_token(piece@) is None,
        },
{
    let pc = chars_of(piece.as_str());
    let (lo, hi) = trim_bounds(&pc);
    let p = crate::text::slice_chars(&pc, lo, hi);
    let prefix = chars_of("flb_token=");
    proof {
        reveal_strlit("flb_token=");
    }
    if !starts_with(&p, &prefix) {
        return None;
    }
    let v = crate::text::slice_chars(&p, 10, p.len());
    assert(v@ == p@.skip(10));
    let (a, b) = trim_bounds(&v);
    if a < b {
        Some(string_from_range(&v, a, b))
    } else {
        None
    }
}

/// See [`request_token`]: the `Authorization` and `Cookie` header values.
pub fn bearer_or_cookie(authorization: Option<&str>, cookie: Option<&str>) -> (r: Option<String>)
    ensures
        match r {
            Some(t) => request_token(
                match authorization {
                    Some(a) => Some(a@),
                    None => None,
                },
                match cookie {
                    Some(c) => Some(c@),
                    None => None,
                },
            ) == Some(t@),
            None => request_token(
                match authorization {
                    Some(a) => Some(a@),
                    None => None,
                },
                match cookie {
                    Some(c) => Some(c@),
                    None => None,
                },
            ) is None,
        },
{
    proof {
        reveal_strlit("Bearer ");
    }
    if let Some(a) = authorization {
        let ac = chars_of(a);
        if starts_with(&ac, &chars_of("Bearer ")) {
            let rest = crate::text::slice_chars(&ac, 7, ac.len());
            assert(rest@ == a@.skip(7));
            let (lo, hi) = trim_bounds(&rest);
            if lo < hi {
                return Some(string_from_range(&rest, lo, hi));
            }
        }
    }
    let c = match cookie {
        Some(c) => c,
        None => {
            return None;
        },
    };
    let pieces = split_on(&chars_of(c), ';');
    let ghost ps = views(pieces@);
    let ghost want = request_token(
        match authorization {
            Some(a) => Some(a@),
            None => None,
        },
        match cookie {
            Some(c) => Some(c@),
            None => None,
        },
    );
    assert(want == first_cookie_token(ps));
    let mut i: usize = 0;
    assert(ps.skip(0) =~= ps);
    while i < pieces.len()
        invariant
            i <= pieces@.len(),
            ps == views(pieces@),
            want == first_cookie_token(ps.skip(i as int)),
            want == request_token(
                match authorization {
                    Some(a) => Some(a@),
                    None => None,
                },
                match cookie {
                    Some(c) => Some(c@),
                    None => None,
                },
            ),
        decreases pieces.len() - i,
    {
        assert(ps.skip(i as int)[0] == pieces@[i as int]@);
        assert(ps.skip(i as int).skip(1) =~= ps.skip(i + 1));
        if let Some(t) = piece_token(&pieces[i]) {
            return Some(t);
        }
        i = i + 1;
    }
    None
}

/// A request passes when it carries a token and the token was accepted;
/// otherwise it is refused as not signed in (401).
pub fn session_check(token_accepted: bool) -> (r: Result<(), ApiError>)
    ensures
        token_accepted ==> r is Ok,
        !token_accepted ==> (r matches Err(e) && api_err(e, 401, "未登录"@)),
{
    if token_accepted {
        Ok(())
    } else {
        Err(ApiError::unauthorized(owned("未登录")))
    }
}


/// The external type of `jsonwebtoken`'s errors.
#[verifier::external_type_specification]
#[verifier::external_body]
pub struct ExJwtError(jsonwebtoken::errors::Error);

/// The token `jsonwebtoken::encode` makes from the default header
/// (HS256), the claims `sub`, `iat` and `exp`, and the HMAC key `secret`.
pub uninterp spec fn jwt_of(secret: Seq<char>, sub: Seq<char>, iat: u64, exp: u64) -> Seq<char>;

/// The claims `jsonwebtoken::decode` reads from `token` when the token's
/// HS256 signature holds under the HMAC key made from `secret` (signature
/// and claims only: no clock is involved): the `sub` claim as text and the
/// `iat` and `exp` claims as unsigned integers, each `None` when absent or
/// of another kind; `None` when the signature does not hold or the claims
/// are not a JSON object.
pub uninterp spec fn jwt_claims_of(secret: Seq<char>, token: Seq<char>) -> Option<(Option<Seq<char>>, Option<u64>, Option<u64>)>;

/// The subject of a token whose signature holds under `secret`.
pub open spec fn jwt_subject_of(secret: Seq<char>, token: Seq<char>) -> Option<Seq<char>> {
    match jwt_claims_of(secret, token) {
        Some((Some(s), _, _)) => Some(s),
        _ => None,
    }
}

/// An optional text as an optional sequence.
pub open spec fn opt_view(o: Option<String>) -> Option<Seq<char>> {
    match o {
        Some(s) => Some(s@),
        None => None,
    }
}

/// `jsonwebtoken::encode` with the default header, the claims
/// `{sub, iat, exp}` and an HMAC key made from `secret`. Claimed: it
/// succeeds (the key and the algorithm are both HMAC, serializing these
/// claims cannot fail, and HS256 signing always succeeds), the token is
/// [`jwt_of`] of the arguments (a function of them alone), and decoding it
/// with the same secret reads back the three claims.
#[verifier::external_body]
fn jwt_encode(secret: &str, sub: &str, iat: u64, exp: u64) -> (r: Result<String, jsonwebtoken::errors::Error>)
    ensures
        r is Ok,
        r matches Ok(t) ==> t@ == jwt_of(secret@, sub@, iat, exp),
        r matches Ok(t) ==> jwt_claims_of(secret@, t@) == Some((Some(sub@), Some(iat), Some(exp))),
{
    let claims: serde_json::Map<String, serde_json::Value> = [
        ("sub".to_string(), serde_json::Value::from(sub)),
        ("iat".to_string(), serde_json::Value::from(iat)),
        ("exp".to_string(), serde_json::Value::from(exp)),
    ].into_iter().collect();
    let key = jsonwebtoken::EncodingKey::from_secret(secret.as_bytes());
    jsonwebtoken::encode(&jsonwebtoken::Header::default(), &claims, &key)
}

/// The `Display` text of a `jsonwebtoken` error. Nothing is stated of it.
#[verifier::external_body]
fn jwt_error_text(e: &jsonwebtoken::errors::Error) -> (r: String) {
    e.to_string()
}

/// `jsonwebtoken::decode` of `token` with an HMAC key made from `secret`
/// and a validation that requires the `exp` and `sub` claims, wants `sub`
/// to be `username` and checks expiry against the clock; for an accepted
/// token, its `sub` (as text), `iat` and `exp` (as unsigned integers)
/// claims. Claimed: an accepted token's signature holds under `secret`,
/// the claims given are those [`jwt_claims_of`] names, and its subject is
/// `username`. That it is accepted is not claimed: that depends on the
/// time of the call as well.
#[verifier::external_body]
fn jwt_decode(secret: &str, token: &str, username: &str) -> (r: Option<(Option<String>, Option<u64>, Option<u64>)>)
    ensures
        r matches Some((s, i, e)) ==> jwt_claims_of(secret@, token@) == Some((opt_view(s), i, e)),
        r matches Some((s, _, _)) ==> opt_view(s) == Some(username@),
{
    let mut validation = jsonwebtoken::Validation::default();
    validation.set_required_spec_claims(&["exp", "sub"]);
    validation.sub = Some(username.to_string());
    let key = jsonwebtoken::DecodingKey::from_secret(secret.as_bytes());
    jsonwebtoken::decode::<serde_json::Value>(token, &key, &validation).ok().map(|d| (
        d.claims.get("sub").and_then(|v| v.as_str()).map(|v| v.to_string()),
        d.claims.get("iat").and_then(|v| v.as_u64()),
        d.claims.get("exp").and_then(|v| v.as_u64()),
    ))
}

/// When a session issued at `now` (Unix seconds) ends: a week later,
/// saturating at the largest time.
pub open spec fn session_end(now: u64) -> u64 {
    if now + JWT_TTL_SECS > u64::MAX {
        u64::MAX
    } else {
        (now + JWT_TTL_SECS) as u64
    }
}

/// A session token for `username` issued at `now`: the token of the claims
/// `sub = username`, `iat = now`, `exp = `[`session_end`]`(now)`, whose
/// subject reads back as `username` under `secret`.
pub fn sign_jwt_at(secret: &str, username: &str, now: u64) -> (r: Result<String, ApiError>)
    ensures
        r matches Ok(t) && t@ == jwt_of(secret@, username@, now, session_end(now)) && jwt_subject_of(
            secret@,
            t@,
        ) == Some(username@),
{
    match jwt_encode(secret, username, now, now.saturating_add(JWT_TTL_SECS)) {
        Ok(t) => Ok(t),
        Err(e) => Err(ApiError::internal(jwt_error_text(&e))),
    }
}

/// The claims of an accepted session token.
#[derive(Debug)]
pub struct Claims {
    pub sub: String,
    pub iat: u64,
    pub exp: u64,
}

/// The claims of a session token accepted for `username`: its signature
/// holds under `secret`, its subject is `username`, and it carries the
/// `iat` and `exp` claims as unsigned integers. A token that is not
/// accepted is refused as not signed in (401), so a token made for another
/// user is always refused.
pub fn verify_jwt(secret: &str, token: &str, username: &str) -> (r: Result<Claims, ApiError>)
    ensures
        match r {
            Ok(c) => c.sub@ == username@ && jwt_claims_of(secret@, token@) == Some(
                (Some(c.sub@), Some(c.iat), Some(c.exp)),
            ),
            Err(e) => api_err(e, 401, "未登录"@),
        },
{
    match jwt_decode(secret, token, username) {
        Some((Some(sub), Some(iat), Some(exp))) => Ok(Claims { sub, iat, exp }),
        _ => Err(ApiError::unauthorized(owned("未登录"))),
    }
}

/// A session token for `username` issued now; see [`sign_jwt_at`].
pub fn sign_jwt(secret: &str, username: &str) -> (r: Result<String, ApiError>)
    ensures
        r matches Ok(t) && (exists|now: u64| t@ == jwt_of(secret@, username@, now, session_end(now)))
            && jwt_subject_of(secret@, t@) == Some(username@),
{
    let (secs, _) = crate::cert::now_instant();
    let now: u64 = if secs < 0 {
        0
    } else {
        secs as u64
    };
    sign_jwt_at(secret, username, now)
}

/// A login: with the administrator's name and password it gives the
/// signed-in user with a new session token for the administrator, and the
/// cookie that carries the token; other credentials are refused with 401.
pub fn login(input: &LoginInput, admin_user: &str, admin_password: &str, jwt_secret: &str) -> (r: Result<(LoginUser, String), ApiError>)
    ensures
        !(input.username@ == admin_user@ && input.password@ == admin_password@) ==> (r matches Err(e)
            && api_err(e, 401, "用户名或密码错误"@)),
        (input.username@ == admin_user@ && input.password@ == admin_password@) ==> match r {
            Ok((u, cookie)) => {
                &&& u.username@ == admin_user@
                &&& u.token matches Some(t)
                &&& exists|now: u64| t@ == jwt_of(jwt_secret@, admin_user@, now, session_end(now))
                &&& jwt_subject_of(jwt_secret@, t@) == Some(admin_user@)
                &&& cookie@ == "flb_token="@ + t@ + "; Path=/; HttpOnly; SameSite=Lax; Max-Age="@
                    + crate::text::decimal(604800)
            },
            Err(_) => false,
        },
{
    login_check(input, admin_user, admin_password)?;
    let token = sign_jwt(jwt_secret, admin_user)?;
    let cookie = login_cookie(token.as_str());
    Ok((LoginUser { username: owned(admin_user), token: Some(token) }, cookie))
}

/// Whether a request may use the protected API: it must carry a session
/// token (see [`request_token`]) that is accepted for the administrator
/// (its signature holds under `jwt_secret` and its subject is
/// `admin_user`); otherwise it is refused as not signed in (401).
pub fn authorize(authorization: Option<&str>, cookie: Option<&str>, jwt_secret: &str, admin_user: &str) -> (r: Result<(), ApiError>)
    ensures
        r matches Err(e) ==> api_err(e, 401, "未登录"@),
        r is Ok ==> (request_token(
            match authorization {
                Some(a) => Some(a@),
                None => None,
            },
            match cookie {
                Some(c) => Some(c@),
                None => None,
            },
        ) matches Some(t) && jwt_subject_of(jwt_secret@, t) == Some(admin_user@)),
        request_token(
            match authorization {
                Some(a) => Some(a@),
                None => None,
            },
            match cookie {
                Some(c) => Some(c@),
                None => None,
            },
        ) is None ==> r is Err,
{
    match bearer_or_cookie(authorization, cookie) {
        Some(token) => match verify_jwt(jwt_secret, token.as_str(), admin_user) {
            Ok(_) => Ok(()),
            Err(e) => Err(e),
        },
        None => session_check(false),
    }
}


/// The session key used when none is configured: the hex SHA-256 of
/// `flb:<user>:<password>`, so it follows the administrator's credentials.
pub fn derived_jwt_secret(user: &str, password: &str) -> (r: String)
    ensures
        r@ == crate::dns::hex_spec(crate::sign::sha256_of(vstd::utf8::encode_utf8("flb:"@ + user@ + ":"@ + password@))),
{
    let mut text = owned("flb:");
    push_str(&mut text, user);
    push_str(&mut text, ":");
    push_str(&mut text, password);
    proof {
        reveal_strlit("flb:");
        reveal_strlit(":");
    }
    crate::dns::hex_encode(crate::sign::sha256(text.as_str().as_bytes()).as_slice())
}
} // verus!
