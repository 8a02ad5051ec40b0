//! The signed session cookie.
//!
//! A cookie is `id:name:expiry:signature`: a Discord id, a percent-encoded
//! display name, a Unix second, and in hexadecimal the HMAC-SHA-256 of the
//! first three fields under the session secret.
use vstd::prelude::*;
use vstd::string::StringExecFns;
use vstd::utf8::encode_utf8;
use crate::bytes::constant_time_eq;
use crate::clock::{clock_second, clock_showed, utc_now, Timestamp};
use crate::digest::{hmac_of, hmac_sha256};
use crate::numeral::{
    decimal, decimal_i64, decimal_int, decimal_reads_back, hex_encode, hex_text, is_digit,
    lemma_decimal, parse_i64, parsed_i64,
};
use crate::text::{cut, cut_str, lemma_cut_at};
use crate::url::{encoding_decodes_back, url_decode, url_decoded, url_encode, url_encoded};

verus! {

/// The four fields of a cookie. The last one takes all that is left.
pub open spec fn cookie_fields(cookie: Seq<char>) -> Option<
    (Seq<char>, Seq<char>, Seq<char>, Seq<char>),
> {
    match cut(cookie, ':') {
        None => None,
        Some((id, rest)) => match cut(rest, ':') {
            None => None,
            Some((name, rest2)) => match cut(rest2, ':') {
                None => None,
                Some((expires, sig)) => Some((id, name, expires, sig)),
            },
        },
    }
}

/// The signed part of a cookie.
pub open spec fn signed_part(id: Seq<char>, name: Seq<char>, expires: Seq<char>) -> Seq<char> {
    id + ":"@ + name + ":"@ + expires
}

/// The signature of a text under a secret.
pub open spec fn signature(secret: Seq<char>, text: Seq<char>) -> Seq<char> {
    hex_text(hmac_of(encode_utf8(secret), encode_utf8(text)))
}

/// Who a cookie speaks of at the given Unix second: the id and the display
/// name. It speaks of nobody when a field is missing, the expiry is no number
/// or has passed, the signature is not that of the other fields, or the name is
/// not the encoding of a text.
pub open spec fn session_at(cookie: Seq<char>, secret: Seq<char>, now: i64) -> Option<
    (Seq<char>, Seq<char>),
> {
    match cookie_fields(cookie) {
        None => None,
        Some((id, name, expires, sig)) => {
            if parsed_i64(expires) is Some && now <= parsed_i64(expires)->0 && sig == signature(
                secret,
                signed_part(id, name, expires),
            ) && url_decoded(name) is Some {
                Some((id, url_decoded(name)->0))
            } else {
                None
            }
        },
    }
}

/// The cookie of an id and a display name that is valid through the given Unix
/// second.
pub open spec fn minted(id: Seq<char>, name: Seq<char>, expires: i64, secret: Seq<char>) -> Seq<
    char,
> {
    let payload = signed_part(id, url_encoded(name), decimal_int(expires as int));
    payload + ":"@ + signature(secret, payload)
}

/// The view of an id and a display name.
pub open spec fn person(r: Option<(String, String)>) -> Option<(Seq<char>, Seq<char>)> {
    match r {
        Some((id, name)) => Some((id@, name@)),
        None => None,
    }
}

fn payload_of(id: &str, name: &str, expires: &str) -> (r: String)
    ensures
        r@ == signed_part(id@, name@, expires@),
{
    let mut out = id.to_owned();
    out.append(":");
    out.append(name);
    out.append(":");
    out.append(expires);
    out
}

fn sign(secret: &str, text: &str) -> (r: String)
    ensures
        r@ == signature(secret@, text@),
{
    hex_encode(hmac_sha256(secret.as_bytes(), text.as_bytes()).as_slice())
}

/// Makes the cookie of an id and a display name.
pub fn mint_session(discord_id: &str, display_name: &str, expires_unix: i64, secret: &str) -> (r:
    String)
    ensures
        r@ == minted(discord_id@, display_name@, expires_unix, secret@),
{
    let encoded = url_encode(display_name);
    let expires = decimal_i64(expires_unix);
    let mut out = payload_of(discord_id, encoded.as_str(), expires.as_str());
    let sig = sign(secret, out.as_str());
    out.append(":");
    out.append(sig.as_str());
    out
}

/// Who a cookie speaks of at the given Unix second.
pub fn verify_session_at(cookie_value: &str, secret: &str, now_unix: i64) -> (r: Option<
    (String, String),
>)
    ensures
        person(r) == session_at(cookie_value@, secret@, now_unix),
{
    let (discord_id, rest) = match cut_str(cookie_value, ':') {
        Some(p) => p,
        None => return None,
    };
    let (encoded_name, rest) = match cut_str(rest, ':') {
        Some(p) => p,
        None => return None,
    };
    let (expires_str, sig) = match cut_str(rest, ':') {
        Some(p) => p,
        None => return None,
    };
    let expires: i64 = match parse_i64(expires_str) {
        Some(n) => n,
        None => return None,
    };
    if now_unix > expires {
        return None;
    }
    let payload = payload_of(discord_id, encoded_name, expires_str);
    let expected = sign(secret, payload.as_str());
    proof {
        vstd::utf8::encode_utf8_decode_utf8(sig@);
        vstd::utf8::encode_utf8_decode_utf8(expected@);
    }
    if !constant_time_eq(sig.as_bytes(), expected.as_str().as_bytes()) {
        return None;
    }
    match url_decode(encoded_name) {
        Some(name) => Some((discord_id.to_owned(), name)),
        None => None,
    }
}

/// Who a cookie speaks of now.
pub fn verify_session(cookie_value: &str, secret: &str) -> (r: Option<(String, String)>)
    ensures
        exists|now: Timestamp| #[trigger]
            clock_showed(now) && clock_second(now.secs) && person(r) == session_at(
                cookie_value@,
                secret@,
                now.secs,
            ),
{
    let now = utc_now();
    assert(clock_showed(now));
    verify_session_at(cookie_value, secret, now.secs)
}

proof fn lemma_numeral_has_no_colon(n: int)
    ensures
        !decimal_int(n).contains(':'),
{
    let m: nat = if n < 0 {
        (-n) as nat
    } else {
        n as nat
    };
    lemma_decimal(m);
    assert forall|i: int| 0 <= i < decimal_int(n).len() implies decimal_int(n)[i] != ':' by {
        if n < 0 && i > 0 {
            assert(decimal_int(n)[i] == decimal(m)[i - 1]);
            assert(is_digit(decimal(m)[i - 1]));
        } else if n >= 0 {
            assert(is_digit(decimal(m)[i]));
        }
    }
}

/// A minted cookie has the fields that it was made of.
proof fn lemma_minted_fields(id: Seq<char>, name: Seq<char>, expires: i64, secret: Seq<char>)
    requires
        !id.contains(':'),
    ensures
        cookie_fields(minted(id, name, expires, secret)) == Some(
            (
                id,
                url_encoded(name),
                decimal_int(expires as int),
                signature(
                    secret,
                    signed_part(id, url_encoded(name), decimal_int(expires as int)),
                ),
            ),
        ),
{
    let encoded = url_encoded(name);
    let numeral = decimal_int(expires as int);
    let sig = signature(secret, signed_part(id, encoded, numeral));
    encoding_decodes_back(name);
    lemma_numeral_has_no_colon(expires as int);
    reveal_strlit(":");
    assert(":"@ =~= seq![':']);
    let rest2 = numeral + seq![':'] + sig;
    let rest = encoded + seq![':'] + rest2;
    assert(minted(id, name, expires, secret) =~= id + seq![':'] + rest);
    lemma_cut_at(id, ':', rest);
    lemma_cut_at(encoded, ':', rest2);
    lemma_cut_at(numeral, ':', sig);
}

/// A minted cookie speaks, until it expires, of the person it was minted for.
/// An id with a colon in it would be cut there.
pub proof fn minted_session_verifies(
    id: Seq<char>,
    name: Seq<char>,
    expires: i64,
    secret: Seq<char>,
    now: i64,
)
    requires
        !id.contains(':'),
        now <= expires,
    ensures
        session_at(minted(id, name, expires, secret), secret, now) == Some((id, name)),
{
    lemma_minted_fields(id, name, expires, secret);
    encoding_decodes_back(name);
    decimal_reads_back(expires);
}

/// A cookie that has expired speaks of nobody.
pub proof fn expired_session_is_refused(
    id: Seq<char>,
    name: Seq<char>,
    expires: i64,
    secret: Seq<char>,
    now: i64,
)
    requires
        !id.contains(':'),
        now > expires,
    ensures
        session_at(minted(id, name, expires, secret), secret, now) is None,
{
    lemma_minted_fields(id, name, expires, secret);
    decimal_reads_back(expires);
}

/// A cookie that was minted with another secret speaks of nobody, as long as the
/// two secrets sign it differently.
pub proof fn foreign_session_is_refused(
    id: Seq<char>,
    name: Seq<char>,
    expires: i64,
    secret: Seq<char>,
    other: Seq<char>,
    now: i64,
)
    requires
        !id.contains(':'),
        ({
            let payload = signed_part(id, url_encoded(name), decimal_int(expires as int));
            signature(secret, payload) != signature(other, payload)
        }),
    ensures
        session_at(minted(id, name, expires, secret), other, now) is None,
{
    lemma_minted_fields(id, name, expires, secret);
}

/// A cookie with the signature of other fields speaks of nobody, as long as the
/// two are signed differently.
pub proof fn swapped_fields_are_refused(
    id: Seq<char>,
    name: Seq<char>,
    expires: Seq<char>,
    original: Seq<char>,
    secret: Seq<char>,
    now: i64,
)
    requires
        !id.contains(':'),
        !name.contains(':'),
        !expires.contains(':'),
        signature(secret, original) != signature(secret, signed_part(id, name, expires)),
    ensures
        session_at(
            signed_part(id, name, expires) + ":"@ + signature(secret, original),
            secret,
            now,
        ) is None,
{
    let sig = signature(secret, original);
    reveal_strlit(":");
    assert(":"@ =~= seq![':']);
    let rest2 = expires + seq![':'] + sig;
    let rest = name + seq![':'] + rest2;
    assert(signed_part(id, name, expires) + ":"@ + sig =~= id + seq![':'] + rest);
    lemma_cut_at(id, ':', rest);
    lemma_cut_at(name, ':', rest2);
    lemma_cut_at(expires, ':', sig);
}

/// A cookie whose fields were altered speaks of nobody: any signature but the one
/// that the other fields have under the secret is refused.
pub proof fn altered_session_is_refused(
    cookie: Seq<char>,
    id: Seq<char>,
    name: Seq<char>,
    expires: Seq<char>,
    sig: Seq<char>,
    secret: Seq<char>,
    now: i64,
)
    requires
        cookie_fields(cookie) == Some((id, name, expires, sig)),
        sig != signature(secret, signed_part(id, name, expires)),
    ensures
        session_at(cookie, secret, now) is None,
{
}

} // verus!
