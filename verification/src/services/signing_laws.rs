//! What is signed and sealed, and with what.
//!
//! Each law speaks of what a function was given and of what it gave.
use vstd::prelude::*;
use vstd::utf8::encode_utf8;
use crate::digest::hmac_of;
use crate::numeral::{decimal_int, hex_text, parsed_i64};
use crate::services::crypto::{
    decrypt, encrypt_with_nonce, gcm_open, gcm_seal, hkdf_okm, CryptoError,
};
use crate::services::session::{mint_session, person, verify_session_at};
use crate::services::stripe::{
    header_signatures, header_time, verify_webhook_signature_at, webhook_signature,
};
use crate::text::{cut, lemma_cut, lemma_cut_at, pieces, trimmed};
use crate::url::{url_decoded, url_encoded};

verus! {

// ---------------------------------------------------------------------------
// Sessions
// ---------------------------------------------------------------------------

/// The HMAC of a text under a secret, in hexadecimal.
pub open spec fn sealed_text(secret: Seq<char>, text: Seq<char>) -> Seq<char> {
    hex_text(hmac_of(encode_utf8(secret), encode_utf8(text)))
}

/// The fields with a colon between each two, and behind them the seal of all of
/// them.
pub open spec fn is_sealed_cookie(
    cookie: Seq<char>,
    secret: Seq<char>,
    id: Seq<char>,
    name: Seq<char>,
    expires: Seq<char>,
) -> bool {
    let fields = id + seq![':'] + name + seq![':'] + expires;
    cookie == fields + seq![':'] + sealed_text(secret, fields)
}

/// A session speaks of the one whose id and name it has: the cookie is sealed
/// over all of its fields with the secret, and has not expired.
pub proof fn session_is_sealed_and_has_not_expired(
    cookie: &str,
    secret: &str,
    now: i64,
    id: String,
    name: String,
)
    requires
        call_ensures(verify_session_at, (cookie, secret, now), Some((id, name))),
    ensures
        exists|written: Seq<char>, expires: Seq<char>|
            {
                &&& #[trigger] is_sealed_cookie(cookie@, secret@, id@, written, expires)
                &&& url_decoded(written) == Some(name@)
                &&& parsed_i64(expires) matches Some(end) && now <= end
            },
{
    let c = cookie@;
    lemma_cut(c, ':');
    let (a, rest) = cut(c, ':')->0;
    lemma_cut(rest, ':');
    let (b, rest2) = cut(rest, ':')->0;
    lemma_cut(rest2, ':');
    let (e, sig) = cut(rest2, ':')->0;
    reveal_strlit(":");
    assert(":"@ =~= seq![':']);
    let fields = a + seq![':'] + b + seq![':'] + e;
    assert(c =~= fields + seq![':'] + sig);
    assert(is_sealed_cookie(c, secret@, id@, b, e));
}

/// A cookie that is sealed with the secret and has not expired speaks of the one
/// whose id and name it has.
pub proof fn sealed_session_is_believed(
    cookie: &str,
    secret: &str,
    now: i64,
    r: Option<(String, String)>,
    id: Seq<char>,
    written: Seq<char>,
    name: Seq<char>,
    expires: Seq<char>,
    end: i64,
)
    requires
        call_ensures(verify_session_at, (cookie, secret, now), r),
        is_sealed_cookie(cookie@, secret@, id, written, expires),
        !id.contains(':') && !written.contains(':') && !expires.contains(':'),
        url_decoded(written) == Some(name),
        parsed_i64(expires) == Some(end),
    ensures
        now <= end ==> person(r) == Some((id, name)),
        now > end ==> r is None,
{
    let c = cookie@;
    let fields = id + seq![':'] + written + seq![':'] + expires;
    let sig = sealed_text(secret@, fields);
    let rest2 = expires + seq![':'] + sig;
    let rest = written + seq![':'] + rest2;
    assert(c =~= id + seq![':'] + rest);
    lemma_cut_at(id, ':', rest);
    lemma_cut_at(written, ':', rest2);
    lemma_cut_at(expires, ':', sig);
    reveal_strlit(":");
    assert(":"@ =~= seq![':']);
}

/// A minted cookie is sealed over the id, the encoded name and the expiry.
pub proof fn minted_cookie_is_sealed(
    id: &str,
    name: &str,
    expires: i64,
    secret: &str,
    r: String,
)
    requires
        call_ensures(mint_session, (id, name, expires, secret), r),
    ensures
        is_sealed_cookie(
            r@,
            secret@,
            id@,
            url_encoded(name@),
            decimal_int(expires as int),
        ),
{
    reveal_strlit(":");
    assert(":"@ =~= seq![':']);
}

// ---------------------------------------------------------------------------
// Webhooks
// ---------------------------------------------------------------------------

/// A part of the header with this name has this value.
pub open spec fn header_has(parts: Seq<Seq<char>>, name: Seq<char>, value: Seq<char>) -> bool {
    exists|i: int, written: Seq<char>|
        0 <= i < parts.len() && #[trigger] parts[i] == #[trigger] (name + seq!['='] + written)
            && trimmed(written) == value
}

/// The signature that Stripe makes: of the time, a full stop and the payload.
pub open spec fn stripe_signature(secret: Seq<char>, t: i64, payload: Seq<u8>) -> Seq<char> {
    hex_text(
        hmac_of(encode_utf8(secret), encode_utf8(decimal_int(t as int)) + seq![0x2eu8] + payload),
    )
}

proof fn lemma_last_part(parts: Seq<Seq<char>>, name: Seq<char>, value: Seq<char>)
    requires
        parts.len() > 0,
        header_has(parts.drop_last(), name, value),
    ensures
        header_has(parts, name, value),
{
    let before = parts.drop_last();
    let (i, written) = choose|i: int, written: Seq<char>|
        0 <= i < before.len() && #[trigger] before[i] == #[trigger] (name + seq!['='] + written)
            && trimmed(written) == value;
    assert(parts[i] == name + seq!['='] + written);
}

proof fn lemma_header_time(parts: Seq<Seq<char>>, t: i64)
    requires
        header_time(parts) == Some(t),
    ensures
        exists|v: Seq<char>| #[trigger]
            header_has(parts, "t"@, v) && parsed_i64(v) == Some(t),
    decreases parts.len(),
{
    if parts.len() > 0 {
        let last = parts.last();
        lemma_cut(last, '=');
        match cut(last, '=') {
            Some((key, value)) => {
                if key == "t"@ {
                    assert(parts[parts.len() - 1] == key + seq!['='] + value);
                    assert(header_has(parts, "t"@, trimmed(value)));
                } else {
                    lemma_header_time(parts.drop_last(), t);
                    let v = choose|v: Seq<char>| #[trigger]
                        header_has(parts.drop_last(), "t"@, v) && parsed_i64(v) == Some(t);
                    lemma_last_part(parts, "t"@, v);
                }
            },
            None => {
                lemma_header_time(parts.drop_last(), t);
                let v = choose|v: Seq<char>| #[trigger]
                    header_has(parts.drop_last(), "t"@, v) && parsed_i64(v) == Some(t);
                lemma_last_part(parts, "t"@, v);
            },
        }
    }
}

proof fn lemma_header_signature(parts: Seq<Seq<char>>, sig: Seq<char>)
    requires
        header_signatures(parts).contains(sig),
    ensures
        header_has(parts, "v1"@, sig),
    decreases parts.len(),
{
    if parts.len() > 0 {
        let all = header_signatures(parts);
        let before = header_signatures(parts.drop_last());
        let k = choose|k: int| 0 <= k < all.len() && all[k] == sig;
        if k < before.len() {
            assert(before[k] == sig);
            assert(before.contains(sig));
            lemma_header_signature(parts.drop_last(), sig);
            lemma_last_part(parts, "v1"@, sig);
        } else {
            let last = parts.last();
            lemma_cut(last, '=');
            let (key, value) = cut(last, '=')->0;
            assert(parts[parts.len() - 1] == key + seq!['='] + value);
        }
    }
}

/// A header that is accepted has a time within the tolerance on either side, and
/// a signature of that time and of the payload under the secret.
pub proof fn accepted_webhook_is_signed(
    payload: &[u8],
    header: &str,
    secret: &str,
    tolerance: i64,
    now: i64,
)
    requires
        call_ensures(
            verify_webhook_signature_at,
            (payload, header, secret, tolerance, now),
            true,
        ),
    ensures
        exists|t: i64, v: Seq<char>|
            {
                &&& #[trigger] header_has(pieces(header@, ','), "t"@, v)
                &&& parsed_i64(v) == Some(t)
                &&& now - t <= tolerance
                &&& t - now <= tolerance
                &&& header_has(
                    pieces(header@, ','),
                    "v1"@,
                    #[trigger] stripe_signature(secret@, t, payload@),
                )
            },
{
    let parts = pieces(header@, ',');
    let t = header_time(parts)->0;
    lemma_header_time(parts, t);
    lemma_header_signature(parts, webhook_signature(secret@, t, payload@));
    assert('.' as u8 == 0x2eu8);
    assert(webhook_signature(secret@, t, payload@) == stripe_signature(secret@, t, payload@));
    let v = choose|v: Seq<char>| #[trigger]
        header_has(parts, "t"@, v) && parsed_i64(v) == Some(t);
    assert(header_has(parts, "v1"@, stripe_signature(secret@, t, payload@)));
}

/// The signature that is looked for is the one that Stripe makes.
pub proof fn signature_is_of_time_and_payload(secret: Seq<char>, t: i64, payload: Seq<u8>)
    ensures
        webhook_signature(secret, t, payload) == stripe_signature(secret, t, payload),
{
    assert('.' as u8 == 0x2eu8);
}

// ---------------------------------------------------------------------------
// Encryption
// ---------------------------------------------------------------------------

/// The key that is derived from a session secret.
pub open spec fn derived_key(secret: Seq<char>) -> Seq<u8> {
    hkdf_okm(
        encode_utf8("stripe-subscriber-role/v1/salt"@),
        encode_utf8(secret),
        encode_utf8("stripe-subscriber-role/v1/kek"@),
        32,
    )
}

/// A blob is its nonce of twelve bytes and the sealed plaintext.
pub proof fn blob_is_nonce_and_sealed_text(
    secret: &str,
    nonce: &[u8],
    plaintext: &[u8],
    r: Vec<u8>,
)
    requires
        call_ensures(encrypt_with_nonce, (secret, nonce, plaintext), r),
        nonce@.len() == 12,
    ensures
        r@.take(12) == nonce@,
        r@.skip(12) == gcm_seal(
            derived_key(secret@),
            nonce@,
            encode_utf8("stripe-subscriber-role/v1/oauth-token"@),
            plaintext@,
        ),
{
    assert(r@.take(12) =~= nonce@);
    assert(r@.skip(12) =~= gcm_seal(
        derived_key(secret@),
        nonce@,
        encode_utf8("stripe-subscriber-role/v1/oauth-token"@),
        plaintext@,
    ));
}

/// What is decrypted is what the cipher opens with the nonce that the blob starts
/// with, and a blob without room for a nonce and a tag is refused.
pub proof fn blob_is_opened_with_its_nonce(
    secret: &str,
    blob: &[u8],
    r: Result<Vec<u8>, CryptoError>,
)
    requires
        call_ensures(decrypt, (secret, blob), r),
    ensures
        blob@.len() < 28 ==> r is Err && r->Err_0 is TooShort,
        blob@.len() >= 28 ==> match gcm_open(
            derived_key(secret@),
            blob@.take(12),
            encode_utf8("stripe-subscriber-role/v1/oauth-token"@),
            blob@.skip(12),
        ) {
            Some(m) => r is Ok && r->Ok_0@ == m,
            None => r is Err && r->Err_0 is DecryptFailed,
        },
{
}

} // verus!
