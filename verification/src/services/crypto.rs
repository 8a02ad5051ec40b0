//! Encryption of secrets at rest.
//!
//! The key is derived from the session secret, so that whoever reads the
//! database alone cannot use what is stored there:
//!   * key = HKDF-SHA-256 of the session secret, with a fixed salt and info
//!   * blob = nonce (12 bytes), then AES-256-GCM of the plaintext under the key
//!     and the nonce, with a fixed context as associated data
use aes_gcm::aead::{Aead, KeyInit, Payload};
use rand::RngCore;
use vstd::prelude::*;
use vstd::utf8::encode_utf8;
use crate::bytes::copy_range;

verus! {

pub const NONCE_BYTES: usize = 12;

pub const TAG_BYTES: usize = 16;

pub const KEY_BYTES: usize = 32;

/// The longest plaintext, and the longest associated data, that the cipher
/// takes.
pub const MAX_PLAINTEXT: u64 = 68_719_476_736;

pub const HKDF_INFO: &'static str = "stripe-subscriber-role/v1/kek";

pub const HKDF_SALT: &'static str = "stripe-subscriber-role/v1/salt";

pub const AAD: &'static str = "stripe-subscriber-role/v1/oauth-token";

/// Why a blob could not be decrypted.
#[derive(Debug, Clone, Copy, PartialEq, Eq, Structural)]
pub enum CryptoError {
    /// It has no room for a nonce and a tag.
    TooShort,
    /// It was not made with this secret, or it was altered.
    DecryptFailed,
}

impl CryptoError {
    /// What to tell of the error.
    pub fn message(self) -> (r: &'static str)
        ensures
            r@ == match self {
                CryptoError::TooShort => "ciphertext too short"@,
                CryptoError::DecryptFailed => "decrypt failed"@,
            },
    {
        match self {
            CryptoError::TooShort => "ciphertext too short",
            CryptoError::DecryptFailed => "decrypt failed",
        }
    }
}

// ---------------------------------------------------------------------------
// The ciphers
// ---------------------------------------------------------------------------

/// What HKDF-SHA-256 derives.
pub uninterp spec fn hkdf_okm(salt: Seq<u8>, ikm: Seq<u8>, info: Seq<u8>, len: nat) -> Seq<u8>;

/// `hkdf::Hkdf<sha2::Sha256>`: `new` with a salt, and `expand`, which fills an
/// output of up to 255 digests.
#[verifier::external_body]
fn hkdf_sha256(salt: &[u8], ikm: &[u8], info: &[u8], len: usize) -> (r: Vec<u8>)
    requires
        len <= 8160,
    ensures
        r@ == hkdf_okm(salt@, ikm@, info@, len as nat),
        r@.len() == len,
{
    let mut out = vec![0u8; len];
    hkdf::Hkdf::<sha2::Sha256>::new(Some(salt), ikm).expand(info, &mut out).unwrap();
    out
}

/// What AES-256-GCM makes of a message: the ciphertext and the tag.
pub uninterp spec fn gcm_seal(
    key: Seq<u8>,
    nonce: Seq<u8>,
    aad: Seq<u8>,
    message: Seq<u8>,
) -> Seq<u8>;

/// The message that AES-256-GCM finds in a ciphertext and a tag; none when the
/// tag is not that of the ciphertext.
pub uninterp spec fn gcm_open(
    key: Seq<u8>,
    nonce: Seq<u8>,
    aad: Seq<u8>,
    sealed: Seq<u8>,
) -> Option<Seq<u8>>;

/// `aes_gcm::Aes256Gcm::encrypt`. The result is as long as the message and the
/// tag, and it opens, under the same key, nonce and associated data, to the
/// message.
#[verifier::external_body]
fn aes_gcm_encrypt(key: &[u8], nonce: &[u8], aad: &[u8], message: &[u8]) -> (r: Vec<u8>)
    requires
        key@.len() == KEY_BYTES,
        nonce@.len() == NONCE_BYTES,
        aad@.len() <= MAX_PLAINTEXT,
        message@.len() <= MAX_PLAINTEXT,
    ensures
        r@ == gcm_seal(key@, nonce@, aad@, message@),
        r@.len() == message@.len() + TAG_BYTES,
        gcm_open(key@, nonce@, aad@, r@) == Some(message@),
{
    aes_gcm::Aes256Gcm::new_from_slice(key).unwrap().encrypt(
        aes_gcm::Nonce::from_slice(nonce),
        Payload { msg: message, aad },
    ).unwrap()
}

/// `aes_gcm::Aes256Gcm::decrypt`. An error says only that the message was not
/// accepted.
#[verifier::external_body]
fn aes_gcm_decrypt(key: &[u8], nonce: &[u8], aad: &[u8], sealed: &[u8]) -> (r: Option<Vec<u8>>)
    requires
        key@.len() == KEY_BYTES,
        nonce@.len() == NONCE_BYTES,
    ensures
        match r {
            Some(m) => gcm_open(key@, nonce@, aad@, sealed@) == Some(m@),
            None => gcm_open(key@, nonce@, aad@, sealed@) is None,
        },
{
    aes_gcm::Aes256Gcm::new_from_slice(key).unwrap().decrypt(
        aes_gcm::Nonce::from_slice(nonce),
        Payload { msg: sealed, aad },
    ).ok()
}

/// `rand::thread_rng` and `fill_bytes`. Chance decides the bytes.
#[verifier::external_body]
fn random_bytes(len: usize) -> (r: Vec<u8>)
    ensures
        r@.len() == len,
{
    let mut out = vec![0u8; len];
    rand::thread_rng().fill_bytes(&mut out);
    out
}

// ---------------------------------------------------------------------------
// Encryption at rest
// ---------------------------------------------------------------------------

/// The key of a session secret.
pub open spec fn kek(session_secret: Seq<char>) -> Seq<u8> {
    hkdf_okm(
        encode_utf8(HKDF_SALT@),
        encode_utf8(session_secret),
        encode_utf8(HKDF_INFO@),
        KEY_BYTES as nat,
    )
}

/// The blob of a plaintext under a nonce.
pub open spec fn blob_of(
    session_secret: Seq<char>,
    nonce: Seq<u8>,
    plaintext: Seq<u8>,
) -> Seq<u8> {
    nonce + gcm_seal(kek(session_secret), nonce, encode_utf8(AAD@), plaintext)
}

/// What decryption gives for a blob.
pub open spec fn opened(session_secret: Seq<char>, blob: Seq<u8>) -> Result<Seq<u8>, CryptoError> {
    if blob.len() < NONCE_BYTES + TAG_BYTES {
        Err(CryptoError::TooShort)
    } else {
        match gcm_open(
            kek(session_secret),
            blob.take(NONCE_BYTES as int),
            encode_utf8(AAD@),
            blob.skip(NONCE_BYTES as int),
        ) {
            Some(m) => Ok(m),
            None => Err(CryptoError::DecryptFailed),
        }
    }
}

fn derive_kek(session_secret: &str) -> (r: Vec<u8>)
    ensures
        r@ == kek(session_secret@),
        r@.len() == KEY_BYTES,
{
    hkdf_sha256(HKDF_SALT.as_bytes(), session_secret.as_bytes(), HKDF_INFO.as_bytes(), KEY_BYTES)
}

proof fn lemma_aad_is_short()
    ensures
        encode_utf8(AAD@).len() <= MAX_PLAINTEXT,
{
    reveal_strlit("stripe-subscriber-role/v1/oauth-token");
    assert(vstd::utf8::is_ascii_chars(AAD@));
    vstd::utf8::is_ascii_chars_encode_utf8(AAD@);
}

/// Encrypts under the given nonce.
pub fn encrypt_with_nonce(session_secret: &str, nonce: &[u8], plaintext: &[u8]) -> (r: Vec<u8>)
    requires
        nonce@.len() == NONCE_BYTES,
        plaintext@.len() <= MAX_PLAINTEXT,
    ensures
        r@ == blob_of(session_secret@, nonce@, plaintext@),
        r@.len() == NONCE_BYTES + plaintext@.len() + TAG_BYTES,
        opened(session_secret@, r@) == Ok::<Seq<u8>, CryptoError>(plaintext@),
{
    let key = derive_kek(session_secret);
    proof {
        lemma_aad_is_short();
    }
    let sealed = aes_gcm_encrypt(key.as_slice(), nonce, AAD.as_bytes(), plaintext);
    let mut out = copy_range(nonce, 0, nonce.len());
    proof {
        assert(out@ =~= nonce@);
    }
    let mut i: usize = 0;
    while i < sealed.len()
        invariant
            i <= sealed.len(),
            out@ =~= nonce@ + sealed@.take(i as int),
        decreases sealed.len() - i,
    {
        out.push(sealed[i]);
        i = i + 1;
    }
    proof {
        assert(out@ =~= nonce@ + sealed@);
        assert(out@.take(NONCE_BYTES as int) =~= nonce@);
        assert(out@.skip(NONCE_BYTES as int) =~= sealed@);
    }
    out
}

/// Encrypts under a fresh nonce. Decryption with the same secret gives the
/// plaintext back.
pub fn encrypt(session_secret: &str, plaintext: &[u8]) -> (r: Vec<u8>)
    requires
        plaintext@.len() <= MAX_PLAINTEXT,
    ensures
        exists|nonce: Seq<u8>|
            nonce.len() == NONCE_BYTES && r@ == #[trigger] blob_of(
                session_secret@,
                nonce,
                plaintext@,
            ),
        r@.len() == NONCE_BYTES + plaintext@.len() + TAG_BYTES,
        opened(session_secret@, r@) == Ok::<Seq<u8>, CryptoError>(plaintext@),
{
    let nonce = random_bytes(NONCE_BYTES);
    encrypt_with_nonce(session_secret, nonce.as_slice(), plaintext)
}

/// Blobs made under different nonces differ, and each starts with its nonce.
pub proof fn nonces_tell_blobs_apart(
    session_secret: Seq<char>,
    nonce: Seq<u8>,
    other: Seq<u8>,
    plaintext: Seq<u8>,
)
    requires
        nonce.len() == NONCE_BYTES,
        other.len() == NONCE_BYTES,
        nonce != other,
    ensures
        blob_of(session_secret, nonce, plaintext).take(NONCE_BYTES as int) == nonce,
        blob_of(session_secret, nonce, plaintext) != blob_of(session_secret, other, plaintext),
{
    assert(blob_of(session_secret, nonce, plaintext).take(NONCE_BYTES as int) =~= nonce);
    assert(blob_of(session_secret, other, plaintext).take(NONCE_BYTES as int) =~= other);
}

/// A blob with room for a nonce and a tag that the cipher does not accept under
/// the secret's key, because it was made with another one or was altered, fails
/// to decrypt.
pub proof fn unaccepted_blob_fails(session_secret: Seq<char>, blob: Seq<u8>)
    requires
        blob.len() >= NONCE_BYTES + TAG_BYTES,
        gcm_open(
            kek(session_secret),
            blob.take(NONCE_BYTES as int),
            encode_utf8(AAD@),
            blob.skip(NONCE_BYTES as int),
        ) is None,
    ensures
        opened(session_secret, blob) == Err::<Seq<u8>, CryptoError>(CryptoError::DecryptFailed),
{
}

/// Decrypts a blob.
pub fn decrypt(session_secret: &str, blob: &[u8]) -> (r: Result<Vec<u8>, CryptoError>)
    ensures
        match r {
            Ok(m) => opened(session_secret@, blob@) == Ok::<Seq<u8>, CryptoError>(m@),
            Err(e) => opened(session_secret@, blob@) == Err::<Seq<u8>, CryptoError>(e),
        },
{
    if blob.len() < NONCE_BYTES + TAG_BYTES {
        return Err(CryptoError::TooShort);
    }
    let nonce = copy_range(blob, 0, NONCE_BYTES);
    let sealed = copy_range(blob, NONCE_BYTES, blob.len());
    let key = derive_kek(session_secret);
    proof {
        assert(nonce@ =~= blob@.take(NONCE_BYTES as int));
        assert(sealed@ =~= blob@.skip(NONCE_BYTES as int));
    }
    match aes_gcm_decrypt(key.as_slice(), nonce.as_slice(), AAD.as_bytes(), sealed.as_slice()) {
        Some(m) => Ok(m),
        None => Err(CryptoError::DecryptFailed),
    }
}

} // verus!
