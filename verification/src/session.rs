//! Authenticated-encryption session around the codec's plaintext frames:
//! `seal` prepends a fresh 12-byte nonce to the ciphertext, `open` reverses
//! the framing. What is verified here is the framing and bookkeeping around
//! the cipher; the cipher and the hash themselves are relied upon.

use vstd::prelude::*;
use aes_gcm::aead::{Aead, KeyInit, Payload};

verus! {

/// Failures of the session layer.
#[derive(Debug, Clone, Copy, PartialEq, Eq, Structural)]
pub enum Error {
    Encrypt,
    Decrypt,
}

/// What AES-256-GCM encryption returns for a key, nonce, associated data
/// and plaintext: the ciphertext with its 16-byte tag appended, a function
/// of those arguments alone.
pub uninterp spec fn gcm_ciphertext_of(key: Seq<u8>, nonce: Seq<u8>, aad: Seq<u8>, msg: Seq<u8>) -> Seq<u8>;

/// What AES-256-GCM decryption returns for a key, nonce, associated data
/// and tagged ciphertext: the plaintext, or nothing when authentication
/// fails; a function of those arguments alone.
pub uninterp spec fn gcm_plaintext_of(key: Seq<u8>, nonce: Seq<u8>, aad: Seq<u8>, ct: Seq<u8>) -> Option<Seq<u8>>;

/// What the BLAKE3 hash of a byte string is: a 32-byte digest, a function
/// of the input alone.
pub uninterp spec fn blake3_of(input: Seq<u8>) -> Seq<u8>;

/// Relies on the `Generate` impl for byte arrays: a fresh nonce from the
/// system's random number generator. Nothing is assumed of its value; the
/// call returns only while the system's generator is available.
#[verifier::external_body]
fn generate_nonce() -> (r: [u8; 12]) {
    aes_gcm::aead::common::Generate::generate()
}

/// Relies on aes_gcm::Aes256Gcm through aead::Aead::encrypt: the ciphertext
/// with its tag appended, 16 bytes longer than the plaintext, depending on
/// key, nonce, associated data and plaintext alone. Encryption fails only
/// when the plaintext or the associated data exceeds the documented length
/// bounds, and decrypting its output under the same key, nonce and
/// associated data gives the plaintext back.
#[verifier::external_body]
fn gcm_seal_bytes(key: &[u8; 32], nonce: &[u8; 12], aad: &[u8], msg: &[u8]) -> (r: Option<
    Vec<u8>,
>)
    ensures
        r matches Some(ct) ==> ct@ == gcm_ciphertext_of(key@, nonce@, aad@, msg@) && ct@.len()
            == msg@.len() + 16,
        r matches Some(ct) ==> gcm_plaintext_of(key@, nonce@, aad@, ct@) == Some(msg@),
        msg@.len() <= 0xF_FFFF_FFE0 && aad@.len() <= 0x1FFF_FFFF_FFFF_FFFF ==> r is Some,
{
    let key_arr: aes_gcm::Key<aes_gcm::Aes256Gcm> = (*key).into();
    let nonce_arr: aes_gcm::Nonce<aes_gcm::aead::consts::U12> = (*nonce).into();
    let cipher = aes_gcm::Aes256Gcm::new(&key_arr);
    match cipher.encrypt(&nonce_arr, Payload { msg, aad }) {
        Ok(ct) => Some(ct),
        Err(_) => None,
    }
}

/// Relies on aes_gcm::Aes256Gcm through aead::Aead::decrypt: the plaintext
/// when the tag authenticates, nothing otherwise, depending on key, nonce,
/// associated data and ciphertext alone.
#[verifier::external_body]
fn gcm_open_bytes(key: &[u8; 32], nonce: &[u8], aad: &[u8], ct: &[u8]) -> (r: Option<
    Vec<u8>,
>)
    requires
        nonce@.len() == 12,
    ensures
        r matches Some(m) ==> Some(m@) == gcm_plaintext_of(key@, nonce@, aad@, ct@),
        r is None ==> gcm_plaintext_of(key@, nonce@, aad@, ct@) is None,
{
    let key_arr: aes_gcm::Key<aes_gcm::Aes256Gcm> = (*key).into();
    let nonce_arr: aes_gcm::Nonce<aes_gcm::aead::consts::U12> = match nonce.try_into() {
        Ok(n) => n,
        Err(_) => {
            return None;
        },
    };
    let cipher = aes_gcm::Aes256Gcm::new(&key_arr);
    match cipher.decrypt(&nonce_arr, Payload { msg: ct, aad }) {
        Ok(m) => Some(m),
        Err(_) => None,
    }
}

/// Relies on blake3::hash: a 32-byte digest that depends on the input alone.
#[verifier::external_body]
fn blake3_hash32(input: &[u8]) -> (r: [u8; 32])
    ensures
        r@ == blake3_of(input@),
{
    *blake3::hash(input).as_bytes()
}

/// Opaque session for encrypt/decrypt of payloads.
#[derive(Clone)]
pub struct Session {
    key: [u8; 32],
}

impl Session {
    /// The session's 32-byte key.
    pub closed spec fn spec_key(self) -> Seq<u8> {
        self.key@
    }

    /// Construct from a 32-byte key.
    pub fn from_key(key: [u8; 32]) -> (s: Session)
        ensures
            s.spec_key() == key@,
    {
        Session { key }
    }

    /// Encrypt a payload: a fresh random 12-byte nonce, then the ciphertext
    /// of the payload under this session's key, that nonce and the
    /// associated data; `open` under the same key and associated data gives
    /// the payload back. Success is owed whenever the payload and the
    /// associated data are within the cipher's documented length bounds.
    /// The framing is verified; of the fresh nonce nothing is assumed, so
    /// two calls on equal inputs may differ.
    pub fn seal(&self, aad: &[u8], plaintext: &[u8]) -> (r: Result<Vec<u8>, Error>)
        ensures
            plaintext@.len() <= 0xF_FFFF_FFE0 && aad@.len() <= 0x1FFF_FFFF_FFFF_FFFF ==> r is Ok,
            r matches Ok(framed) ==> framed@.len() == plaintext@.len() + 28 && exists|
                nonce: Seq<u8>,
            |
                nonce.len() == 12 && framed@ == nonce + #[trigger] gcm_ciphertext_of(
                    self.spec_key(),
                    nonce,
                    aad@,
                    plaintext@,
                ) && gcm_plaintext_of(
                    self.spec_key(),
                    nonce,
                    aad@,
                    gcm_ciphertext_of(self.spec_key(), nonce, aad@, plaintext@),
                ) == Some(plaintext@),
            r is Err ==> r == Err::<Vec<u8>, Error>(Error::Encrypt),
    {
        let nonce = generate_nonce();
        let mut ct = match gcm_seal_bytes(&self.key, &nonce, aad, plaintext) {
            Some(ct) => ct,
            None => {
                return Err(Error::Encrypt);
            },
        };
        let mut out: Vec<u8> = Vec::new();
        let mut i: usize = 0;
        while i < 12
            invariant
                0 <= i <= 12,
                out@ == nonce@.take(i as int),
            decreases 12 - i,
        {
            out.push(nonce[i]);
            i = i + 1;
        }
        proof {
            assert(out@ =~= nonce@);
        }
        out.append(&mut ct);
        proof {
            assert(out@ == nonce@ + gcm_ciphertext_of(self.spec_key(), nonce@, aad@, plaintext@));
        }
        Ok(out)
    }

    /// Decrypt a payload produced by `seal`: the first 12 bytes are taken as
    /// the nonce, the rest as the tagged ciphertext. Fails when the frame is
    /// shorter than a nonce or when authentication fails.
    pub fn open(&self, aad: &[u8], framed: &[u8]) -> (r: Result<Vec<u8>, Error>)
        ensures
            framed@.len() < 12 ==> r == Err::<Vec<u8>, Error>(Error::Decrypt),
            framed@.len() >= 12 && gcm_plaintext_of(
                self.spec_key(),
                framed@.subrange(0, 12),
                aad@,
                framed@.skip(12),
            ) is Some ==> r is Ok,
            r matches Ok(m) ==> framed@.len() >= 12 && Some(m@) == gcm_plaintext_of(
                self.spec_key(),
                framed@.subrange(0, 12),
                aad@,
                framed@.skip(12),
            ),
            r is Err ==> r == Err::<Vec<u8>, Error>(Error::Decrypt),
    {
        if framed.len() < 12 {
            return Err(Error::Decrypt);
        }
        let nonce: &[u8] = vstd::slice::slice_subrange(framed, 0, 12);
        let ct: &[u8] = vstd::slice::slice_subrange(framed, 12, framed.len());
        proof {
            assert(ct@ =~= framed@.skip(12));
        }
        match gcm_open_bytes(&self.key, nonce, aad, ct) {
            Some(m) => Ok(m),
            None => Err(Error::Decrypt),
        }
    }
}

/// Derive a session from a pre-shared key: the key is the BLAKE3 digest of
/// the pre-shared bytes.
pub fn session_from_psk(psk: &[u8]) -> (s: Session)
    ensures
        s.spec_key() == blake3_of(psk@),
{
    Session::from_key(blake3_hash32(psk))
}

} // verus!
