//! The session cipher: AES-256-GCM-SIV with a fresh random nonce per
//! message, keyed by 32 bytes carried as unpadded base64 text.
//!
//! An envelope on the wire is `<nonce:12><ciphertext+tag:len+16>`, so a
//! sealed message is exactly 28 bytes longer than its plaintext.

use vstd::prelude::*;

use aes_gcm_siv::Aes256GcmSiv;
use aes_gcm_siv::Nonce;
use aes_gcm_siv::aead::Aead;
use aes_gcm_siv::aead::Generate;
use aes_gcm_siv::aead::Key;
use aes_gcm_siv::aead::KeyInit;
use base64::Engine;

use crate::errors::ErrorKind;

verus! {

#[verifier::external_type_specification]
#[verifier::external_body]
pub struct ExAeadError(aes_gcm_siv::aead::Error);

#[verifier::external_type_specification]
#[verifier::external_body]
pub struct ExDecodeError(base64::DecodeError);

/// The unpadded standard-alphabet base64 text of a byte string, as
/// `base64`'s `STANDARD_NO_PAD` engine writes it.
pub uninterp spec fn b64_of(bytes: Seq<u8>) -> Seq<char>;

/// What AES-256-GCM-SIV decryption returns for an envelope whose first 12
/// bytes are the nonce: `Some(plaintext)` when the tag verifies, `None`
/// otherwise. Deterministic in the key and the envelope.
pub uninterp spec fn aead_open(key: Seq<u8>, envelope: Seq<u8>) -> Option<Seq<u8>>;

/// What `decrypt` returns: an envelope shorter than a nonce and a tag
/// (28 bytes) is rejected outright; the rest is up to the cipher.
pub open spec fn decrypt_spec(key: Seq<u8>, data: Seq<u8>) -> Option<Seq<u8>> {
    if data.len() < 28 {
        None
    } else {
        aead_open(key, data)
    }
}

/// The longest plaintext the cipher seals: RFC 8452 caps messages at 2^36
/// bytes, and sealing a longer one is the cipher's only failure.
pub open spec fn seal_limit() -> int {
    0x10_0000_0000
}

/// Relies on `Aes256GcmSiv::encrypt` (RFC 8452): the ciphertext is the
/// plaintext's length plus a 16-byte tag, and decrypting the envelope under
/// the same key yields the plaintext again, whichever nonce the system RNG
/// drew. It fails exactly on plaintexts beyond the RFC's 2^36-byte cap
/// (there is no associated data here), so success is owed below it. Panics
/// only if the system RNG fails.
#[verifier::external_body]
fn aead_seal(key: &Vec<u8>, plain: &Vec<u8>) -> (r: Result<Vec<u8>, aes_gcm_siv::aead::Error>)
    requires
        key@.len() == 32,
    ensures
        match r {
            Ok(c) => c@.len() == plain@.len() + 28 && aead_open(key@, c@) == Some(plain@),
            Err(_) => true,
        },
        plain@.len() <= seal_limit() ==> r is Ok,
{
    let cipher = Aes256GcmSiv::new_from_slice(key.as_slice()).unwrap();
    let nonce = Nonce::generate();
    let ciphertext = cipher.encrypt(&nonce, plain.as_slice())?;
    let mut out: Vec<u8> = Vec::with_capacity(12 + ciphertext.len());
    out.extend_from_slice(nonce.as_slice());
    out.extend_from_slice(&ciphertext);
    Ok(out)
}

/// Relies on `Aes256GcmSiv::decrypt`: the first 12 bytes of the envelope are
/// taken as the nonce, the rest as ciphertext and tag; the outcome is the
/// deterministic function named `aead_open`.
#[verifier::external_body]
fn open_envelope(key: &Vec<u8>, data: &Vec<u8>) -> (r: Result<Vec<u8>, aes_gcm_siv::aead::Error>)
    requires
        key@.len() == 32,
        data@.len() >= 28,
    ensures
        match r {
            Ok(p) => aead_open(key@, data@) == Some(p@),
            Err(_) => aead_open(key@, data@) is None,
        },
{
    let cipher = Aes256GcmSiv::new_from_slice(key.as_slice()).unwrap();
    let nonce = Nonce::try_from(&data.as_slice()[0..12]).unwrap();
    cipher.decrypt(&nonce, &data.as_slice()[12..])
}

/// Relies on `Key::<Aes256GcmSiv>::generate`: 32 bytes from the system
/// cryptographic RNG. Panics only if the system RNG fails.
#[verifier::external_body]
fn generate_key_bytes() -> (r: Vec<u8>)
    ensures
        r@.len() == 32,
{
    let key = Key::<Aes256GcmSiv>::generate();
    key.as_slice().to_vec()
}

/// Relies on `base64`'s `STANDARD_NO_PAD` engine: unpadded standard-alphabet
/// encoding, whose result depends on the bytes alone and is named `b64_of`;
/// four characters are written for every three bytes.
#[verifier::external_body]
fn b64_encode(bytes: &Vec<u8>) -> (r: String)
    ensures
        r@ == b64_of(bytes@),
        r@.len() == (bytes@.len() * 4 + 2) / 3,
{
    base64::engine::general_purpose::STANDARD_NO_PAD.encode(bytes.as_slice())
}

/// Relies on the same engine's `decode`: it accepts exactly the canonical
/// unpadded encodings (no padding, no stray trailing bits), so it succeeds
/// precisely on text some byte string encodes to, and returns that byte
/// string - which is unique, the encoding being invertible.
#[verifier::external_body]
fn b64_decode(text: &str) -> (r: Result<Vec<u8>, base64::DecodeError>)
    ensures
        r matches Ok(w) ==> b64_of(w@) == text@ && (forall|v: Seq<u8>|
            b64_of(v) == text@ ==> v == w@),
        (exists|v: Seq<u8>| b64_of(v) == text@) ==> r is Ok,
{
    base64::engine::general_purpose::STANDARD_NO_PAD.decode(text.as_bytes())
}

/// The session cipher: the raw 256-bit key and its base64 text.
pub struct AES {
    key: Vec<u8>,
    key_b64: String,
}

impl View for AES {
    type V = Seq<u8>;

    /// A cipher is modeled by its key bytes.
    closed spec fn view(&self) -> Seq<u8> {
        self.key@
    }
}

impl AES {
    /// A usable cipher: a 32-byte key whose base64 text matches it.
    pub open spec fn wf(&self) -> bool {
        self@.len() == 32 && self.spec_key_b64() == b64_of(self@)
    }

    /// The base64 text of the key.
    pub closed spec fn spec_key_b64(&self) -> Seq<char> {
        self.key_b64@
    }

    /// Build a cipher from an existing base64 key, or from a fresh random
    /// key when none is given. Exactly the texts that 32-byte keys encode
    /// to are accepted, and the cipher is keyed by those very bytes, so two
    /// participants handed the same text hold the same key.
    pub fn new(key: Option<&str>) -> (r: Result<AES, ErrorKind>)
        ensures
            match r {
                Ok(c) => c.wf() && (key matches Some(s) ==> c.spec_key_b64() == s@
                    && (forall|v: Seq<u8>| b64_of(v) == s@ ==> c@ == v)),
                Err(e) => e == ErrorKind::KeyFormat && key is Some,
            },
            key is None ==> r is Ok,
            key matches Some(s) && (exists|v: Seq<u8>| v.len() == 32 && b64_of(v) == s@) ==> r
                is Ok,
    {
        match key {
            Some(text) => {
                let decoded = match b64_decode(text) {
                    Ok(v) => v,
                    Err(_) => {
                        proof {
                            assert(!(exists|v: Seq<u8>| b64_of(v) == text@));
                        }
                        return Err(ErrorKind::KeyFormat);
                    },
                };
                if decoded.len() != 32 {
                    proof {
                        assert forall|v: Seq<u8>| !(v.len() == 32 && b64_of(v) == text@) by {
                            if b64_of(v) == text@ {
                                assert(v == decoded@);
                            }
                        }
                    }
                    return Err(ErrorKind::KeyFormat);
                }
                Ok(AES { key: decoded, key_b64: text.to_owned() })
            },
            None => {
                let fresh = generate_key_bytes();
                let text = b64_encode(&fresh);
                Ok(AES { key: fresh, key_b64: text })
            },
        }
    }

    /// The base64 text of the session key, as handed to the operator.
    pub fn get_key(&self) -> (r: String)
        ensures
            r@ == self.spec_key_b64(),
    {
        self.key_b64.clone()
    }

    /// An equal cipher for another link of the same session.
    pub fn duplicate(&self) -> (r: AES)
        ensures
            r@ == self@,
            r.wf() == self.wf(),
            r.spec_key_b64() == self.spec_key_b64(),
    {
        let key = self.key.clone();
        proof {
            assert(key@ =~= self.key@);
        }
        AES { key, key_b64: self.key_b64.clone() }
    }

    /// Seal a plaintext: a fresh random nonce, then ciphertext and tag.
    /// The envelope is 28 bytes longer than the plaintext and opens back to
    /// it under this key. Success is owed up to the cipher's 2^36-byte
    /// plaintext cap; only beyond it can the cipher fail.
    pub fn encrypt(&self, data: &Vec<u8>) -> (r: Result<Vec<u8>, ErrorKind>)
        requires
            self.wf(),
        ensures
            match r {
                Ok(c) => c@.len() == data@.len() + 28 && decrypt_spec(self@, c@) == Some(data@),
                Err(e) => e == ErrorKind::CipherFail,
            },
            data@.len() <= seal_limit() ==> r is Ok,
    {
        match aead_seal(&self.key, data) {
            Ok(c) => Ok(c),
            Err(_) => Err(ErrorKind::CipherFail),
        }
    }

    /// Seal a plaintext and return the envelope as base64 text.
    pub fn encrypt_b64(&self, data: &Vec<u8>) -> (r: Result<String, ErrorKind>)
        requires
            self.wf(),
        ensures
            match r {
                Ok(t) => exists|c: Seq<u8>|
                    c.len() == data@.len() + 28 && decrypt_spec(self@, c) == Some(data@) && t@
                        == b64_of(c),
                Err(e) => e == ErrorKind::CipherFail,
            },
            data@.len() <= seal_limit() ==> r is Ok,
    {
        let envelope = match aead_seal(&self.key, data) {
            Ok(c) => c,
            Err(_) => {
                return Err(ErrorKind::CipherFail);
            },
        };
        let text = b64_encode(&envelope);
        proof {
            assert(envelope@.len() == data@.len() + 28 && decrypt_spec(self@, envelope@)
                == Some(data@) && text@ == b64_of(envelope@));
        }
        Ok(text)
    }

    /// Open an envelope: exactly the decryptions the cipher accepts succeed,
    /// and everything else - a short envelope or a bad tag - is an
    /// authentication failure.
    pub fn decrypt(&self, data: &Vec<u8>) -> (r: Result<Vec<u8>, ErrorKind>)
        requires
            self.wf(),
        ensures
            match r {
                Ok(p) => decrypt_spec(self@, data@) == Some(p@),
                Err(e) => e == ErrorKind::DecryptAuth && decrypt_spec(self@, data@) is None,
            },
    {
        if data.len() < 28 {
            return Err(ErrorKind::DecryptAuth);
        }
        match open_envelope(&self.key, data) {
            Ok(p) => Ok(p),
            Err(_) => Err(ErrorKind::DecryptAuth),
        }
    }

    /// Open an owned envelope.
    pub fn decrypt_vec(&self, bytes: Vec<u8>) -> (r: Result<Vec<u8>, ErrorKind>)
        requires
            self.wf(),
        ensures
            match r {
                Ok(p) => decrypt_spec(self@, bytes@) == Some(p@),
                Err(e) => e == ErrorKind::DecryptAuth && decrypt_spec(self@, bytes@) is None,
            },
    {
        self.decrypt(&bytes)
    }

    /// Open an envelope carried as base64 text. Text no byte string encodes
    /// to is a protocol error; text whose (unique) envelope the cipher
    /// rejects an authentication failure; everything else succeeds.
    pub fn decrypt_b64(&self, b64_cipher: String) -> (r: Result<Vec<u8>, ErrorKind>)
        requires
            self.wf(),
        ensures
            match r {
                Ok(p) => (exists|c: Seq<u8>| b64_of(c) == b64_cipher@) && forall|c: Seq<u8>|
                    b64_of(c) == b64_cipher@ ==> decrypt_spec(self@, c) == Some(p@),
                Err(e) => (e == ErrorKind::Protocol && !(exists|c: Seq<u8>|
                    b64_of(c) == b64_cipher@)) || (e == ErrorKind::DecryptAuth && (exists|
                    c: Seq<u8>|
                    b64_of(c) == b64_cipher@ && decrypt_spec(self@, c) is None)),
            },
            (exists|c: Seq<u8>| b64_of(c) == b64_cipher@ && decrypt_spec(self@, c) is Some) ==> r
                is Ok,
    {
        let envelope = match b64_decode(b64_cipher.as_str()) {
            Ok(v) => v,
            Err(_) => {
                proof {
                    assert(!(exists|c: Seq<u8>| b64_of(c) == b64_cipher@));
                }
                return Err(ErrorKind::Protocol);
            },
        };
        match self.decrypt(&envelope) {
            Ok(p) => {
                proof {
                    assert(b64_of(envelope@) == b64_cipher@ && decrypt_spec(self@, envelope@)
                        == Some(p@));
                }
                Ok(p)
            },
            Err(e) => {
                proof {
                    assert(b64_of(envelope@) == b64_cipher@ && decrypt_spec(self@, envelope@)
                        is None);
                    assert forall|c: Seq<u8>|
                        b64_of(c) == b64_cipher@ implies decrypt_spec(self@, c) is None by {
                        assert(c == envelope@);
                    }
                }
                Err(e)
            },
        }
    }
}

} // verus!
