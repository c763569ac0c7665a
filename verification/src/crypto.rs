//! The codec of the secrets file: a text is encrypted under a key that is
//! derived from a password, and put into an envelope with what is needed to
//! decrypt it again.

use sodiumoxide::crypto::{pwhash, secretbox};
use vstd::prelude::*;
use vstd::slice::slice_to_vec;
use vstd::utf8::{decode_utf8, encode_utf8, encode_utf8_decode_utf8, encode_utf8_valid_utf8, valid_utf8};

verus! {

/// The length of a salt for the derivation of a key.
pub const SALT_BYTES: usize = 32;

/// The length of a nonce.
pub const NONCE_BYTES: usize = 24;

/// The length of a key.
pub const KEY_BYTES: usize = 32;

/// Why a secrets file could not be written or read.
#[derive(Clone, Copy, Debug, PartialEq, Eq, Structural)]
pub enum CryptoError {
    /// The key could not be derived from the password, as happens where the
    /// memory that the derivation needs cannot be had.
    KeyDerivation,
    /// The envelope could not be put into bytes.
    Encoding,
    /// The bytes are no envelope.
    Malformed,
    /// The ciphertext does not belong to the key: the password is wrong or the
    /// file has been changed. Nothing tells the two apart.
    Authentication,
    /// The decrypted bytes are no text.
    NotText,
}

/// What a secrets file holds: the salt that the key was derived with, the
/// nonce that the content was encrypted with, and the encrypted content with
/// its authentication tag.
#[derive(Debug)]
pub struct SecretsEnvelope {
    pub salt: Vec<u8>,
    pub nonce: Vec<u8>,
    pub ciphertext: Vec<u8>,
}

/// What an envelope holds.
pub struct EnvelopeView {
    pub salt: Seq<u8>,
    pub nonce: Seq<u8>,
    pub ciphertext: Seq<u8>,
}

impl View for SecretsEnvelope {
    type V = EnvelopeView;

    open spec fn view(&self) -> EnvelopeView {
        EnvelopeView { salt: self.salt@, nonce: self.nonce@, ciphertext: self.ciphertext@ }
    }
}

/// Whether the salt and the nonce have their lengths.
pub open spec fn well_formed(envelope: EnvelopeView) -> bool {
    envelope.salt.len() == SALT_BYTES && envelope.nonce.len() == NONCE_BYTES
}

/// The key that `pwhash::derive_key` derives from a password and a salt at the
/// interactive limits.
pub uninterp spec fn derived_key(password: Seq<u8>, salt: Seq<u8>) -> Seq<u8>;

/// The ciphertext that `secretbox::seal` gives for a message under a nonce and
/// a key.
pub uninterp spec fn sealed(message: Seq<u8>, nonce: Seq<u8>, key: Seq<u8>) -> Seq<u8>;

/// What `secretbox::open` gives for a ciphertext under a nonce and a key: the
/// message, or `None` where the ciphertext fails verification.
pub uninterp spec fn opened(ciphertext: Seq<u8>, nonce: Seq<u8>, key: Seq<u8>) -> Option<Seq<u8>>;

/// The bytes that `rmp_serde::to_vec` gives for an envelope.
pub uninterp spec fn packed(envelope: EnvelopeView) -> Seq<u8>;

/// The envelope that `rmp_serde::from_slice` reads from bytes, or `None` where
/// they hold none.
pub uninterp spec fn unpacked(blob: Seq<u8>) -> Option<EnvelopeView>;

/// `pwhash::gen_salt` fills a salt with random bytes.
#[verifier::external_body]
fn gen_salt() -> (salt: Vec<u8>)
    ensures
        salt@.len() == SALT_BYTES,
{
    pwhash::gen_salt().0.to_vec()
}

/// `secretbox::gen_nonce` fills a nonce with random bytes.
#[verifier::external_body]
fn gen_nonce() -> (nonce: Vec<u8>)
    ensures
        nonce@.len() == NONCE_BYTES,
{
    secretbox::gen_nonce().0.to_vec()
}

/// `pwhash::derive_key` at the interactive limits, into a key of the length
/// that `secretbox` takes. The derivation fails where it cannot complete; a key
/// that comes back depends on the password and the salt alone.
#[verifier::external_body]
fn derive_key(password: &[u8], salt: &Vec<u8>) -> (key: Option<Vec<u8>>)
    requires
        salt@.len() == SALT_BYTES,
    ensures
        match key {
            Some(key) => key@ == derived_key(password@, salt@) && key@.len() == KEY_BYTES,
            None => true,
        },
{
    let salt = pwhash::Salt::from_slice(salt)?;
    let mut key = vec![0u8; secretbox::KEYBYTES];
    pwhash::derive_key(
        &mut key,
        password,
        &salt,
        pwhash::OPSLIMIT_INTERACTIVE,
        pwhash::MEMLIMIT_INTERACTIVE,
    ).ok()?;
    Some(key)
}

/// `secretbox::seal` encrypts and authenticates a message under a nonce and a
/// key. The ciphertext depends on the three alone, and `secretbox::open` gives
/// the message back for it under the same nonce and key.
#[verifier::external_body]
fn seal(message: &[u8], nonce: &Vec<u8>, key: &Vec<u8>) -> (ciphertext: Vec<u8>)
    requires
        nonce@.len() == NONCE_BYTES,
        key@.len() == KEY_BYTES,
    ensures
        ciphertext@ == sealed(message@, nonce@, key@),
        opened(ciphertext@, nonce@, key@) == Some(message@),
{
    let nonce = secretbox::Nonce::from_slice(nonce).unwrap();
    let key = secretbox::Key::from_slice(key).unwrap();
    secretbox::seal(message, &nonce, &key)
}

/// `secretbox::open` verifies and decrypts a ciphertext under a nonce and a
/// key. What comes back depends on the three alone.
#[verifier::external_body]
fn open(ciphertext: &Vec<u8>, nonce: &Vec<u8>, key: &Vec<u8>) -> (message: Option<Vec<u8>>)
    requires
        nonce@.len() == NONCE_BYTES,
        key@.len() == KEY_BYTES,
    ensures
        match message {
            Some(message) => opened(ciphertext@, nonce@, key@) == Some(message@),
            None => opened(ciphertext@, nonce@, key@) is None,
        },
{
    let nonce = secretbox::Nonce::from_slice(nonce).unwrap();
    let key = secretbox::Key::from_slice(key).unwrap();
    secretbox::open(ciphertext, &nonce, &key).ok()
}

/// `rmp_serde::to_vec` on the salt, the nonce and the ciphertext, in this
/// order: one MessagePack array of the three. The bytes depend on the envelope
/// alone, and `rmp_serde::from_slice` reads the envelope back from them.
#[verifier::external_body]
fn pack(envelope: &SecretsEnvelope) -> (blob: Option<Vec<u8>>)
    requires
        well_formed(envelope@),
    ensures
        match blob {
            Some(blob) => blob@ == packed(envelope@) && unpacked(blob@) == Some(envelope@),
            None => true,
        },
{
    let salt = pwhash::Salt::from_slice(&envelope.salt)?;
    let nonce = secretbox::Nonce::from_slice(&envelope.nonce)?;
    rmp_serde::to_vec(&(salt, nonce, &envelope.ciphertext)).ok()
}

/// `rmp_serde::from_slice` into a salt, a nonce and a ciphertext. What comes
/// back depends on the bytes alone; a salt and a nonce have their lengths.
#[verifier::external_body]
fn unpack(blob: &[u8]) -> (envelope: Option<SecretsEnvelope>)
    ensures
        match envelope {
            Some(envelope) => unpacked(blob@) == Some(envelope@) && well_formed(envelope@),
            None => unpacked(blob@) is None,
        },
{
    let (salt, nonce, ciphertext): (pwhash::Salt, secretbox::Nonce, Vec<u8>) =
        rmp_serde::from_slice(blob).ok()?;
    Some(SecretsEnvelope { salt: salt.0.to_vec(), nonce: nonce.0.to_vec(), ciphertext })
}

/// `String::from_utf8` gives the text that the bytes encode, and fails where
/// they are not valid UTF-8.
#[verifier::external_body]
fn text_of(bytes: Vec<u8>) -> (text: Option<String>)
    ensures
        match text {
            Some(text) => valid_utf8(bytes@) && text@ == decode_utf8(bytes@),
            None => !valid_utf8(bytes@),
        },
{
    String::from_utf8(bytes).ok()
}

/// A key together with the salt that it was derived with.
pub struct SaltedKey {
    pub pwsalt: Vec<u8>,
    pub key: Vec<u8>,
}

impl SaltedKey {
    /// Whether the salt and the key have their lengths.
    pub open spec fn well_formed(&self) -> bool {
        self.pwsalt@.len() == SALT_BYTES && self.key@.len() == KEY_BYTES
    }

    /// Whether the key is the one that belongs to `password` and the salt.
    pub open spec fn belongs_to(&self, password: Seq<char>) -> bool {
        self.key@ == derived_key(encode_utf8(password), self.pwsalt@)
    }
}

/// What a plaintext is encrypted to with a salt and a nonce.
pub open spec fn encrypted(
    plaintext: Seq<char>,
    password: Seq<char>,
    salt: Seq<u8>,
    nonce: Seq<u8>,
) -> Seq<u8> {
    packed(
        EnvelopeView {
            salt,
            nonce,
            ciphertext: sealed(
                encode_utf8(plaintext),
                nonce,
                derived_key(encode_utf8(password), salt),
            ),
        },
    )
}

/// What an envelope gives under a key: the text, or why there is none.
pub open spec fn opening(envelope: EnvelopeView, key: Seq<u8>) -> Result<Seq<char>, CryptoError> {
    match opened(envelope.ciphertext, envelope.nonce, key) {
        None => Err(CryptoError::Authentication),
        Some(message) => if valid_utf8(message) {
            Ok(decode_utf8(message))
        } else {
            Err(CryptoError::NotText)
        },
    }
}

/// What the bytes of a secrets file give under a password: the text, or why
/// there is none.
pub open spec fn decrypted(blob: Seq<u8>, password: Seq<char>) -> Result<Seq<char>, CryptoError> {
    match unpacked(blob) {
        None => Err(CryptoError::Malformed),
        Some(envelope) => opening(
            envelope,
            derived_key(encode_utf8(password), envelope.salt),
        ),
    }
}

/// What a result holds.
pub open spec fn text_view(result: Result<String, CryptoError>) -> Result<Seq<char>, CryptoError> {
    match result {
        Ok(text) => Ok(text@),
        Err(error) => Err(error),
    }
}

/// Derives the key for a password with a given salt. `None` where the
/// derivation did not complete.
pub fn gen_salted_key(password: &str, salt: Vec<u8>) -> (salted: Option<SaltedKey>)
    requires
        salt@.len() == SALT_BYTES,
    ensures
        match salted {
            Some(salted) => {
                &&& salted.pwsalt@ == salt@
                &&& salted.well_formed()
                &&& salted.belongs_to(password@)
            },
            None => true,
        },
{
    let derived = derive_key(password.as_bytes(), &salt);
    // the key belongs to the password and to this salt, or there is none
    let salted = salted_key(salt, derived);
    salted
}

/// Derives the key for a password with a fresh random salt. `None` where the
/// derivation did not complete.
pub fn gen_salted_key_random_salt(password: &str) -> (salted: Option<SaltedKey>)
    ensures
        match salted {
            Some(salted) => salted.well_formed() && salted.belongs_to(password@),
            None => true,
        },
{
    let salt = gen_salt();
    gen_salted_key(password, salt)
}

/// What a derivation with a salt has given: the key together with the salt,
/// or nothing where the derivation did not complete.
pub fn salted_key(salt: Vec<u8>, derived: Option<Vec<u8>>) -> (salted: Option<SaltedKey>)
    ensures
        match derived {
            Some(key) => salted matches Some(salted) && salted.pwsalt@ == salt@ && salted.key@
                == key@,
            None => salted is None,
        },
{
    match derived {
        Some(key) => Some(SaltedKey { pwsalt: salt, key }),
        None => None,
    }
}

/// Encrypts a text under a key and a nonce, and puts the result into an
/// envelope with the key's salt.
pub fn seal_envelope(plaintext: &str, salted: SaltedKey, nonce: Vec<u8>) -> (envelope:
    SecretsEnvelope)
    requires
        salted.well_formed(),
        nonce@.len() == NONCE_BYTES,
    ensures
        envelope@ == (EnvelopeView {
            salt: salted.pwsalt@,
            nonce: nonce@,
            ciphertext: sealed(encode_utf8(plaintext@), nonce@, salted.key@),
        }),
        opening(envelope@, salted.key@) == Ok::<Seq<char>, CryptoError>(plaintext@),
{
    let ciphertext = seal(plaintext.as_bytes(), &nonce, &salted.key);
    proof {
        encode_utf8_valid_utf8(plaintext@);
        encode_utf8_decode_utf8(plaintext@);
    }
    SecretsEnvelope { salt: salted.pwsalt, nonce, ciphertext }
}

/// Decrypts the content of an envelope under a key: the text, an
/// authentication failure where the ciphertext does not belong to the key, or
/// `NotText` where what was encrypted is no text.
pub fn open_envelope(envelope: &SecretsEnvelope, salted: &SaltedKey) -> (text: Result<
    String,
    CryptoError,
>)
    requires
        well_formed(envelope@),
        salted.well_formed(),
    ensures
        text_view(text) == opening(envelope@, salted.key@),
{
    match open(&envelope.ciphertext, &envelope.nonce, &salted.key) {
        None => Err(CryptoError::Authentication),
        Some(message) => match text_of(message) {
            Some(text) => Ok(text),
            None => Err(CryptoError::NotText),
        },
    }
}

/// Encrypts a text under a password: a key is derived from the password and a
/// fresh random salt, the text is encrypted and authenticated under the key
/// and a fresh random nonce, and salt, nonce and ciphertext are put into
/// bytes.
///
/// Whatever bytes come back, `decrypt_file` gives the text back for them under
/// the same password.
pub fn encrypt_string(plaintext: &str, password: &str) -> (blob: Result<Vec<u8>, CryptoError>)
    ensures
        match blob {
            Ok(blob) => {
                &&& exists|salt: Seq<u8>, nonce: Seq<u8>|
                    salt.len() == SALT_BYTES && nonce.len() == NONCE_BYTES && blob@
                        == #[trigger] encrypted(plaintext@, password@, salt, nonce)
                &&& decrypted(blob@, password@) == Ok::<Seq<char>, CryptoError>(plaintext@)
            },
            Err(error) => error == CryptoError::KeyDerivation || error == CryptoError::Encoding,
        },
{
    let salted = match gen_salted_key_random_salt(password) {
        Some(salted) => salted,
        None => {
            return Err(CryptoError::KeyDerivation);
        },
    };
    let nonce = gen_nonce();
    let ghost salt = salted.pwsalt@;
    let ghost key = salted.key@;
    let ghost nonce_bytes = nonce@;
    let envelope = seal_envelope(plaintext, salted, nonce);
    match pack(&envelope) {
        Some(blob) => {
            assert(blob@ == encrypted(plaintext@, password@, salt, nonce_bytes));
            Ok(blob)
        },
        None => Err(CryptoError::Encoding),
    }
}

/// Decrypts the bytes of a secrets file under a password: the envelope is
/// read from the bytes, the key is derived from the password and the
/// envelope's salt, and the content is verified and decrypted.
///
/// A wrong password and a changed file both give `Authentication`. But for
/// a key derivation that did not complete, the result is what `decrypted`
/// says.
pub fn decrypt_file(contents: &[u8], password: &str) -> (text: Result<String, CryptoError>)
    ensures
        match text {
            Err(CryptoError::KeyDerivation) => unpacked(contents@) is Some,
            _ => text_view(text) == decrypted(contents@, password@),
        },
{
    let envelope = match unpack(contents) {
        Some(envelope) => envelope,
        None => {
            return Err(CryptoError::Malformed);
        },
    };
    let salted = match gen_salted_key(password, slice_to_vec(envelope.salt.as_slice())) {
        Some(salted) => salted,
        None => {
            return Err(CryptoError::KeyDerivation);
        },
    };
    open_envelope(&envelope, &salted)
}

} // verus!
