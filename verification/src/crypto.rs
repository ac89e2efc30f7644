//! Password-based encryption of secrets.
//!
//! A secret is sealed with AES-256-GCM under a key that PBKDF2 with
//! HMAC-SHA-256 derives from the password and a random salt. The payload is
//! the salt, the nonce and the sealed text in a row, written in base64.

use vstd::prelude::*;
use vstd::utf8::{decode_utf8, valid_utf8};
use vstd::string::StringSliceAdditionalSpecFns;
use vstd::slice::slice_subrange;
use aes_gcm::aead::{Aead, KeyInit};
use rand::RngCore;
use crate::encoding::{
    base64_bytes, base64_text, decode_base64, encode_base64, MAX_ENCODED_INPUT,
};

verus! {

/// The number of bytes of the salt.
pub const SALT_LEN: usize = 16;

/// The number of bytes of the nonce.
pub const NONCE_LEN: usize = 12;

/// What can go wrong with encryption.
#[derive(Debug)]
pub enum CryptoError {
    EncryptionFailed(String),
    DecryptionFailed(String),
    InvalidFormat,
}

/// The mathematical content of a [`CryptoError`].
pub enum CryptoErrorView {
    EncryptionFailed(Seq<char>),
    DecryptionFailed(Seq<char>),
    InvalidFormat,
}

impl DeepView for CryptoError {
    type V = CryptoErrorView;

    open spec fn deep_view(&self) -> CryptoErrorView {
        match self {
            CryptoError::EncryptionFailed(m) => CryptoErrorView::EncryptionFailed(m@),
            CryptoError::DecryptionFailed(m) => CryptoErrorView::DecryptionFailed(m@),
            CryptoError::InvalidFormat => CryptoErrorView::InvalidFormat,
        }
    }
}

impl View for CryptoError {
    type V = CryptoErrorView;

    open spec fn view(&self) -> CryptoErrorView {
        self.deep_view()
    }
}

impl CryptoError {
    /// The text of the error.
    pub fn message(&self) -> (r: String)
        ensures
            r@ == match self@ {
                CryptoErrorView::EncryptionFailed(m) => "Encryption failed: "@ + m,
                CryptoErrorView::DecryptionFailed(m) => "Decryption failed: "@ + m,
                CryptoErrorView::InvalidFormat => "Invalid format"@,
            },
    {
        match self {
            CryptoError::EncryptionFailed(m) => String::from_str("Encryption failed: ").concat(
                m.as_str(),
            ),
            CryptoError::DecryptionFailed(m) => String::from_str("Decryption failed: ").concat(
                m.as_str(),
            ),
            CryptoError::InvalidFormat => String::from_str("Invalid format"),
        }
    }
}

/// How keys are derived.
#[derive(Debug)]
pub struct EncryptionConfig {
    pub iterations: u32,
    pub key_length: usize,
    pub algorithm: String,
}

/// The mathematical content of an [`EncryptionConfig`].
pub struct ConfigView {
    pub iterations: u32,
    pub key_length: usize,
    pub algorithm: Seq<char>,
}

impl DeepView for EncryptionConfig {
    type V = ConfigView;

    open spec fn deep_view(&self) -> ConfigView {
        ConfigView {
            iterations: self.iterations,
            key_length: self.key_length,
            algorithm: self.algorithm@,
        }
    }
}

impl View for EncryptionConfig {
    type V = ConfigView;

    open spec fn view(&self) -> ConfigView {
        self.deep_view()
    }
}

impl Clone for EncryptionConfig {
    fn clone(&self) -> (r: Self)
        ensures
            r@ == self@,
    {
        EncryptionConfig {
            iterations: self.iterations,
            key_length: self.key_length,
            algorithm: self.algorithm.clone(),
        }
    }
}

/// The configuration used where none is given: 100000 iterations and a key
/// of 32 bytes for AES-256-GCM.
pub open spec fn default_config() -> ConfigView {
    ConfigView { iterations: 100_000, key_length: 32, algorithm: "AES-256-GCM"@ }
}

impl Default for EncryptionConfig {
    fn default() -> (r: Self)
        ensures
            r@ == default_config(),
    {
        EncryptionConfig {
            iterations: 100_000,
            key_length: 32,
            algorithm: String::from_str("AES-256-GCM"),
        }
    }
}

/// The key of `length` bytes that PBKDF2 with HMAC-SHA-256 derives from a
/// password and a salt in the given number of iterations.
pub uninterp spec fn derived_key(
    password: Seq<u8>,
    salt: Seq<u8>,
    iterations: u32,
    length: nat,
) -> Seq<u8>;

/// What sealing a text with AES-256-GCM under a key and a nonce gives: the
/// sealed text with its tag, or the text of the failure.
pub uninterp spec fn sealed(key: Seq<u8>, nonce: Seq<u8>, plaintext: Seq<u8>) -> Result<
    Seq<u8>,
    Seq<char>,
>;

/// What opening a sealed text with AES-256-GCM under a key and a nonce
/// gives: the text, or the text of the failure.
pub uninterp spec fn opened(key: Seq<u8>, nonce: Seq<u8>, ciphertext: Seq<u8>) -> Result<
    Seq<u8>,
    Seq<char>,
>;

/// Calls `pbkdf2::pbkdf2_hmac` with SHA-256 on a buffer of `key_length`
/// bytes. The result has that length and depends on the arguments alone; the
/// contract gives it a name.
#[verifier::external_body]
pub(crate) fn derive_key(password: &[u8], salt: &[u8], iterations: u32, key_length: usize) -> (key:
    Vec<u8>)
    ensures
        key@ == derived_key(password@, salt@, iterations, key_length as nat),
        key@.len() == key_length,
{
    let mut key = vec![0u8; key_length];
    pbkdf2::pbkdf2_hmac::<sha2::Sha256>(password, salt, iterations, &mut key);
    key
}

/// Makes an `aes_gcm::Aes256Gcm` from the key and calls its `encrypt`. A key
/// that is not 32 bytes long is refused. Else the result depends on the
/// arguments alone; the contract gives it a name. An error comes back as its
/// text.
#[verifier::external_body]
pub(crate) fn seal(key: &[u8], nonce: &[u8], plaintext: &[u8]) -> (r: Result<Vec<u8>, String>)
    requires
        nonce@.len() == NONCE_LEN,
    ensures
        match r {
            Ok(ciphertext) => sealed(key@, nonce@, plaintext@) == Ok::<Seq<u8>, Seq<char>>(
                ciphertext@,
            ),
            Err(message) => sealed(key@, nonce@, plaintext@) == Err::<Seq<u8>, Seq<char>>(
                message@,
            ),
        },
        key@.len() != 32 ==> r is Err,
{
    let cipher = aes_gcm::Aes256Gcm::new_from_slice(key).map_err(|e| e.to_string())?;
    cipher.encrypt(aes_gcm::Nonce::from_slice(nonce), plaintext).map_err(|e| e.to_string())
}

/// Makes an `aes_gcm::Aes256Gcm` from the key and calls its `decrypt`. A key
/// that is not 32 bytes long is refused. Else the result depends on the
/// arguments alone; the contract gives it a name. An error comes back as its
/// text.
#[verifier::external_body]
pub(crate) fn open(key: &[u8], nonce: &[u8], ciphertext: &[u8]) -> (r: Result<Vec<u8>, String>)
    requires
        nonce@.len() == NONCE_LEN,
    ensures
        match r {
            Ok(plaintext) => opened(key@, nonce@, ciphertext@) == Ok::<Seq<u8>, Seq<char>>(
                plaintext@,
            ),
            Err(message) => opened(key@, nonce@, ciphertext@) == Err::<Seq<u8>, Seq<char>>(
                message@,
            ),
        },
        key@.len() != 32 ==> r is Err,
{
    let cipher = aes_gcm::Aes256Gcm::new_from_slice(key).map_err(|e| e.to_string())?;
    cipher.decrypt(aes_gcm::Nonce::from_slice(nonce), ciphertext).map_err(|e| e.to_string())
}

/// Calls `try_fill_bytes` of `rand::rngs::OsRng` on a buffer of `count`
/// bytes. What the bytes are is left open; `None` stands for a failure of the
/// system's source of randomness.
#[verifier::external_body]
pub(crate) fn random_bytes(count: usize) -> (r: Option<Vec<u8>>)
    ensures
        r matches Some(bytes) ==> bytes@.len() == count,
{
    let mut bytes = vec![0u8; count];
    rand::rngs::OsRng.try_fill_bytes(&mut bytes).ok().map(|_| bytes)
}

/// Calls `String::from_utf8`: the text that the bytes spell in UTF-8, and
/// `None` where they are not well-formed UTF-8.
#[verifier::external_body]
pub(crate) fn text_of_utf8(bytes: Vec<u8>) -> (r: Option<String>)
    ensures
        match r {
            Some(text) => valid_utf8(bytes@) && text@ == decode_utf8(bytes@),
            None => !valid_utf8(bytes@),
        },
{
    String::from_utf8(bytes).ok()
}

/// What [`CryptoManager::encrypt_with`] returns for a salt and a nonce.
pub open spec fn encrypted(
    config: ConfigView,
    data: Seq<u8>,
    password: Seq<u8>,
    salt: Seq<u8>,
    nonce: Seq<u8>,
) -> Result<Seq<char>, CryptoErrorView> {
    let key = derived_key(password, salt, config.iterations, config.key_length as nat);
    match sealed(key, nonce, data) {
        Err(message) => Err(CryptoErrorView::EncryptionFailed(message)),
        Ok(ciphertext) => if salt.len() + nonce.len() + ciphertext.len() > MAX_ENCODED_INPUT {
            Err(CryptoErrorView::EncryptionFailed("payload too large"@))
        } else {
            Ok(base64_text(salt + nonce + ciphertext))
        },
    }
}

/// What [`CryptoManager::decrypt`] returns.
pub open spec fn decrypted(config: ConfigView, encrypted: Seq<char>, password: Seq<u8>) -> Result<
    Seq<char>,
    CryptoErrorView,
> {
    match base64_bytes(encrypted) {
        Err(_) => Err(CryptoErrorView::InvalidFormat),
        Ok(data) => if data.len() < SALT_LEN + NONCE_LEN {
            Err(CryptoErrorView::InvalidFormat)
        } else {
            let salt = data.subrange(0, SALT_LEN as int);
            let nonce = data.subrange(SALT_LEN as int, SALT_LEN + NONCE_LEN);
            let ciphertext = data.subrange(SALT_LEN + NONCE_LEN, data.len() as int);
            let key = derived_key(password, salt, config.iterations, config.key_length as nat);
            match opened(key, nonce, ciphertext) {
                Err(message) => Err(CryptoErrorView::DecryptionFailed(message)),
                Ok(plaintext) => if valid_utf8(plaintext) {
                    Ok(decode_utf8(plaintext))
                } else {
                    Err(CryptoErrorView::DecryptionFailed("Invalid UTF-8"@))
                },
            }
        },
    }
}

/// The view of a result of text or error.
pub open spec fn result_view(r: Result<String, CryptoError>) -> Result<Seq<char>, CryptoErrorView> {
    match r {
        Ok(text) => Ok(text@),
        Err(e) => Err(e@),
    }
}

/// Encrypts and decrypts with one configuration.
#[derive(Debug)]
pub struct CryptoManager {
    pub(crate) config: EncryptionConfig,
}

impl View for CryptoManager {
    type V = ConfigView;

    closed spec fn view(&self) -> ConfigView {
        self.config@
    }
}

impl Default for CryptoManager {
    fn default() -> (r: Self)
        ensures
            r@ == default_config(),
    {
        CryptoManager { config: EncryptionConfig::default() }
    }
}

impl CryptoManager {
    /// A manager with the given configuration.
    pub fn new(config: EncryptionConfig) -> (r: Self)
        ensures
            r@ == config@,
    {
        CryptoManager { config }
    }

    /// The configuration in use.
    pub fn get_config(&self) -> (r: EncryptionConfig)
        ensures
            r@ == self@,
    {
        self.config.clone()
    }

    /// Replaces the configuration.
    pub fn update_config(&mut self, config: EncryptionConfig)
        ensures
            final(self)@ == config@,
    {
        self.config = config;
    }

    /// Encrypts `data` under `password` with the given salt and nonce.
    ///
    /// Fails with `EncryptionFailed` where the cipher refuses, as it does
    /// for a configured key length other than 32, and where the payload
    /// would be too large to be written in base64.
    pub fn encrypt_with(&self, data: &str, password: &str, salt: &Vec<u8>, nonce: &Vec<u8>) -> (r:
        Result<String, CryptoError>)
        requires
            salt@.len() == SALT_LEN,
            nonce@.len() == NONCE_LEN,
        ensures
            result_view(r) == encrypted(
                self@,
                data.spec_bytes(),
                password.spec_bytes(),
                salt@,
                nonce@,
            ),
            self@.key_length != 32 ==> r is Err,
    {
        let key = derive_key(
            password.as_bytes(),
            salt.as_slice(),
            self.config.iterations,
            self.config.key_length,
        );
        let ciphertext = match seal(key.as_slice(), nonce.as_slice(), data.as_bytes()) {
            Err(message) => {
                return Err(CryptoError::EncryptionFailed(message));
            },
            Ok(ciphertext) => ciphertext,
        };
        if ciphertext.len() > MAX_ENCODED_INPUT - SALT_LEN - NONCE_LEN {
            return Err(CryptoError::EncryptionFailed(String::from_str("payload too large")));
        }
        let mut payload: Vec<u8> = Vec::new();
        let mut i: usize = 0;
        while i < SALT_LEN
            invariant
                i <= SALT_LEN == salt@.len(),
                payload@ == salt@.take(i as int),
            decreases SALT_LEN - i,
        {
            payload.push(salt[i]);
            i += 1;
        }
        let mut j: usize = 0;
        while j < NONCE_LEN
            invariant
                j <= NONCE_LEN == nonce@.len(),
                payload@ == salt@ + nonce@.take(j as int),
            decreases NONCE_LEN - j,
        {
            payload.push(nonce[j]);
            j += 1;
        }
        let mut k: usize = 0;
        while k < ciphertext.len()
            invariant
                k <= ciphertext@.len(),
                payload@ == salt@ + nonce@ + ciphertext@.take(k as int),
            decreases ciphertext@.len() - k,
        {
            payload.push(ciphertext[k]);
            k += 1;
        }
        proof {
            assert(ciphertext@.take(ciphertext@.len() as int) =~= ciphertext@);
        }
        Ok(encode_base64(payload.as_slice()))
    }

    /// Encrypts `data` under `password` with a fresh random salt and a fresh
    /// random nonce. The result is what [`CryptoManager::encrypt_with`]
    /// returns for some salt and nonce of the right lengths, or
    /// `EncryptionFailed` where the system gave no random bytes.
    pub fn encrypt(&self, data: &str, password: &str) -> (r: Result<String, CryptoError>)
        ensures
            r matches Ok(text) ==> exists|salt: Seq<u8>, nonce: Seq<u8>|
                salt.len() == SALT_LEN && nonce.len() == NONCE_LEN && #[trigger] encrypted(
                    self@,
                    data.spec_bytes(),
                    password.spec_bytes(),
                    salt,
                    nonce,
                ) == Ok::<Seq<char>, CryptoErrorView>(text@),
            r matches Err(e) ==> e@ is EncryptionFailed,
            self@.key_length != 32 ==> r is Err,
    {
        let salt = match random_bytes(SALT_LEN) {
            Some(bytes) => bytes,
            None => {
                return Err(
                    CryptoError::EncryptionFailed(String::from_str("no random bytes available")),
                );
            },
        };
        let nonce = match random_bytes(NONCE_LEN) {
            Some(bytes) => bytes,
            None => {
                return Err(
                    CryptoError::EncryptionFailed(String::from_str("no random bytes available")),
                );
            },
        };
        self.encrypt_with(data, password, &salt, &nonce)
    }

    /// Decrypts a payload under `password`.
    ///
    /// Fails with `InvalidFormat` where the payload is not base64 or holds
    /// fewer than 28 bytes, and with `DecryptionFailed` where the cipher
    /// refuses, as it does for a wrong password, or where the text is not
    /// UTF-8.
    pub fn decrypt(&self, encrypted: &str, password: &str) -> (r: Result<String, CryptoError>)
        ensures
            result_view(r) == decrypted(self@, encrypted@, password.spec_bytes()),
    {
        let data = match decode_base64(encrypted) {
            Err(_) => {
                return Err(CryptoError::InvalidFormat);
            },
            Ok(data) => data,
        };
        if data.len() < SALT_LEN + NONCE_LEN {
            return Err(CryptoError::InvalidFormat);
        }
        let salt = slice_subrange(data.as_slice(), 0, SALT_LEN);
        let nonce = slice_subrange(data.as_slice(), SALT_LEN, SALT_LEN + NONCE_LEN);
        let ciphertext = slice_subrange(data.as_slice(), SALT_LEN + NONCE_LEN, data.len());
        let key = derive_key(
            password.as_bytes(),
            salt,
            self.config.iterations,
            self.config.key_length,
        );
        match open(key.as_slice(), nonce, ciphertext) {
            Err(message) => Err(CryptoError::DecryptionFailed(message)),
            Ok(plaintext) => match text_of_utf8(plaintext) {
                Some(text) => Ok(text),
                None => Err(CryptoError::DecryptionFailed(String::from_str("Invalid UTF-8"))),
            },
        }
    }
}

} // verus!
