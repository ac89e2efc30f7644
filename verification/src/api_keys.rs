//! The list of stored API keys, each sealed under its own password.

use vstd::prelude::*;
use vstd::string::StringSliceAdditionalSpecFns;
use vstd::utf8::encode_utf8;
use crate::crypto::{
    decrypted, default_config, encrypted, random_bytes, ConfigView, CryptoErrorView,
    CryptoManager, EncryptionConfig, NONCE_LEN, SALT_LEN,
};
use crate::storage::{Storage, StorageError, StorageErrorView};
use crate::text::str_eq;

verus! {

/// A stored key: what names it, the sealed key, and how the sealing key was
/// derived.
#[derive(Debug)]
pub struct ApiKey {
    pub id: String,
    pub label: String,
    pub email: Option<String>,
    pub encrypted_key: String,
    pub iterations: u32,
    pub key_length: usize,
    pub algorithm: String,
}

/// The mathematical content of an [`ApiKey`].
pub struct ApiKeyView {
    pub id: Seq<char>,
    pub label: Seq<char>,
    pub email: Option<Seq<char>>,
    pub encrypted_key: Seq<char>,
    pub iterations: u32,
    pub key_length: usize,
    pub algorithm: Seq<char>,
}

impl DeepView for ApiKey {
    type V = ApiKeyView;

    open spec fn deep_view(&self) -> ApiKeyView {
        ApiKeyView {
            id: self.id@,
            label: self.label@,
            email: self.email.deep_view(),
            encrypted_key: self.encrypted_key@,
            iterations: self.iterations,
            key_length: self.key_length,
            algorithm: self.algorithm@,
        }
    }
}

impl View for ApiKey {
    type V = ApiKeyView;

    open spec fn view(&self) -> ApiKeyView {
        self.deep_view()
    }
}

impl Clone for ApiKey {
    fn clone(&self) -> (r: Self)
        ensures
            r@ == self@,
    {
        ApiKey {
            id: self.id.clone(),
            label: self.label.clone(),
            email: self.email.clone(),
            encrypted_key: self.encrypted_key.clone(),
            iterations: self.iterations,
            key_length: self.key_length,
            algorithm: self.algorithm.clone(),
        }
    }
}

impl ApiKey {
    /// How the sealing key of this key was derived.
    pub open spec fn spec_config(self) -> ConfigView {
        ConfigView {
            iterations: self.iterations,
            key_length: self.key_length,
            algorithm: self.algorithm@,
        }
    }

    /// Tells how the sealing key of this key was derived.
    pub fn config(&self) -> (r: EncryptionConfig)
        ensures
            r@ == self.spec_config(),
    {
        EncryptionConfig {
            iterations: self.iterations,
            key_length: self.key_length,
            algorithm: self.algorithm.clone(),
        }
    }
}

/// The iterations of a stored key that names none.
pub fn default_iterations() -> (r: u32)
    ensures
        r == default_config().iterations,
{
    EncryptionConfig::default().iterations
}

/// The key length of a stored key that names none.
pub fn default_key_length() -> (r: usize)
    ensures
        r == default_config().key_length,
{
    EncryptionConfig::default().key_length
}

/// The algorithm of a stored key that names none.
pub fn default_algorithm() -> (r: String)
    ensures
        r@ == default_config().algorithm,
{
    EncryptionConfig::default().algorithm
}

/// The position of the first key with the identifier `id`, or the number of
/// keys where there is none.
pub open spec fn key_position(keys: Seq<ApiKeyView>, id: Seq<char>) -> int
    decreases keys.len(),
{
    if keys.len() == 0 {
        0
    } else if keys[0].id == id {
        0
    } else {
        1 + key_position(keys.drop_first(), id)
    }
}

/// `key_position` finds the first key with the identifier: no key before it
/// has it.
pub proof fn lemma_key_position(keys: Seq<ApiKeyView>, id: Seq<char>)
    ensures
        0 <= key_position(keys, id) <= keys.len(),
        key_position(keys, id) < keys.len() ==> keys[key_position(keys, id)].id == id,
        forall|i: int| 0 <= i < key_position(keys, id) ==> (#[trigger] keys[i]).id != id,
    decreases keys.len(),
{
    if keys.len() > 0 && keys[0].id != id {
        let rest = keys.drop_first();
        lemma_key_position(rest, id);
        assert forall|i: int| 0 <= i < key_position(keys, id) implies (#[trigger] keys[i]).id
            != id by {
            if i > 0 {
                assert(keys[i] == rest[i - 1]);
            }
        }
        if key_position(keys, id) < keys.len() {
            assert(keys[key_position(keys, id)] == rest[key_position(rest, id)]);
        }
    }
}

/// `key` with the given fields replaced.
pub open spec fn updated(
    key: ApiKeyView,
    label: Option<Seq<char>>,
    email: Option<Seq<char>>,
    encrypted_key: Option<Seq<char>>,
    iterations: Option<u32>,
    key_length: Option<usize>,
    algorithm: Option<Seq<char>>,
) -> ApiKeyView {
    ApiKeyView {
        id: key.id,
        label: match label {
            Some(l) => l,
            None => key.label,
        },
        email: match email {
            Some(e) => Some(e),
            None => key.email,
        },
        encrypted_key: match encrypted_key {
            Some(k) => k,
            None => key.encrypted_key,
        },
        iterations: match iterations {
            Some(n) => n,
            None => key.iterations,
        },
        key_length: match key_length {
            Some(n) => n,
            None => key.key_length,
        },
        algorithm: match algorithm {
            Some(a) => a,
            None => key.algorithm,
        },
    }
}

/// `keys` without those that have the identifier `id`.
pub open spec fn without_key(keys: Seq<ApiKeyView>, id: Seq<char>) -> Seq<ApiKeyView>
    decreases keys.len(),
{
    if keys.len() == 0 {
        Seq::empty()
    } else if keys.last().id == id {
        without_key(keys.drop_last(), id)
    } else {
        without_key(keys.drop_last(), id).push(keys.last())
    }
}

/// Finds the first key with the identifier `id`.
pub fn find_key(keys: &Vec<ApiKey>, id: &str) -> (at: usize)
    ensures
        at == key_position(keys.deep_view(), id@),
        at <= keys@.len(),
{
    let ghost all = keys.deep_view();
    let mut i: usize = 0;
    proof {
        lemma_key_position(all, id@);
    }
    while i < keys.len()
        invariant
            i <= keys@.len(),
            all == keys.deep_view(),
            forall|k: int| 0 <= k < i ==> (#[trigger] all[k]).id != id@,
            0 <= key_position(all, id@) <= all.len(),
            key_position(all, id@) < all.len() ==> all[key_position(all, id@)].id == id@,
            forall|k: int| 0 <= k < key_position(all, id@) ==> (#[trigger] all[k]).id != id@,
        decreases keys@.len() - i,
    {
        if str_eq(keys[i].id.as_str(), id) {
            proof {
                assert(all[i as int].id == id@);
            }
            return i;
        }
        i += 1;
    }
    i
}

impl Storage {
    /// Adds a key at the end of the list.
    pub fn add_api_key(
        keys: &mut Vec<ApiKey>,
        id: String,
        label: String,
        encrypted_key: String,
        email: Option<String>,
        config: EncryptionConfig,
    )
        ensures
            final(keys).deep_view() == old(keys).deep_view().push(
                ApiKeyView {
                    id: id@,
                    label: label@,
                    email: email.deep_view(),
                    encrypted_key: encrypted_key@,
                    iterations: config.iterations,
                    key_length: config.key_length,
                    algorithm: config.algorithm@,
                },
            ),
    {
        let key = ApiKey {
            id,
            label,
            email,
            encrypted_key,
            iterations: config.iterations,
            key_length: config.key_length,
            algorithm: config.algorithm,
        };
        keys.push(key);
    }

    /// Gets the first key with the identifier `id`; `NotFound` where there is
    /// none.
    pub fn get_api_key(keys: &Vec<ApiKey>, id: &str) -> (r: Result<ApiKey, StorageError>)
        ensures
            match r {
                Ok(key) => key_position(keys.deep_view(), id@) < keys@.len() && key@
                    == keys.deep_view()[key_position(keys.deep_view(), id@)],
                Err(e) => key_position(keys.deep_view(), id@) == keys@.len() && e@
                    == StorageErrorView::NotFound,
            },
    {
        let at = find_key(keys, id);
        if at < keys.len() {
            Ok(keys[at].clone())
        } else {
            Err(StorageError::NotFound)
        }
    }

    /// Gets the sealed key of the first key with the identifier `id`; `NotFound`
    /// where there is none.
    pub fn get_encrypted_key(keys: &Vec<ApiKey>, id: &str) -> (r: Result<String, StorageError>)
        ensures
            match r {
                Ok(sealed) => key_position(keys.deep_view(), id@) < keys@.len() && sealed@
                    == keys.deep_view()[key_position(keys.deep_view(), id@)].encrypted_key,
                Err(e) => key_position(keys.deep_view(), id@) == keys@.len() && e@
                    == StorageErrorView::NotFound,
            },
    {
        let at = find_key(keys, id);
        if at < keys.len() {
            Ok(keys[at].encrypted_key.clone())
        } else {
            Err(StorageError::NotFound)
        }
    }

    /// Replaces the given fields of the first key with the identifier `id` and
    /// leaves every other key as it is; `NotFound`, with the list unchanged,
    /// where there is no such key.
    pub fn update_api_key(
        keys: &mut Vec<ApiKey>,
        id: &str,
        label: Option<String>,
        email: Option<String>,
        encrypted_key: Option<String>,
        iterations: Option<u32>,
        key_length: Option<usize>,
        algorithm: Option<String>,
    ) -> (r: Result<(), StorageError>)
        ensures
            match r {
                Ok(()) => {
                    let at = key_position(old(keys).deep_view(), id@);
                    at < old(keys)@.len() && final(keys).deep_view() == old(keys).deep_view().update(
                        at,
                        updated(
                            old(keys).deep_view()[at],
                            label.deep_view(),
                            email.deep_view(),
                            encrypted_key.deep_view(),
                            iterations,
                            key_length,
                            algorithm.deep_view(),
                        ),
                    )
                },
                Err(e) => key_position(old(keys).deep_view(), id@) == old(keys)@.len() && e@
                    == StorageErrorView::NotFound && final(keys).deep_view() == old(keys).deep_view(),
            },
    {
        let at = find_key(keys, id);
        if at >= keys.len() {
            return Err(StorageError::NotFound);
        }
        let existing = keys[at].clone();
        let key = ApiKey {
            id: existing.id,
            label: match label {
                Some(l) => l,
                None => existing.label,
            },
            email: match email {
                Some(e) => Some(e),
                None => existing.email,
            },
            encrypted_key: match encrypted_key {
                Some(k) => k,
                None => existing.encrypted_key,
            },
            iterations: match iterations {
                Some(n) => n,
                None => existing.iterations,
            },
            key_length: match key_length {
                Some(n) => n,
                None => existing.key_length,
            },
            algorithm: match algorithm {
                Some(a) => a,
                None => existing.algorithm,
            },
        };
        keys[at] = key;
        Ok(())
    }

    /// Removes every key with the identifier `id`.
    pub fn delete_api_key(keys: &mut Vec<ApiKey>, id: &str)
        ensures
            final(keys).deep_view() == without_key(old(keys).deep_view(), id@),
    {
        let ghost all = keys.deep_view();
        let mut kept: Vec<ApiKey> = Vec::new();
        let mut i: usize = 0;
        while i < keys.len()
            invariant
                i <= keys@.len(),
                all == keys.deep_view(),
                kept.deep_view() == without_key(all.take(i as int), id@),
            decreases keys@.len() - i,
        {
            proof {
                assert(all.take(i + 1).drop_last() =~= all.take(i as int));
            }
            if !str_eq(keys[i].id.as_str(), id) {
                kept.push(keys[i].clone());
            }
            i += 1;
        }
        proof {
            assert(all.take(keys@.len() as int) =~= all);
        }
        *keys = kept;
    }
}

/// After a deletion no key has the deleted identifier, and every key that is
/// left was there before.
pub proof fn lemma_without_key(keys: Seq<ApiKeyView>, id: Seq<char>)
    ensures
        key_position(without_key(keys, id), id) == without_key(keys, id).len(),
        forall|i: int| 0 <= i < without_key(keys, id).len() ==> keys.contains(
            #[trigger] without_key(keys, id)[i],
        ),
        without_key(keys, id).len() <= keys.len(),
    decreases keys.len(),
{
    let kept = without_key(keys, id);
    lemma_key_position(kept, id);
    if keys.len() > 0 {
        let head = keys.drop_last();
        lemma_without_key(head, id);
        let before = without_key(head, id);
        lemma_key_position(before, id);
        assert forall|i: int| 0 <= i < kept.len() implies keys.contains(#[trigger] kept[i]) by {
            if i < before.len() {
                assert(kept[i] == before[i]);
                assert(head.contains(before[i]));
                let k = choose|k: int| 0 <= k < head.len() && head[k] == before[i];
                assert(keys[k] == kept[i]);
            } else {
                assert(keys[keys.len() - 1] == kept[i]);
            }
        }
        if key_position(kept, id) < kept.len() {
            let p = key_position(kept, id);
            if p < before.len() {
                assert(kept[p] == before[p]);
                assert(forall|i: int| 0 <= i < before.len() ==> (#[trigger] before[i]).id != id);
            }
        }
    }
}

/// What sealing a key anew needs and gives.
#[derive(Debug)]
pub struct Resealed {
    pub encrypted_key: String,
    pub iterations: u32,
    pub key_length: usize,
    pub algorithm: String,
}

/// The mathematical content of a [`Resealed`].
pub struct ResealedView {
    pub encrypted_key: Seq<char>,
    pub iterations: u32,
    pub key_length: usize,
    pub algorithm: Seq<char>,
}

impl DeepView for Resealed {
    type V = ResealedView;

    open spec fn deep_view(&self) -> ResealedView {
        ResealedView {
            encrypted_key: self.encrypted_key@,
            iterations: self.iterations,
            key_length: self.key_length,
            algorithm: self.algorithm@,
        }
    }
}

impl View for Resealed {
    type V = ResealedView;

    open spec fn view(&self) -> ResealedView {
        self.deep_view()
    }
}

/// The text of a failure of the encryption.
pub open spec fn failure_text(e: CryptoErrorView) -> Seq<char> {
    match e {
        CryptoErrorView::EncryptionFailed(m) => "Encryption failed: "@ + m,
        CryptoErrorView::DecryptionFailed(m) => "Decryption failed: "@ + m,
        CryptoErrorView::InvalidFormat => "Invalid format"@,
    }
}

/// What the system's failing to give random bytes is reported as.
pub open spec fn no_random_bytes() -> Seq<char> {
    failure_text(CryptoErrorView::EncryptionFailed("no random bytes available"@))
}

/// What sealing the text `plain` under `password` with the configuration
/// `config`, a salt and a nonce gives: the sealed key with the configuration
/// it was sealed with, or the text of the failure.
pub open spec fn sealed_anew(
    config: ConfigView,
    plain: Seq<char>,
    password: Seq<u8>,
    salt: Seq<u8>,
    nonce: Seq<u8>,
) -> Result<ResealedView, Seq<char>> {
    match encrypted(config, encode_utf8(plain), password, salt, nonce) {
        Err(e) => Err(failure_text(e)),
        Ok(text) => Ok(
            ResealedView {
                encrypted_key: text,
                iterations: config.iterations,
                key_length: config.key_length,
                algorithm: config.algorithm,
            },
        ),
    }
}

/// What sealing a stored key anew gives for a salt and a nonce: the key is
/// opened with the current password and the configuration it was sealed
/// with, and what it held is sealed with the new password and the
/// configuration `config`. Where the key does not open, the failure is that
/// of the opening, whatever the salt and the nonce.
pub open spec fn resealed(
    existing: ApiKeyView,
    current_password: Seq<u8>,
    new_password: Seq<u8>,
    config: ConfigView,
    salt: Seq<u8>,
    nonce: Seq<u8>,
) -> Result<ResealedView, Seq<char>> {
    let sealed_with = ConfigView {
        iterations: existing.iterations,
        key_length: existing.key_length,
        algorithm: existing.algorithm,
    };
    match decrypted(sealed_with, existing.encrypted_key, current_password) {
        Err(e) => Err(failure_text(e)),
        Ok(plain) => sealed_anew(config, plain, new_password, salt, nonce),
    }
}

/// The view of a key sealed anew, or of the text of a failure.
pub open spec fn resealed_view(r: Result<Resealed, String>) -> Result<ResealedView, Seq<char>> {
    match r {
        Ok(sealed) => Ok(sealed@),
        Err(message) => Err(message@),
    }
}

/// Seals the text that a stored key held under `password`, with the given
/// salt and nonce.
pub fn seal_anew(
    plain: &str,
    password: &str,
    config: EncryptionConfig,
    salt: &Vec<u8>,
    nonce: &Vec<u8>,
) -> (r: Result<Resealed, String>)
    requires
        salt@.len() == SALT_LEN,
        nonce@.len() == NONCE_LEN,
    ensures
        resealed_view(r) == sealed_anew(config@, plain@, password.spec_bytes(), salt@, nonce@),
        config.key_length != 32 ==> r is Err,
{
    let iterations = config.iterations;
    let key_length = config.key_length;
    let algorithm = config.algorithm.clone();
    let sealer = CryptoManager::new(config);
    match sealer.encrypt_with(plain, password, salt, nonce) {
        Err(e) => Err(e.message()),
        Ok(encrypted_key) => Ok(Resealed { encrypted_key, iterations, key_length, algorithm }),
    }
}

/// Seals a stored key anew under another password, with the given salt and
/// nonce: opens it with the current password and the configuration it was
/// sealed with, and seals what it held with the new password and the
/// configuration now in force. The text of the failure is returned where
/// either step fails; a key that does not open is not sealed.
pub fn reseal_api_key_with(
    existing: &ApiKey,
    current_password: &str,
    new_password: &str,
    config: EncryptionConfig,
    salt: &Vec<u8>,
    nonce: &Vec<u8>,
) -> (r: Result<Resealed, String>)
    requires
        salt@.len() == SALT_LEN,
        nonce@.len() == NONCE_LEN,
    ensures
        resealed_view(r) == resealed(
            existing@,
            current_password.spec_bytes(),
            new_password.spec_bytes(),
            config@,
            salt@,
            nonce@,
        ),
        config.key_length != 32 ==> r is Err,
{
    let opener = CryptoManager::new(existing.config());
    match opener.decrypt(existing.encrypted_key.as_str(), current_password) {
        Err(e) => Err(e.message()),
        Ok(plain) => seal_anew(plain.as_str(), new_password, config, salt, nonce),
    }
}

/// Seals a stored key anew under another password, with a fresh random salt
/// and a fresh random nonce.
///
/// A key that does not open under the current password gives the text of
/// that failure, and no random bytes are drawn. For a key that opens, the
/// result is what [`reseal_api_key_with`] returns for some salt and nonce of
/// the right lengths, or the text of the failure to draw them where the
/// system gave no random bytes.
pub fn reseal_api_key(
    existing: &ApiKey,
    current_password: &str,
    new_password: &str,
    config: EncryptionConfig,
) -> (r: Result<Resealed, String>)
    ensures
        decrypted(existing.spec_config(), existing.encrypted_key@, current_password.spec_bytes())
            matches Err(e) ==> resealed_view(r) == Err::<ResealedView, Seq<char>>(failure_text(e)),
        decrypted(existing.spec_config(), existing.encrypted_key@, current_password.spec_bytes())
            is Ok ==> resealed_view(r) == Err::<ResealedView, Seq<char>>(no_random_bytes())
            || exists|salt: Seq<u8>, nonce: Seq<u8>|
            salt.len() == SALT_LEN && nonce.len() == NONCE_LEN && resealed_view(r)
                == #[trigger] resealed(
                existing@,
                current_password.spec_bytes(),
                new_password.spec_bytes(),
                config@,
                salt,
                nonce,
            ),
        config.key_length != 32 ==> r is Err,
{
    let opener = CryptoManager::new(existing.config());
    let plain = match opener.decrypt(existing.encrypted_key.as_str(), current_password) {
        Err(e) => {
            return Err(e.message());
        },
        Ok(plain) => plain,
    };
    let salt = match random_bytes(SALT_LEN) {
        Some(bytes) => bytes,
        None => {
            return Err(String::from_str("Encryption failed: ").concat("no random bytes available"));
        },
    };
    let nonce = match random_bytes(NONCE_LEN) {
        Some(bytes) => bytes,
        None => {
            return Err(String::from_str("Encryption failed: ").concat("no random bytes available"));
        },
    };
    let r = seal_anew(plain.as_str(), new_password, config, &salt, &nonce);
    proof {
        assert(resealed_view(r) == resealed(
            existing@,
            current_password.spec_bytes(),
            new_password.spec_bytes(),
            config@,
            salt@,
            nonce@,
        ));
    }
    r
}

} // verus!
