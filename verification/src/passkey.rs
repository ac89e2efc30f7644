//! Passkeys: the challenges that are out, what a client's answer must show,
//! and how the stored credentials are matched and listed.
//!
//! The credentials themselves travel as JSON. This module works on what the
//! rules read of them: the two identifiers and the counter.

use vstd::prelude::*;
use vstd::string::StringSliceAdditionalSpecFns;
use crate::crypto::random_bytes;
use crate::encoding::{
    base64_bytes, base64url_bytes, base64url_text, base64url_unpadded_bytes, decode_base64,
    decode_base64url, decode_base64url_unpadded, encode_base64url,
};
use crate::json::{json_field, read_json_field};
use crate::storage::Storage;
use crate::text::{decimal, decimal_text, str_eq};

verus! {

/// The number of random bytes in a challenge and in a token.
pub const CHALLENGE_LEN: usize = 32;

/// How long a client has to answer, in milliseconds.
pub const PASSKEY_TIMEOUT_MS: u32 = 60000;

/// What can go wrong with passkeys.
#[derive(Debug)]
pub enum PasskeyError {
    Error(String),
    NotFound,
}

/// The mathematical content of a [`PasskeyError`].
pub enum PasskeyErrorView {
    Error(Seq<char>),
    NotFound,
}

impl DeepView for PasskeyError {
    type V = PasskeyErrorView;

    open spec fn deep_view(&self) -> PasskeyErrorView {
        match self {
            PasskeyError::Error(m) => PasskeyErrorView::Error(m@),
            PasskeyError::NotFound => PasskeyErrorView::NotFound,
        }
    }
}

impl View for PasskeyError {
    type V = PasskeyErrorView;

    open spec fn view(&self) -> PasskeyErrorView {
        self.deep_view()
    }
}

impl PasskeyError {
    /// The text of the error.
    pub fn message(&self) -> (r: String)
        ensures
            r@ == match self@ {
                PasskeyErrorView::Error(m) => "Passkey error: "@ + m,
                PasskeyErrorView::NotFound => "Not found"@,
            },
    {
        match self {
            PasskeyError::Error(m) => String::from_str("Passkey error: ").concat(m.as_str()),
            PasskeyError::NotFound => String::from_str("Not found"),
        }
    }
}

/// What the rules read of a stored credential or of a client's answer.
#[derive(Debug)]
pub struct Credential {
    pub id: Option<String>,
    pub raw_id: Option<String>,
    pub counter: Option<u64>,
}

/// The mathematical content of a [`Credential`].
pub struct CredentialView {
    pub id: Option<Seq<char>>,
    pub raw_id: Option<Seq<char>>,
    pub counter: Option<u64>,
}

impl DeepView for Credential {
    type V = CredentialView;

    open spec fn deep_view(&self) -> CredentialView {
        CredentialView {
            id: self.id.deep_view(),
            raw_id: self.raw_id.deep_view(),
            counter: self.counter,
        }
    }
}

impl View for Credential {
    type V = CredentialView;

    open spec fn view(&self) -> CredentialView {
        self.deep_view()
    }
}

/// A credential as it is listed.
#[derive(Debug)]
pub struct PasskeySummary {
    pub id: String,
    pub counter: u64,
}

/// The mathematical content of a [`PasskeySummary`].
pub struct SummaryView {
    pub id: Seq<char>,
    pub counter: u64,
}

impl DeepView for PasskeySummary {
    type V = SummaryView;

    open spec fn deep_view(&self) -> SummaryView {
        SummaryView { id: self.id@, counter: self.counter }
    }
}

impl View for PasskeySummary {
    type V = SummaryView;

    open spec fn view(&self) -> SummaryView {
        self.deep_view()
    }
}

/// The challenge that is out for an identity.
#[derive(Debug)]
pub struct Pending {
    pub id: String,
    pub challenge: String,
}

/// The mathematical content of a [`Pending`].
pub struct PendingView {
    pub id: Seq<char>,
    pub challenge: Seq<char>,
}

impl DeepView for Pending {
    type V = PendingView;

    open spec fn deep_view(&self) -> PendingView {
        PendingView { id: self.id@, challenge: self.challenge@ }
    }
}

impl View for Pending {
    type V = PendingView;

    open spec fn view(&self) -> PendingView {
        self.deep_view()
    }
}

/// The challenge that the last of `pending` for `id` holds.
pub open spec fn challenge_for(pending: Seq<PendingView>, id: Seq<char>) -> Option<Seq<char>>
    decreases pending.len(),
{
    if pending.len() == 0 {
        None
    } else if pending.last().id == id {
        Some(pending.last().challenge)
    } else {
        challenge_for(pending.drop_last(), id)
    }
}

/// `pending` without the challenges for `id`.
pub open spec fn without_id(pending: Seq<PendingView>, id: Seq<char>) -> Seq<PendingView>
    decreases pending.len(),
{
    if pending.len() == 0 {
        Seq::empty()
    } else if pending.last().id == id {
        without_id(pending.drop_last(), id)
    } else {
        without_id(pending.drop_last(), id).push(pending.last())
    }
}

/// Removing the challenges for one identity leaves it without a challenge
/// and changes the challenge of no other.
pub proof fn lemma_without_id(pending: Seq<PendingView>, id: Seq<char>, other: Seq<char>)
    ensures
        challenge_for(without_id(pending, id), id) is None,
        other != id ==> challenge_for(without_id(pending, id), other) == challenge_for(
            pending,
            other,
        ),
    decreases pending.len(),
{
    if pending.len() > 0 {
        lemma_without_id(pending.drop_last(), id, other);
        if pending.last().id != id {
            let kept = without_id(pending, id);
            assert(kept.drop_last() =~= without_id(pending.drop_last(), id));
            assert(kept.last() == pending.last());
        }
    }
}

/// The challenge that a client's data carries.
///
/// The data is base64, read as URL-safe without padding, else as URL-safe
/// with padding, else as standard; the bytes are JSON with the challenge as
/// a text under `challenge`.
pub open spec fn client_challenge(client_data: Option<Seq<char>>) -> Result<
    Seq<char>,
    PasskeyErrorView,
> {
    match client_data {
        None => Err(PasskeyErrorView::Error("Missing clientDataJSON"@)),
        Some(text) => {
            let decoded = match base64url_unpadded_bytes(text) {
                Ok(bytes) => Ok(bytes),
                Err(_) => match base64url_bytes(text) {
                    Ok(bytes) => Ok(bytes),
                    Err(_) => base64_bytes(text),
                },
            };
            match decoded {
                Err(message) => Err(PasskeyErrorView::Error(message)),
                Ok(bytes) => match json_field(bytes, "challenge"@) {
                    Err(message) => Err(PasskeyErrorView::Error(message)),
                    Ok(None) => Err(PasskeyErrorView::Error("Missing challenge"@)),
                    Ok(Some(challenge)) => Ok(challenge),
                },
            }
        },
    }
}

/// Reads the challenge out of a client's data, which is the text under
/// `response.clientDataJSON` of its answer, if there is one.
pub fn extract_client_challenge(client_data: Option<&str>) -> (r: Result<String, PasskeyError>)
    ensures
        match r {
            Ok(challenge) => client_challenge(client_data.deep_view()) == Ok::<
                Seq<char>,
                PasskeyErrorView,
            >(challenge@),
            Err(e) => client_challenge(client_data.deep_view()) == Err::<
                Seq<char>,
                PasskeyErrorView,
            >(e@),
        },
{
    let text = match client_data {
        None => {
            return Err(PasskeyError::Error(String::from_str("Missing clientDataJSON")));
        },
        Some(text) => text,
    };
    let decoded = match decode_base64url_unpadded(text) {
        Ok(bytes) => Ok(bytes),
        Err(_) => match decode_base64url(text) {
            Ok(bytes) => Ok(bytes),
            Err(_) => decode_base64(text),
        },
    };
    let bytes = match decoded {
        Err(message) => {
            return Err(PasskeyError::Error(message));
        },
        Ok(bytes) => bytes,
    };
    match read_json_field(bytes.as_slice(), "challenge") {
        Err(message) => Err(PasskeyError::Error(message)),
        Ok(None) => Err(PasskeyError::Error(String::from_str("Missing challenge"))),
        Ok(Some(challenge)) => Ok(challenge),
    }
}

/// Whether `credential` goes by the identifier `wanted`.
pub open spec fn goes_by(credential: CredentialView, wanted: Seq<char>) -> bool {
    credential.raw_id == Some(wanted) || credential.id == Some(wanted)
}

/// Whether one of `stored` goes by the identifier `wanted`.
pub open spec fn any_goes_by(stored: Seq<CredentialView>, wanted: Seq<char>) -> bool {
    exists|i: int| 0 <= i < stored.len() && goes_by(#[trigger] stored[i], wanted)
}

/// The identifier that an answer presents: its raw identifier, else its
/// identifier.
pub open spec fn presented_id(answer: CredentialView) -> Option<Seq<char>> {
    match answer.raw_id {
        Some(raw) => Some(raw),
        None => answer.id,
    }
}

/// Whether a client's answer passes: and if not, why.
///
/// There must be a challenge out for the identity, else `NotFound`. The
/// client's data must carry a challenge, and it must be that one, else
/// `Challenge mismatch`. With `stored` given, which is the case for a login,
/// there must be a stored credential, and where the answer presents an
/// identifier one of the stored must go by it, else `NotFound`.
pub open spec fn answer_checked(
    expected: Option<Seq<char>>,
    client_data: Option<Seq<char>>,
    answer: CredentialView,
    stored: Option<Seq<CredentialView>>,
) -> Result<(), PasskeyErrorView> {
    match expected {
        None => Err(PasskeyErrorView::NotFound),
        Some(challenge) => match client_challenge(client_data) {
            Err(e) => Err(e),
            Ok(presented) => if presented != challenge {
                Err(PasskeyErrorView::Error("Challenge mismatch"@))
            } else {
                match stored {
                    None => Ok(()),
                    Some(list) => if list.len() == 0 {
                        Err(PasskeyErrorView::NotFound)
                    } else {
                        match presented_id(answer) {
                            Some(wanted) => if any_goes_by(list, wanted) {
                                Ok(())
                            } else {
                                Err(PasskeyErrorView::NotFound)
                            },
                            None => Ok(()),
                        }
                    },
                }
            },
        },
    }
}

/// Tells whether an optional text is the text `wanted`.
pub fn is_text(value: &Option<String>, wanted: &str) -> (r: bool)
    ensures
        r == (value.deep_view() == Some(wanted@)),
{
    match value {
        Some(text) => str_eq(text.as_str(), wanted),
        None => false,
    }
}

/// Tells whether one of `stored` goes by the identifier `wanted`.
pub fn has_credential(stored: &Vec<Credential>, wanted: &str) -> (r: bool)
    ensures
        r == any_goes_by(stored.deep_view(), wanted@),
{
    let ghost all = stored.deep_view();
    let mut i: usize = 0;
    while i < stored.len()
        invariant
            i <= stored@.len(),
            all == stored.deep_view(),
            forall|k: int| 0 <= k < i ==> !goes_by(#[trigger] all[k], wanted@),
        decreases stored@.len() - i,
    {
        if is_text(&stored[i].raw_id, wanted) || is_text(&stored[i].id, wanted) {
            proof {
                assert(goes_by(all[i as int], wanted@));
            }
            return true;
        }
        i += 1;
    }
    false
}

/// The credentials that stay when the one that goes by `credential_id`
/// is deleted: the positions of those of `stored` that do not go by it.
pub open spec fn remaining(stored: Seq<CredentialView>, credential_id: Seq<char>) -> Seq<usize>
    decreases stored.len(),
{
    if stored.len() == 0 {
        Seq::empty()
    } else if goes_by(stored.last(), credential_id) {
        remaining(stored.drop_last(), credential_id)
    } else {
        remaining(stored.drop_last(), credential_id).push((stored.len() - 1) as usize)
    }
}

/// Lists the positions of the credentials that stay when those that go by
/// `credential_id` are deleted.
pub fn remaining_passkeys(stored: &Vec<Credential>, credential_id: &str) -> (r: Vec<usize>)
    ensures
        r@ == remaining(stored.deep_view(), credential_id@),
{
    let ghost all = stored.deep_view();
    let mut out: Vec<usize> = Vec::new();
    let mut i: usize = 0;
    while i < stored.len()
        invariant
            i <= stored@.len(),
            all == stored.deep_view(),
            out@ == remaining(all.take(i as int), credential_id@),
        decreases stored@.len() - i,
    {
        proof {
            assert(all.take(i + 1).drop_last() =~= all.take(i as int));
        }
        if !(is_text(&stored[i].raw_id, credential_id) || is_text(&stored[i].id, credential_id)) {
            out.push(i);
        }
        i += 1;
    }
    proof {
        assert(all.take(stored@.len() as int) =~= all);
    }
    out
}

/// The summary of the credential at position `index`: its identifier, or
/// `cred_` and the position where it has none, and its counter, or 0.
pub open spec fn summary_of(credential: CredentialView, index: nat) -> SummaryView {
    SummaryView {
        id: match credential.id {
            Some(id) => id,
            None => "cred_"@ + decimal(index),
        },
        counter: match credential.counter {
            Some(n) => n,
            None => 0,
        },
    }
}

/// Lists the stored credentials, each by its identifier and counter.
pub fn passkey_summaries(stored: &Vec<Credential>) -> (r: Vec<PasskeySummary>)
    ensures
        r@.len() == stored@.len(),
        forall|i: int| 0 <= i < stored@.len() ==> (#[trigger] r@[i])@ == summary_of(stored@[i]@, i as nat),
{
    let mut out: Vec<PasskeySummary> = Vec::new();
    let mut i: usize = 0;
    while i < stored.len()
        invariant
            i <= stored@.len(),
            out@.len() == i,
            forall|k: int| 0 <= k < i ==> (#[trigger] out@[k])@ == summary_of(stored@[k]@, k as nat),
        decreases stored@.len() - i,
    {
        let id = match &stored[i].id {
            Some(id) => id.clone(),
            None => String::from_str("cred_").concat(decimal_text(i as u64).as_str()),
        };
        let counter = match stored[i].counter {
            Some(n) => n,
            None => 0,
        };
        out.push(PasskeySummary { id, counter });
        i += 1;
    }
    out
}

/// The identifiers that a login may use: of each stored credential its
/// identifier, else its raw identifier; a credential with neither is left
/// out.
pub open spec fn allowed_ids(stored: Seq<CredentialView>) -> Seq<Seq<char>>
    decreases stored.len(),
{
    if stored.len() == 0 {
        Seq::empty()
    } else {
        let before = allowed_ids(stored.drop_last());
        match stored.last().id {
            Some(id) => before.push(id),
            None => match stored.last().raw_id {
                Some(raw) => before.push(raw),
                None => before,
            },
        }
    }
}

/// Lists the identifiers that a login may use.
pub fn allowed_credentials(stored: &Vec<Credential>) -> (r: Vec<String>)
    ensures
        r.deep_view() == allowed_ids(stored.deep_view()),
{
    let ghost all = stored.deep_view();
    let mut out: Vec<String> = Vec::new();
    let mut i: usize = 0;
    while i < stored.len()
        invariant
            i <= stored@.len(),
            all == stored.deep_view(),
            out.deep_view() == allowed_ids(all.take(i as int)),
        decreases stored@.len() - i,
    {
        proof {
            assert(all.take(i + 1).drop_last() =~= all.take(i as int));
        }
        match &stored[i].id {
            Some(id) => {
                out.push(id.clone());
            },
            None => match &stored[i].raw_id {
                Some(raw) => {
                    out.push(raw.clone());
                },
                None => {},
            },
        }
        i += 1;
    }
    proof {
        assert(all.take(stored@.len() as int) =~= all);
    }
    out
}

/// What a client is sent to register a passkey or to log in.
#[derive(Debug)]
pub struct PasskeyOptions {
    /// The challenge to answer.
    pub challenge: String,
    /// The identity in URL-safe base64 without padding.
    pub user_id: String,
    /// How long the client has to answer, in milliseconds.
    pub timeout_ms: u32,
    /// The identifiers that a login may use; none for a registration.
    pub allow_credentials: Vec<String>,
}

/// Keeps the challenges that are out, one for each identity at most, and the
/// store that the credentials are kept in.
#[derive(Debug)]
pub struct PasskeyManager {
    pub(crate) challenges: Vec<Pending>,
    pub(crate) storage: Storage,
}

impl PasskeyManager {
    /// The challenges that are out.
    pub closed spec fn pending(&self) -> Seq<PendingView> {
        self.challenges.deep_view()
    }

    /// What the store of the credentials holds in memory.
    pub closed spec fn stored(&self) -> Seq<crate::storage::SecretView> {
        self.storage@
    }

    /// Whether the store of the credentials tries the keyring first.
    pub closed spec fn keeps_in_keyring(&self) -> bool {
        self.storage.wants_keyring()
    }

    /// The challenge that is out for `id`.
    pub open spec fn expected(&self, id: Seq<char>) -> Option<Seq<char>> {
        challenge_for(self.pending(), id)
    }

    /// A manager with no challenge out.
    pub fn new(storage: Storage) -> (r: Self)
        ensures
            forall|id: Seq<char>| r.expected(id) is None,
            r.stored() == storage@,
            r.keeps_in_keyring() == storage.wants_keyring(),
    {
        let challenges: Vec<Pending> = Vec::new();
        PasskeyManager { challenges, storage }
    }

    /// The store that the credentials are kept in.
    pub fn storage(&self) -> (r: &Storage)
        ensures
            r@ == self.stored(),
            r.wants_keyring() == self.keeps_in_keyring(),
    {
        &self.storage
    }

    /// Lists the stored credentials: each by its identifier, or by `cred_`
    /// and its position where it has none, with its counter, or 0.
    pub fn list_passkeys(&self, stored: &Vec<Credential>) -> (r: Vec<PasskeySummary>)
        ensures
            r@.len() == stored@.len(),
            forall|i: int|
                0 <= i < stored@.len() ==> (#[trigger] r@[i])@ == summary_of(stored@[i]@, i as nat),
    {
        passkey_summaries(stored)
    }

    /// Lists the positions of the stored credentials that stay when those
    /// that go by `credential_id` are deleted.
    pub fn delete_passkey(&self, stored: &Vec<Credential>, credential_id: &str) -> (r: Vec<usize>)
        ensures
            r@ == remaining(stored.deep_view(), credential_id@),
    {
        remaining_passkeys(stored, credential_id)
    }

    /// Looks up the challenge that is out for `id`.
    pub fn expected_challenge(&self, id: &str) -> (r: Option<&String>)
        ensures
            r.deep_view() == self.expected(id@),
    {
        let ghost all = self.pending();
        let mut i: usize = self.challenges.len();
        proof {
            assert(all.take(i as int) =~= all);
        }
        while i > 0
            invariant
                i <= self.challenges@.len(),
                all == self.pending(),
                challenge_for(all, id@) == challenge_for(all.take(i as int), id@),
            decreases i,
        {
            proof {
                assert(all.take(i as int).drop_last() =~= all.take(i - 1));
            }
            if str_eq(self.challenges[i - 1].id.as_str(), id) {
                return Some(&self.challenges[i - 1].challenge);
            }
            i -= 1;
        }
        None
    }

    /// Puts `challenge` out for `id`, in place of the one that was out.
    pub fn issue_challenge(&mut self, id: &str, challenge: String)
        ensures
            final(self).expected(id@) == Some(challenge@),
            forall|other: Seq<char>|
                other != id@ ==> final(self).expected(other) == old(self).expected(other),
    {
        let ghost before = self.pending();
        self.challenges.push(Pending { id: String::from_str(id), challenge });
        proof {
            assert(self.pending().drop_last() =~= before);
        }
    }

    /// Takes back the challenge that is out for `id`.
    pub fn clear_challenge(&mut self, id: &str)
        ensures
            final(self).pending() == without_id(old(self).pending(), id@),
            final(self).expected(id@) is None,
            forall|other: Seq<char>|
                other != id@ ==> final(self).expected(other) == old(self).expected(other),
    {
        let ghost all = self.pending();
        let mut kept: Vec<Pending> = Vec::new();
        let mut old_list: Vec<Pending> = Vec::new();
        core::mem::swap(&mut self.challenges, &mut old_list);
        let mut i: usize = 0;
        while i < old_list.len()
            invariant
                i <= old_list@.len(),
                all == old_list.deep_view(),
                kept.deep_view() == without_id(all.take(i as int), id@),
            decreases old_list@.len() - i,
        {
            proof {
                assert(all.take(i + 1).drop_last() =~= all.take(i as int));
            }
            if !str_eq(old_list[i].id.as_str(), id) {
                kept.push(
                    Pending { id: old_list[i].id.clone(), challenge: old_list[i].challenge.clone() },
                );
            }
            i += 1;
        }
        proof {
            assert(all.take(old_list@.len() as int) =~= all);
            lemma_without_id(all, id@, id@);
            assert forall|other: Seq<char>| other != id@ implies challenge_for(
                without_id(all, id@),
                other,
            ) == challenge_for(all, other) by {
                lemma_without_id(all, id@, other);
            }
        }
        self.challenges = kept;
    }

    /// Starts a registration: puts a fresh random challenge out for `id` and
    /// says what the client is to be sent. Fails where the system gave no
    /// random bytes, and for an identity too long to be written in base64.
    pub fn get_registration_options(&mut self, id: &str) -> (r: Result<PasskeyOptions, PasskeyError>)
        ensures
            match r {
                Ok(options) => {
                    &&& final(self).expected(id@) == Some(options.challenge@)
                    &&& options.user_id@ == base64url_text(id.spec_bytes())
                    &&& options.timeout_ms == PASSKEY_TIMEOUT_MS
                    &&& options.allow_credentials@.len() == 0
                },
                Err(e) => e@ is Error && final(self).pending() == old(self).pending(),
            },
            forall|other: Seq<char>|
                other != id@ ==> final(self).expected(other) == old(self).expected(other),
    {
        let challenge = match fresh_token() {
            Some(text) => text,
            None => {
                return Err(PasskeyError::Error(String::from_str("no random bytes available")));
            },
        };
        let bytes = id.as_bytes();
        if bytes.len() > crate::encoding::MAX_ENCODED_INPUT {
            return Err(PasskeyError::Error(String::from_str("identity too long")));
        }
        let user_id = encode_base64url(bytes);
        self.issue_challenge(id, challenge.clone());
        Ok(
            PasskeyOptions {
                challenge,
                user_id,
                timeout_ms: PASSKEY_TIMEOUT_MS,
                allow_credentials: Vec::new(),
            },
        )
    }

    /// Starts a login: puts a fresh random challenge out for `id` and says
    /// what the client is to be sent, with the identifiers of the stored
    /// credentials that it may use.
    pub fn get_auth_options(&mut self, id: &str, stored: &Vec<Credential>) -> (r: Result<
        PasskeyOptions,
        PasskeyError,
    >)
        ensures
            match r {
                Ok(options) => {
                    &&& final(self).expected(id@) == Some(options.challenge@)
                    &&& options.timeout_ms == PASSKEY_TIMEOUT_MS
                    &&& options.allow_credentials.deep_view() == allowed_ids(stored.deep_view())
                },
                Err(e) => e@ is Error && final(self).pending() == old(self).pending(),
            },
            forall|other: Seq<char>|
                other != id@ ==> final(self).expected(other) == old(self).expected(other),
    {
        let challenge = match fresh_token() {
            Some(text) => text,
            None => {
                return Err(PasskeyError::Error(String::from_str("no random bytes available")));
            },
        };
        self.issue_challenge(id, challenge.clone());
        Ok(
            PasskeyOptions {
                challenge,
                user_id: String::new(),
                timeout_ms: PASSKEY_TIMEOUT_MS,
                allow_credentials: allowed_credentials(stored),
            },
        )
    }

    /// Checks a client's answer against the challenge that is out for `id`.
    /// `client_data` is the text under `response.clientDataJSON` of the
    /// answer. For a login `stored` holds the stored credentials; for a
    /// registration it is `None`.
    pub fn check_answer(
        &self,
        id: &str,
        client_data: Option<&str>,
        answer: &Credential,
        stored: Option<&Vec<Credential>>,
    ) -> (r: Result<(), PasskeyError>)
        ensures
            match r {
                Ok(()) => answer_checked(
                    self.expected(id@),
                    client_data.deep_view(),
                    answer@,
                    stored.deep_view(),
                ) == Ok::<(), PasskeyErrorView>(()),
                Err(e) => answer_checked(
                    self.expected(id@),
                    client_data.deep_view(),
                    answer@,
                    stored.deep_view(),
                ) == Err::<(), PasskeyErrorView>(e@),
            },
    {
        let expected = match self.expected_challenge(id) {
            None => {
                return Err(PasskeyError::NotFound);
            },
            Some(challenge) => challenge,
        };
        let presented = match extract_client_challenge(client_data) {
            Err(e) => {
                return Err(e);
            },
            Ok(challenge) => challenge,
        };
        if !str_eq(presented.as_str(), expected.as_str()) {
            return Err(PasskeyError::Error(String::from_str("Challenge mismatch")));
        }
        let list = match stored {
            None => {
                return Ok(());
            },
            Some(list) => list,
        };
        if list.len() == 0 {
            return Err(PasskeyError::NotFound);
        }
        let wanted: Option<&String> = match &answer.raw_id {
            Some(raw) => Some(raw),
            None => match &answer.id {
                Some(id) => Some(id),
                None => None,
            },
        };
        match wanted {
            Some(identifier) => {
                if has_credential(list, identifier.as_str()) {
                    Ok(())
                } else {
                    Err(PasskeyError::NotFound)
                }
            },
            None => Ok(()),
        }
    }

    /// Registers a passkey: checks the client's answer and, where it
    /// passes, takes the challenge back. The caller then stores the
    /// credential.
    pub fn register_passkey(&mut self, id: &str, client_data: Option<&str>, answer: &Credential) -> (r:
        Result<(), PasskeyError>)
        ensures
            match r {
                Ok(()) => answer_checked(
                    old(self).expected(id@),
                    client_data.deep_view(),
                    answer@,
                    None,
                ) == Ok::<(), PasskeyErrorView>(()) && final(self).expected(id@) is None,
                Err(e) => answer_checked(
                    old(self).expected(id@),
                    client_data.deep_view(),
                    answer@,
                    None,
                ) == Err::<(), PasskeyErrorView>(e@) && final(self).pending() == old(
                    self,
                ).pending(),
            },
            forall|other: Seq<char>|
                other != id@ ==> final(self).expected(other) == old(self).expected(other),
    {
        match self.check_answer(id, client_data, answer, None) {
            Err(e) => Err(e),
            Ok(()) => {
                self.clear_challenge(id);
                Ok(())
            },
        }
    }

    /// Logs in with a passkey: checks the client's answer against the
    /// stored credentials and, where it passes, takes the challenge back
    /// and hands out a fresh random token. Fails with `Error` where the
    /// system gave no random bytes; the challenge stays out then.
    pub fn authenticate_passkey(
        &mut self,
        id: &str,
        client_data: Option<&str>,
        answer: &Credential,
        stored: &Vec<Credential>,
    ) -> (r: Result<String, PasskeyError>)
        ensures
            r is Ok ==> answer_checked(
                old(self).expected(id@),
                client_data.deep_view(),
                answer@,
                Some(stored.deep_view()),
            ) == Ok::<(), PasskeyErrorView>(()) && final(self).expected(id@) is None,
            r is Err ==> final(self).pending() == old(self).pending(),
            answer_checked(
                old(self).expected(id@),
                client_data.deep_view(),
                answer@,
                Some(stored.deep_view()),
            ) matches Err(e) ==> r matches Err(f) && f@ == e,
            forall|other: Seq<char>|
                other != id@ ==> final(self).expected(other) == old(self).expected(other),
    {
        match self.check_answer(id, client_data, answer, Some(stored)) {
            Err(e) => Err(e),
            Ok(()) => {
                match fresh_token() {
                    None => Err(
                        PasskeyError::Error(String::from_str("no random bytes available")),
                    ),
                    Some(token) => {
                        self.clear_challenge(id);
                        Ok(token)
                    },
                }
            },
        }
    }
}

/// The token that is written for the bytes that the system gave: their
/// URL-safe base64 form without padding, and nothing where it gave none.
pub open spec fn token_for(drawn: Option<Seq<u8>>) -> Option<Seq<char>> {
    match drawn {
        Some(bytes) => Some(base64url_text(bytes)),
        None => None,
    }
}

/// Writes the token for the bytes that the system gave.
pub fn write_token(drawn: Option<Vec<u8>>) -> (r: Option<String>)
    requires
        drawn matches Some(bytes) ==> bytes@.len() <= crate::encoding::MAX_ENCODED_INPUT,
    ensures
        r.deep_view() == token_for(drawn.deep_view()),
{
    match drawn {
        None => None,
        Some(bytes) => {
            proof {
                assert(bytes.deep_view() =~= bytes@);
            }
            Some(encode_base64url(bytes.as_slice()))
        },
    }
}

/// Makes a token of 32 random bytes, written in URL-safe base64 without
/// padding; `None` where the system gave no random bytes.
pub fn fresh_token() -> (r: Option<String>)
    ensures
        r matches Some(text) ==> exists|bytes: Seq<u8>|
            bytes.len() == CHALLENGE_LEN && text@ == #[trigger] base64url_text(bytes),
{
    let drawn = random_bytes(CHALLENGE_LEN);
    proof {
        if drawn is Some {
            assert(drawn->0.deep_view() =~= drawn->0@);
        }
    }
    write_token(drawn)
}

} // verus!
