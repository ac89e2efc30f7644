//! Registered domains as the registrars report them, and the health check
//! that is run on each.

use vstd::prelude::*;
use crate::storage::{Storage, StorageError, StorageErrorView};
use crate::text::{decimal, decimal_text, str_eq};

verus! {

/// The registrars that are known.
#[derive(Clone, Copy, Debug, PartialEq, Eq, Structural)]
pub enum RegistrarProvider {
    Cloudflare,
    Porkbun,
    Namecheap,
    GoDaddy,
    Google,
    NameCom,
}

impl RegistrarProvider {
    /// The name of the registrar as it is written in requests and records.
    pub open spec fn spec_name(self) -> Seq<char> {
        match self {
            RegistrarProvider::Cloudflare => "cloudflare"@,
            RegistrarProvider::Porkbun => "porkbun"@,
            RegistrarProvider::Namecheap => "namecheap"@,
            RegistrarProvider::GoDaddy => "godaddy"@,
            RegistrarProvider::Google => "google"@,
            RegistrarProvider::NameCom => "namecom"@,
        }
    }

    /// Writes the name of the registrar.
    pub fn name(self) -> (r: String)
        ensures
            r@ == self.spec_name(),
    {
        match self {
            RegistrarProvider::Cloudflare => String::from_str("cloudflare"),
            RegistrarProvider::Porkbun => String::from_str("porkbun"),
            RegistrarProvider::Namecheap => String::from_str("namecheap"),
            RegistrarProvider::GoDaddy => String::from_str("godaddy"),
            RegistrarProvider::Google => String::from_str("google"),
            RegistrarProvider::NameCom => String::from_str("namecom"),
        }
    }
}

/// Where a domain stands in its life.
#[derive(Clone, Copy, Debug, PartialEq, Eq, Structural)]
pub enum DomainStatus {
    Active,
    Expired,
    Pending,
    PendingTransfer,
    Redemption,
    Locked,
    Unknown,
}

/// The name servers of a domain.
#[derive(Debug)]
pub struct Nameservers {
    pub current: Vec<String>,
    pub is_custom: bool,
}

/// One DS record.
#[derive(Debug)]
pub struct DSRecord {
    pub key_tag: u32,
    pub algorithm: u32,
    pub digest_type: u32,
    pub digest: String,
}

/// Whether a domain is signed, and with which records.
#[derive(Debug)]
pub struct DNSSECStatus {
    pub enabled: bool,
    pub ds_records: Option<Vec<DSRecord>>,
}

/// Whether a domain is locked against transfer and renews by itself.
#[derive(Clone, Copy, Debug, PartialEq, Eq, Structural)]
pub struct DomainLocks {
    pub transfer_lock: bool,
    pub auto_renew: bool,
}

/// Whether the registrant's data is kept from WHOIS.
#[derive(Debug)]
pub struct PrivacyStatus {
    pub enabled: bool,
    pub service_name: Option<String>,
}

/// The registrant, as far as the registrar tells.
#[derive(Debug)]
pub struct DomainContact {
    pub first_name: Option<String>,
    pub last_name: Option<String>,
    pub organization: Option<String>,
    pub email: Option<String>,
    pub phone: Option<String>,
    pub city: Option<String>,
    pub state: Option<String>,
    pub country: Option<String>,
}

/// What a registrar reports of a domain, in the one form that all registrars'
/// reports are brought into. The dates are RFC 3339 texts.
#[derive(Debug)]
pub struct DomainInfo {
    pub domain: String,
    pub registrar: RegistrarProvider,
    pub status: DomainStatus,
    pub created_at: String,
    pub expires_at: String,
    pub updated_at: Option<String>,
    pub nameservers: Nameservers,
    pub locks: DomainLocks,
    pub dnssec: DNSSECStatus,
    pub privacy: PrivacyStatus,
    pub contact: Option<DomainContact>,
}

/// The mathematical content of a [`DSRecord`].
pub struct DSRecordView {
    pub key_tag: u32,
    pub algorithm: u32,
    pub digest_type: u32,
    pub digest: Seq<char>,
}

impl DeepView for DSRecord {
    type V = DSRecordView;

    open spec fn deep_view(&self) -> DSRecordView {
        DSRecordView {
            key_tag: self.key_tag,
            algorithm: self.algorithm,
            digest_type: self.digest_type,
            digest: self.digest@,
        }
    }
}

/// The mathematical content of a [`DomainContact`].
pub struct ContactView {
    pub first_name: Option<Seq<char>>,
    pub last_name: Option<Seq<char>>,
    pub organization: Option<Seq<char>>,
    pub email: Option<Seq<char>>,
    pub phone: Option<Seq<char>>,
    pub city: Option<Seq<char>>,
    pub state: Option<Seq<char>>,
    pub country: Option<Seq<char>>,
}

impl DeepView for DomainContact {
    type V = ContactView;

    open spec fn deep_view(&self) -> ContactView {
        ContactView {
            first_name: self.first_name.deep_view(),
            last_name: self.last_name.deep_view(),
            organization: self.organization.deep_view(),
            email: self.email.deep_view(),
            phone: self.phone.deep_view(),
            city: self.city.deep_view(),
            state: self.state.deep_view(),
            country: self.country.deep_view(),
        }
    }
}

/// The mathematical content of a [`DomainInfo`].
pub struct InfoView {
    pub domain: Seq<char>,
    pub registrar: RegistrarProvider,
    pub status: DomainStatus,
    pub created_at: Seq<char>,
    pub expires_at: Seq<char>,
    pub updated_at: Option<Seq<char>>,
    pub nameservers: Seq<Seq<char>>,
    pub custom_nameservers: bool,
    pub locks: DomainLocks,
    pub signed: bool,
    pub ds_records: Option<Seq<DSRecordView>>,
    pub private: bool,
    pub privacy_service: Option<Seq<char>>,
    pub contact: Option<ContactView>,
}

impl DeepView for DomainInfo {
    type V = InfoView;

    open spec fn deep_view(&self) -> InfoView {
        InfoView {
            domain: self.domain@,
            registrar: self.registrar,
            status: self.status,
            created_at: self.created_at@,
            expires_at: self.expires_at@,
            updated_at: self.updated_at.deep_view(),
            nameservers: self.nameservers.current.deep_view(),
            custom_nameservers: self.nameservers.is_custom,
            locks: self.locks,
            signed: self.dnssec.enabled,
            ds_records: self.dnssec.ds_records.deep_view(),
            private: self.privacy.enabled,
            privacy_service: self.privacy.service_name.deep_view(),
            contact: self.contact.deep_view(),
        }
    }
}

impl View for DomainInfo {
    type V = InfoView;

    open spec fn view(&self) -> InfoView {
        self.deep_view()
    }
}

/// An account with a registrar, without its secrets.
#[derive(Debug)]
pub struct RegistrarCredential {
    pub id: String,
    pub provider: RegistrarProvider,
    pub label: String,
    pub username: Option<String>,
    pub email: Option<String>,
    pub created_at: String,
}

/// How much a failed check weighs.
#[derive(Clone, Copy, Debug, PartialEq, Eq, Structural)]
pub enum CheckSeverity {
    Info,
    Warning,
    Critical,
}

/// What the checks of a domain come to together.
#[derive(Clone, Copy, Debug, PartialEq, Eq, Structural)]
pub enum HealthStatus {
    Healthy,
    Warning,
    Critical,
}

/// One check of a domain.
#[derive(Debug)]
pub struct DomainCheck {
    pub name: String,
    pub passed: bool,
    pub severity: CheckSeverity,
    pub message: String,
}

/// The mathematical content of a [`DomainCheck`].
pub struct CheckView {
    pub name: Seq<char>,
    pub passed: bool,
    pub severity: CheckSeverity,
    pub message: Seq<char>,
}

impl DeepView for DomainCheck {
    type V = CheckView;

    open spec fn deep_view(&self) -> CheckView {
        CheckView {
            name: self.name@,
            passed: self.passed,
            severity: self.severity,
            message: self.message@,
        }
    }
}

impl View for DomainCheck {
    type V = CheckView;

    open spec fn view(&self) -> CheckView {
        self.deep_view()
    }
}

/// The checks of a domain, what they come to, and when they were run.
#[derive(Debug)]
pub struct DomainHealthCheck {
    pub domain: String,
    pub status: HealthStatus,
    pub checks: Vec<DomainCheck>,
    pub checked_at: String,
}

/// The mathematical content of a [`DomainHealthCheck`].
pub struct HealthView {
    pub domain: Seq<char>,
    pub status: HealthStatus,
    pub checks: Seq<CheckView>,
    pub checked_at: Seq<char>,
}

impl DeepView for DomainHealthCheck {
    type V = HealthView;

    open spec fn deep_view(&self) -> HealthView {
        HealthView {
            domain: self.domain@,
            status: self.status,
            checks: self.checks.deep_view(),
            checked_at: self.checked_at@,
        }
    }
}

impl View for DomainHealthCheck {
    type V = HealthView;

    open spec fn view(&self) -> HealthView {
        self.deep_view()
    }
}

/// The number of whole days from one instant to another, both given as RFC
/// 3339 texts: negative where the second lies before the first, and nothing
/// where one of the texts is no such instant.
pub uninterp spec fn whole_days_between(from: Seq<char>, to: Seq<char>) -> Option<i64>;

/// Parses both texts with `chrono::DateTime::parse_from_rfc3339`, subtracts
/// the first instant from the second and calls `num_days` on the difference.
/// The result depends on the texts alone; the contract gives it a name.
#[verifier::external_body]
pub(crate) fn days_between(from: &str, to: &str) -> (r: Option<i64>)
    ensures
        r == whole_days_between(from@, to@),
{
    let start = chrono::DateTime::parse_from_rfc3339(from).ok()?;
    let end = chrono::DateTime::parse_from_rfc3339(to).ok()?;
    Some((end - start).num_days())
}

/// Whether the first instant lies before the second, both given as RFC 3339
/// texts: nothing where one of the texts is no such instant.
pub uninterp spec fn instant_before(first: Seq<char>, second: Seq<char>) -> Option<bool>;

/// Parses both texts with `chrono::DateTime::parse_from_rfc3339` and
/// compares the instants with `<`. The result depends on the texts alone; the
/// contract gives it a name.
#[verifier::external_body]
pub(crate) fn is_before(first: &str, second: &str) -> (r: Option<bool>)
    ensures
        r == instant_before(first@, second@),
{
    let earlier = chrono::DateTime::parse_from_rfc3339(first).ok()?;
    let later = chrono::DateTime::parse_from_rfc3339(second).ok()?;
    Some(earlier < later)
}

/// A check.
pub open spec fn check(
    name: Seq<char>,
    passed: bool,
    severity: CheckSeverity,
    message: Seq<char>,
) -> CheckView {
    CheckView { name, passed, severity, message }
}

/// The check of the expiry, given the whole days until the domain expires.
/// An expired domain fails critically; one that expires within 30 days fails
/// with a warning.
pub open spec fn expiry_check(days: i64) -> CheckView {
    if days < 0 {
        check(
            "expiry"@,
            false,
            CheckSeverity::Critical,
            "Domain expired "@ + decimal((-days) as nat) + " days ago"@,
        )
    } else if days < 30 {
        check(
            "expiry"@,
            false,
            CheckSeverity::Warning,
            "Domain expires in "@ + decimal(days as nat) + " days"@,
        )
    } else {
        check(
            "expiry"@,
            true,
            CheckSeverity::Info,
            "Domain expires in "@ + decimal(days as nat) + " days"@,
        )
    }
}

/// The checks that do not depend on the time: automatic renewal, transfer
/// lock, WHOIS privacy, DNSSEC and name servers, in this order. Missing
/// renewal, a missing lock and missing name servers fail with a warning;
/// missing privacy and missing DNSSEC only inform.
pub open spec fn standing_checks(info: DomainInfo) -> Seq<CheckView> {
    let servers = info.nameservers.current@.len();
    seq![
        if info.locks.auto_renew {
            check("auto_renew"@, true, CheckSeverity::Info, "Auto-renew is enabled"@)
        } else {
            check(
                "auto_renew"@,
                false,
                CheckSeverity::Warning,
                "Auto-renew is disabled – domain may expire unexpectedly"@,
            )
        },
        if info.locks.transfer_lock {
            check("transfer_lock"@, true, CheckSeverity::Info, "Transfer lock is enabled"@)
        } else {
            check(
                "transfer_lock"@,
                false,
                CheckSeverity::Warning,
                "Transfer lock is disabled – domain could be transferred away"@,
            )
        },
        if info.privacy.enabled {
            check("privacy"@, true, CheckSeverity::Info, "WHOIS privacy is enabled"@)
        } else {
            check("privacy"@, false, CheckSeverity::Info, "WHOIS privacy is not enabled"@)
        },
        if info.dnssec.enabled {
            check("dnssec"@, true, CheckSeverity::Info, "DNSSEC is enabled"@)
        } else {
            check("dnssec"@, false, CheckSeverity::Info, "DNSSEC is not enabled"@)
        },
        if servers > 0 {
            check(
                "nameservers"@,
                true,
                CheckSeverity::Info,
                "Using "@ + decimal(servers) + " nameservers"@,
            )
        } else {
            check("nameservers"@, false, CheckSeverity::Warning, "No nameservers configured"@)
        },
    ]
}

/// All checks of a domain: the check of the expiry first, where the days
/// until it are known, then the standing checks.
pub open spec fn health_checks(info: DomainInfo, days: Option<i64>) -> Seq<CheckView> {
    match days {
        Some(d) => seq![expiry_check(d)] + standing_checks(info),
        None => standing_checks(info),
    }
}

/// Whether one of `checks` failed with the given severity.
pub open spec fn failed_with(checks: Seq<CheckView>, severity: CheckSeverity) -> bool {
    exists|i: int| 0 <= i < checks.len() && !(#[trigger] checks[i]).passed && checks[i].severity
        == severity
}

/// What the checks come to: critical where one failed critically, else a
/// warning where one failed with a warning, else healthy.
pub open spec fn overall_status(checks: Seq<CheckView>) -> HealthStatus {
    if failed_with(checks, CheckSeverity::Critical) {
        HealthStatus::Critical
    } else if failed_with(checks, CheckSeverity::Warning) {
        HealthStatus::Warning
    } else {
        HealthStatus::Healthy
    }
}

/// What [`health_check`] returns.
pub open spec fn health_of(info: DomainInfo, days: Option<i64>, checked_at: Seq<char>) -> HealthView {
    HealthView {
        domain: info.domain@,
        status: overall_status(health_checks(info, days)),
        checks: health_checks(info, days),
        checked_at,
    }
}

/// Makes a check.
pub fn make_check(name: &str, passed: bool, severity: CheckSeverity, message: String) -> (r:
    DomainCheck)
    ensures
        r@ == check(name@, passed, severity, message@),
{
    DomainCheck { name: String::from_str(name), passed, severity, message }
}

/// Checks the expiry, given the whole days until the domain expires.
pub fn check_expiry(days: i64) -> (r: DomainCheck)
    ensures
        r@ == expiry_check(days),
{
    if days < 0 {
        let ago: u64 = (-(days as i128)) as u64;
        let message = String::from_str("Domain expired ").concat(
            decimal_text(ago).as_str(),
        ).concat(" days ago");
        make_check("expiry", false, CheckSeverity::Critical, message)
    } else {
        let message = String::from_str("Domain expires in ").concat(
            decimal_text(days as u64).as_str(),
        ).concat(" days");
        if days < 30 {
            make_check("expiry", false, CheckSeverity::Warning, message)
        } else {
            make_check("expiry", true, CheckSeverity::Info, message)
        }
    }
}

/// Tells whether one of `checks` failed with the given severity.
pub fn any_failed(checks: &Vec<DomainCheck>, severity: CheckSeverity) -> (r: bool)
    ensures
        r == failed_with(checks.deep_view(), severity),
{
    let ghost all = checks.deep_view();
    let mut i: usize = 0;
    while i < checks.len()
        invariant
            i <= checks@.len(),
            all == checks.deep_view(),
            forall|k: int| 0 <= k < i ==> (#[trigger] all[k]).passed || all[k].severity != severity,
        decreases checks@.len() - i,
    {
        if !checks[i].passed && checks[i].severity == severity {
            proof {
                assert(!all[i as int].passed && all[i as int].severity == severity);
            }
            return true;
        }
        i += 1;
    }
    false
}

/// Runs the checks of a domain, given the whole days until it expires where
/// they are known, and the time of the check as a text.
pub fn health_check(info: &DomainInfo, days: Option<i64>, checked_at: &str) -> (r:
    DomainHealthCheck)
    ensures
        r@ == health_of(*info, days, checked_at@),
{
    let mut checks: Vec<DomainCheck> = Vec::new();
    match days {
        Some(d) => {
            checks.push(check_expiry(d));
            proof {
                assert(checks.deep_view() =~= seq![expiry_check(d)]);
            }
        },
        None => {},
    }
    let ghost first = checks.deep_view();
    let renews = info.locks.auto_renew;
    checks.push(
        make_check(
            "auto_renew",
            renews,
            if renews {
                CheckSeverity::Info
            } else {
                CheckSeverity::Warning
            },
            if renews {
                String::from_str("Auto-renew is enabled")
            } else {
                String::from_str("Auto-renew is disabled – domain may expire unexpectedly")
            },
        ),
    );
    let locked = info.locks.transfer_lock;
    checks.push(
        make_check(
            "transfer_lock",
            locked,
            if locked {
                CheckSeverity::Info
            } else {
                CheckSeverity::Warning
            },
            if locked {
                String::from_str("Transfer lock is enabled")
            } else {
                String::from_str("Transfer lock is disabled – domain could be transferred away")
            },
        ),
    );
    let private = info.privacy.enabled;
    checks.push(
        make_check(
            "privacy",
            private,
            CheckSeverity::Info,
            if private {
                String::from_str("WHOIS privacy is enabled")
            } else {
                String::from_str("WHOIS privacy is not enabled")
            },
        ),
    );
    let signed = info.dnssec.enabled;
    checks.push(
        make_check(
            "dnssec",
            signed,
            CheckSeverity::Info,
            if signed {
                String::from_str("DNSSEC is enabled")
            } else {
                String::from_str("DNSSEC is not enabled")
            },
        ),
    );
    let servers: usize = info.nameservers.current.len();
    checks.push(
        make_check(
            "nameservers",
            servers > 0,
            if servers > 0 {
                CheckSeverity::Info
            } else {
                CheckSeverity::Warning
            },
            if servers > 0 {
                String::from_str("Using ").concat(decimal_text(servers as u64).as_str()).concat(
                    " nameservers",
                )
            } else {
                String::from_str("No nameservers configured")
            },
        ),
    );
    proof {
        assert(checks.deep_view() =~= first + standing_checks(*info));
    }
    let status = if any_failed(&checks, CheckSeverity::Critical) {
        HealthStatus::Critical
    } else if any_failed(&checks, CheckSeverity::Warning) {
        HealthStatus::Warning
    } else {
        HealthStatus::Healthy
    };
    DomainHealthCheck {
        domain: info.domain.clone(),
        status,
        checks,
        checked_at: String::from_str(checked_at),
    }
}

/// Runs the checks of a domain at the time that `now` spells as an RFC 3339
/// text. The expiry is checked where the domain's date of expiry and `now`
/// are such texts; the days until the expiry are the whole days between the
/// two.
pub fn compute_health_check(info: &DomainInfo, now: &str) -> (r: DomainHealthCheck)
    ensures
        r@ == health_of(*info, whole_days_between(now@, info.expires_at@), now@),
{
    let days = days_between(now, info.expires_at.as_str());
    health_check(info, days, now)
}

/// A domain that has expired is in a critical state, whatever else holds of
/// it.
pub proof fn lemma_expired_is_critical(info: DomainInfo, days: i64)
    requires
        days < 0,
    ensures
        overall_status(health_checks(info, Some(days))) == HealthStatus::Critical,
{
    let checks = health_checks(info, Some(days));
    assert(checks[0] == expiry_check(days));
    assert(!checks[0].passed && checks[0].severity == CheckSeverity::Critical);
}

/// A domain is healthy exactly if it is not about to expire, renews by
/// itself, is locked against transfer and has name servers; privacy and
/// DNSSEC do not count.
pub proof fn lemma_healthy(info: DomainInfo, days: Option<i64>)
    ensures
        overall_status(health_checks(info, days)) == HealthStatus::Healthy <==> {
            &&& days matches Some(d) ==> d >= 30
            &&& info.locks.auto_renew
            &&& info.locks.transfer_lock
            &&& info.nameservers.current@.len() > 0
        },
{
    let standing = standing_checks(info);
    let checks = health_checks(info, days);
    let offset: int = if days is Some {
        1
    } else {
        0
    };
    assert(checks.len() == offset + 5);
    assert forall|i: int| 0 <= i < 5 implies #[trigger] checks[offset + i] == standing[i] by {}
    if days is Some {
        assert(checks[0] == expiry_check(days->0));
    }
    let good = {
        &&& days matches Some(d) ==> d >= 30
        &&& info.locks.auto_renew
        &&& info.locks.transfer_lock
        &&& info.nameservers.current@.len() > 0
    };
    if good {
        assert forall|i: int| 0 <= i < checks.len() implies (#[trigger] checks[i]).passed
            || checks[i].severity == CheckSeverity::Info by {
            if i >= offset {
                assert(checks[offset + (i - offset)] == standing[i - offset]);
            }
        }
    } else {
        if days is Some && days->0 < 30 {
            assert(!checks[0].passed && checks[0].severity != CheckSeverity::Info);
        } else if !info.locks.auto_renew {
            assert(checks[offset + 0] == standing[0]);
            assert(!checks[offset].passed && checks[offset].severity == CheckSeverity::Warning);
        } else if !info.locks.transfer_lock {
            assert(checks[offset + 1] == standing[1]);
            assert(!checks[offset + 1].passed && checks[offset + 1].severity
                == CheckSeverity::Warning);
        } else {
            assert(checks[offset + 4] == standing[4]);
            assert(!checks[offset + 4].passed && checks[offset + 4].severity
                == CheckSeverity::Warning);
        }
    }
}

/// The mathematical content of a [`RegistrarCredential`].
pub struct CredentialView {
    pub id: Seq<char>,
    pub provider: RegistrarProvider,
    pub label: Seq<char>,
    pub username: Option<Seq<char>>,
    pub email: Option<Seq<char>>,
    pub created_at: Seq<char>,
}

impl DeepView for RegistrarCredential {
    type V = CredentialView;

    open spec fn deep_view(&self) -> CredentialView {
        CredentialView {
            id: self.id@,
            provider: self.provider,
            label: self.label@,
            username: self.username.deep_view(),
            email: self.email.deep_view(),
            created_at: self.created_at@,
        }
    }
}

impl View for RegistrarCredential {
    type V = CredentialView;

    open spec fn view(&self) -> CredentialView {
        self.deep_view()
    }
}

impl Clone for RegistrarCredential {
    fn clone(&self) -> (r: Self)
        ensures
            r@ == self@,
    {
        RegistrarCredential {
            id: self.id.clone(),
            provider: self.provider,
            label: self.label.clone(),
            username: self.username.clone(),
            email: self.email.clone(),
            created_at: self.created_at.clone(),
        }
    }
}

/// The position of the first account with the identifier `id`, or the number
/// of accounts where there is none.
pub open spec fn credential_position(accounts: Seq<CredentialView>, id: Seq<char>) -> int
    decreases accounts.len(),
{
    if accounts.len() == 0 {
        0
    } else if accounts[0].id == id {
        0
    } else {
        1 + credential_position(accounts.drop_first(), id)
    }
}

/// `accounts` without those that have the identifier `id`.
pub open spec fn without_credential(accounts: Seq<CredentialView>, id: Seq<char>) -> Seq<
    CredentialView,
>
    decreases accounts.len(),
{
    if accounts.len() == 0 {
        Seq::empty()
    } else if accounts.last().id == id {
        without_credential(accounts.drop_last(), id)
    } else {
        without_credential(accounts.drop_last(), id).push(accounts.last())
    }
}

/// After a deletion no account has the deleted identifier, and the accounts
/// with another identifier are all there, in their order.
pub proof fn lemma_without_credential(accounts: Seq<CredentialView>, id: Seq<char>)
    ensures
        forall|i: int|
            0 <= i < without_credential(accounts, id).len() ==> (#[trigger] without_credential(
                accounts,
                id,
            )[i]).id != id,
        without_credential(accounts, id) == accounts.filter(|a: CredentialView| a.id != id),
    decreases accounts.len(),
{
    reveal(Seq::filter);
    if accounts.len() > 0 {
        lemma_without_credential(accounts.drop_last(), id);
    }
}

impl Storage {
    /// The name under which the secrets of an account are kept.
    pub fn registrar_secrets_key(credential_id: &str) -> (r: String)
        ensures
            r@ == "registrar_secrets:"@ + credential_id@,
    {
        String::from_str("registrar_secrets:").concat(credential_id)
    }

    /// Gets the first account with the identifier `id`; `NotFound` where there
    /// is none.
    pub fn get_registrar_credential(accounts: &Vec<RegistrarCredential>, id: &str) -> (r: Result<
        RegistrarCredential,
        StorageError,
    >)
        ensures
            match r {
                Ok(account) => credential_position(accounts.deep_view(), id@) < accounts@.len()
                    && account@ == accounts.deep_view()[credential_position(
                    accounts.deep_view(),
                    id@,
                )],
                Err(e) => credential_position(accounts.deep_view(), id@) == accounts@.len() && e@
                    == StorageErrorView::NotFound,
            },
    {
        let ghost all = accounts.deep_view();
        let mut i: usize = 0;
        proof {
            assert(all.skip(0) =~= all);
        }
        while i < accounts.len()
            invariant
                i <= accounts@.len(),
                all == accounts.deep_view(),
                credential_position(all, id@) == i + credential_position(all.skip(i as int), id@),
            decreases accounts@.len() - i,
        {
            proof {
                assert(all.skip(i as int).drop_first() =~= all.skip(i + 1));
                assert(all.skip(i as int)[0] == accounts@[i as int]@);
            }
            if str_eq(accounts[i].id.as_str(), id) {
                return Ok(accounts[i].clone());
            }
            i += 1;
        }
        Err(StorageError::NotFound)
    }

    /// Adds an account at the end of the list.
    pub fn store_registrar_credential(
        accounts: &mut Vec<RegistrarCredential>,
        account: &RegistrarCredential,
    )
        ensures
            final(accounts).deep_view() == old(accounts).deep_view().push(account@),
    {
        let ghost before = accounts.deep_view();
        accounts.push(account.clone());
        proof {
            assert(accounts.deep_view() =~= before.push(account@));
        }
    }

    /// Removes every account with the identifier `id`.
    pub fn delete_registrar_credential(accounts: &mut Vec<RegistrarCredential>, id: &str)
        ensures
            final(accounts).deep_view() == without_credential(old(accounts).deep_view(), id@),
    {
        let ghost all = accounts.deep_view();
        let mut kept: Vec<RegistrarCredential> = Vec::new();
        let mut i: usize = 0;
        while i < accounts.len()
            invariant
                i <= accounts@.len(),
                all == accounts.deep_view(),
                kept.deep_view() == without_credential(all.take(i as int), id@),
            decreases accounts@.len() - i,
        {
            proof {
                assert(all.take(i + 1).drop_last() =~= all.take(i as int));
            }
            if !str_eq(accounts[i].id.as_str(), id) {
                kept.push(accounts[i].clone());
            }
            i += 1;
        }
        proof {
            assert(all.take(accounts@.len() as int) =~= all);
        }
        *accounts = kept;
    }
}

} // verus!
