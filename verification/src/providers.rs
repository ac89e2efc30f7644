//! The reports of the registrars that answer in JSON, brought into the one
//! form of [`DomainInfo`].
//!
//! A report is read where it stands in a response: the functions take the
//! bytes of the response and a JSON Pointer to the report in it, the empty
//! pointer where the response is the report. An instant is given as an RFC
//! 3339 text.

use vstd::prelude::*;
use crate::cloudflare::CloudflareClient;
use crate::json::{
    flag_at, first_text, has_json_value, is_json_null, item, item_pointer, json_count, json_holds,
    json_null, json_number, member, member_pointer, names_at, read_first_text, read_flag,
    read_json_count, read_json_number, read_names, read_text, text_at, text_or,
};
use crate::namecheap::Param;
use crate::registrar::{
    instant_before, is_before, ContactView, DNSSECStatus, DomainContact, DomainInfo, DomainLocks,
    DomainStatus, InfoView, Nameservers, PrivacyStatus, RegistrarProvider,
};
use crate::text::{
    chars_of, contains_text, decimal, decimal_text, lowercase, occurs_at, str_eq, to_lowercase,
};
use crate::topology::settings::or_text;

verus! {

/// Whether `needle` stands somewhere in `s`.
pub open spec fn holds_text(s: Seq<char>, needle: Seq<char>) -> bool {
    exists|at: int| occurs_at(s, needle, at)
}

/// The truth value where there is one, else `false`.
pub open spec fn or_false(value: Option<bool>) -> bool {
    value == Some(true)
}

/// The truth value where there is one, else `false`.
pub fn flag_or_false(value: Option<bool>) -> (r: bool)
    ensures
        r == or_false(value),
{
    match value {
        Some(flag) => flag,
        None => false,
    }
}

/// The names where there are any, else none.
pub open spec fn or_none(value: Option<Seq<Seq<char>>>) -> Seq<Seq<char>> {
    match value {
        Some(names) => names,
        None => Seq::empty(),
    }
}

/// The names where there are any, else none.
pub fn names_or_none(value: Option<Vec<String>>) -> (r: Vec<String>)
    ensures
        r.deep_view() == or_none(value.deep_view()),
{
    match value {
        Some(names) => names,
        None => {
            let names: Vec<String> = Vec::new();
            proof {
                assert(names.deep_view() =~= Seq::<Seq<char>>::empty());
            }
            names
        },
    }
}

/// Tells whether `needle` stands somewhere in `text`.
pub fn text_holds(text: &str, needle: &str) -> (r: bool)
    ensures
        r == holds_text(text@, needle@),
{
    let all = chars_of(text);
    let part = chars_of(needle);
    contains_text(&all, &part)
}

/// The first of two optional values that is there.
pub open spec fn first_of<A>(first: Option<A>, second: Option<A>) -> Option<A> {
    if first is Some {
        first
    } else {
        second
    }
}

/// Picks the first of two optional values that is there.
pub fn either<A>(first: Option<A>, second: Option<A>) -> (r: Option<A>)
    ensures
        r == first_of(first, second),
{
    match first {
        Some(value) => Some(value),
        None => second,
    }
}

/// Tells whether an optional text reads as `text`.
pub fn reads(value: &Option<String>, text: &str) -> (r: bool)
    ensures
        r == (value.deep_view() == Some(text@)),
{
    match value {
        Some(v) => str_eq(v.as_str(), text),
        None => false,
    }
}

/// The registrars that answer in JSON.
#[derive(Clone, Copy, Debug, PartialEq, Eq, Structural)]
pub enum JsonRegistrar {
    Cloudflare,
    GoDaddy,
    Google,
    NameCom,
    Porkbun,
}

/// Where a domain stands, from the lower-case form of the status that
/// Cloudflare reports: `active` is read as it stands; else the first of
/// `expired`, `transfer`, `pending`, `redemption` and `lock` that the status
/// holds decides, and a status that holds none of them is unknown.
pub open spec fn cloudflare_status(status: Seq<char>) -> DomainStatus {
    if status == "active"@ {
        DomainStatus::Active
    } else if holds_text(status, "expired"@) {
        DomainStatus::Expired
    } else if holds_text(status, "transfer"@) {
        DomainStatus::PendingTransfer
    } else if holds_text(status, "pending"@) {
        DomainStatus::Pending
    } else if holds_text(status, "redemption"@) {
        DomainStatus::Redemption
    } else if holds_text(status, "lock"@) {
        DomainStatus::Locked
    } else {
        DomainStatus::Unknown
    }
}

/// Where a domain stands, from the lower-case form of the status that
/// GoDaddy reports: `active` and `expired` are read as they stand, a status
/// that speaks of a transfer is a pending transfer, one that speaks of
/// something pending is pending, and any other is unknown.
pub open spec fn godaddy_status(status: Seq<char>) -> DomainStatus {
    if status == "active"@ {
        DomainStatus::Active
    } else if status == "expired"@ {
        DomainStatus::Expired
    } else if holds_text(status, "transfer"@) {
        DomainStatus::PendingTransfer
    } else if holds_text(status, "pending"@) {
        DomainStatus::Pending
    } else {
        DomainStatus::Unknown
    }
}

/// Where a domain stands, from the state that Google reports: `ACTIVE` and
/// `EXPIRED` are read as they stand, `SUSPENDED` is locked, a state that
/// holds `PENDING` is pending, one that holds `TRANSFER` is a pending
/// transfer, and any other is unknown.
pub open spec fn google_status(state: Seq<char>) -> DomainStatus {
    if state == "ACTIVE"@ {
        DomainStatus::Active
    } else if state == "EXPIRED"@ {
        DomainStatus::Expired
    } else if state == "SUSPENDED"@ {
        DomainStatus::Locked
    } else if holds_text(state, "PENDING"@) {
        DomainStatus::Pending
    } else if holds_text(state, "TRANSFER"@) {
        DomainStatus::PendingTransfer
    } else {
        DomainStatus::Unknown
    }
}

/// Where a domain stands, from what Name.com reports: an expired domain is
/// expired whether locked or not.
pub open spec fn namecom_status(expired: bool, locked: bool) -> DomainStatus {
    if expired {
        DomainStatus::Expired
    } else if locked {
        DomainStatus::Locked
    } else {
        DomainStatus::Active
    }
}

/// Where a domain stands, from the lower-case form of the status that
/// Porkbun reports: a status that holds `active` is active, else one that
/// holds `expired` is expired, and any other is unknown.
pub open spec fn porkbun_status(status: Seq<char>) -> DomainStatus {
    if holds_text(status, "active"@) {
        DomainStatus::Active
    } else if holds_text(status, "expired"@) {
        DomainStatus::Expired
    } else {
        DomainStatus::Unknown
    }
}

/// Tells where a domain stands from the lower-case form of the status that
/// Cloudflare reports.
pub fn cloudflare_status_of(status: &str) -> (r: DomainStatus)
    ensures
        r == cloudflare_status(status@),
{
    if str_eq(status, "active") {
        DomainStatus::Active
    } else if text_holds(status, "expired") {
        DomainStatus::Expired
    } else if text_holds(status, "transfer") {
        DomainStatus::PendingTransfer
    } else if text_holds(status, "pending") {
        DomainStatus::Pending
    } else if text_holds(status, "redemption") {
        DomainStatus::Redemption
    } else if text_holds(status, "lock") {
        DomainStatus::Locked
    } else {
        DomainStatus::Unknown
    }
}

/// Tells where a domain stands from the lower-case form of the status that
/// GoDaddy reports.
pub fn godaddy_status_of(status: &str) -> (r: DomainStatus)
    ensures
        r == godaddy_status(status@),
{
    if str_eq(status, "active") {
        DomainStatus::Active
    } else if str_eq(status, "expired") {
        DomainStatus::Expired
    } else if text_holds(status, "transfer") {
        DomainStatus::PendingTransfer
    } else if text_holds(status, "pending") {
        DomainStatus::Pending
    } else {
        DomainStatus::Unknown
    }
}

/// Tells where a domain stands from the state that Google reports.
pub fn google_status_of(state: &str) -> (r: DomainStatus)
    ensures
        r == google_status(state@),
{
    if str_eq(state, "ACTIVE") {
        DomainStatus::Active
    } else if str_eq(state, "EXPIRED") {
        DomainStatus::Expired
    } else if str_eq(state, "SUSPENDED") {
        DomainStatus::Locked
    } else if text_holds(state, "PENDING") {
        DomainStatus::Pending
    } else if text_holds(state, "TRANSFER") {
        DomainStatus::PendingTransfer
    } else {
        DomainStatus::Unknown
    }
}

/// Tells where a domain stands from what Name.com reports.
pub fn namecom_status_of(expired: bool, locked: bool) -> (r: DomainStatus)
    ensures
        r == namecom_status(expired, locked),
{
    if expired {
        DomainStatus::Expired
    } else if locked {
        DomainStatus::Locked
    } else {
        DomainStatus::Active
    }
}

/// Tells where a domain stands from the lower-case form of the status that
/// Porkbun reports.
pub fn porkbun_status_of(status: &str) -> (r: DomainStatus)
    ensures
        r == porkbun_status(status@),
{
    if text_holds(status, "active") {
        DomainStatus::Active
    } else if text_holds(status, "expired") {
        DomainStatus::Expired
    } else {
        DomainStatus::Unknown
    }
}

/// What Cloudflare's report at `at` says of a domain. What it leaves out is
/// empty, or `false`; a status left out reads `unknown`.
pub open spec fn cloudflare_domain(bytes: Seq<u8>, at: Seq<char>) -> InfoView {
    InfoView {
        domain: or_text(text_at(bytes, at, "name"@), Seq::empty()),
        registrar: RegistrarProvider::Cloudflare,
        status: cloudflare_status(lowercase(or_text(text_at(bytes, at, "status"@), "unknown"@))),
        created_at: or_text(text_at(bytes, at, "created_at"@), Seq::empty()),
        expires_at: or_text(text_at(bytes, at, "expires_at"@), Seq::empty()),
        updated_at: text_at(bytes, at, "updated_at"@),
        nameservers: or_none(names_at(bytes, at, "name_servers"@)),
        custom_nameservers: false,
        locks: DomainLocks {
            transfer_lock: or_false(flag_at(bytes, at, "locked"@)),
            auto_renew: or_false(flag_at(bytes, at, "auto_renew"@)),
        },
        signed: false,
        ds_records: None,
        private: or_false(flag_at(bytes, at, "privacy"@)),
        privacy_service: None,
        contact: None,
    }
}

/// The registrant in GoDaddy's report at `at`: there is one where the report
/// has a member `contactRegistrant`.
pub open spec fn godaddy_contact(bytes: Seq<u8>, at: Seq<char>) -> Option<ContactView> {
    let contact = member(at, "contactRegistrant"@);
    let address = member(contact, "addressMailing"@);
    if json_holds(bytes, contact) {
        Some(
            ContactView {
                first_name: text_at(bytes, contact, "nameFirst"@),
                last_name: text_at(bytes, contact, "nameLast"@),
                organization: text_at(bytes, contact, "organization"@),
                email: text_at(bytes, contact, "email"@),
                phone: text_at(bytes, contact, "phone"@),
                city: text_at(bytes, address, "city"@),
                state: text_at(bytes, address, "state"@),
                country: text_at(bytes, address, "country"@),
            },
        )
    } else {
        None
    }
}

/// What GoDaddy's report at `at` says of a domain. What it leaves out is
/// empty, or `false`; a status left out reads `unknown`.
pub open spec fn godaddy_domain(bytes: Seq<u8>, at: Seq<char>) -> InfoView {
    InfoView {
        domain: or_text(text_at(bytes, at, "domain"@), Seq::empty()),
        registrar: RegistrarProvider::GoDaddy,
        status: godaddy_status(lowercase(or_text(text_at(bytes, at, "status"@), "unknown"@))),
        created_at: or_text(text_at(bytes, at, "createdAt"@), Seq::empty()),
        expires_at: or_text(text_at(bytes, at, "expires"@), Seq::empty()),
        updated_at: text_at(bytes, at, "modifiedAt"@),
        nameservers: or_none(names_at(bytes, at, "nameServers"@)),
        custom_nameservers: false,
        locks: DomainLocks {
            transfer_lock: or_false(flag_at(bytes, at, "locked"@)),
            auto_renew: or_false(flag_at(bytes, at, "renewAuto"@)),
        },
        signed: false,
        ds_records: None,
        private: or_false(flag_at(bytes, at, "privacy"@)),
        privacy_service: None,
        contact: godaddy_contact(bytes, at),
    }
}

/// The name servers that the registration at `at` sets for itself.
pub open spec fn google_nameservers(bytes: Seq<u8>, at: Seq<char>) -> Seq<Seq<char>> {
    or_none(names_at(bytes, member(member(at, "dnsSettings"@), "customDns"@), "nameServers"@))
}

/// What Google's registration at `at` says of a domain. What it leaves out
/// is empty, or `false`. The name servers are custom where there are any;
/// the registrant's data is kept private unless the registration says that
/// it is public; the domain is locked where the registration says `LOCKED`,
/// and renews by itself where it says `AUTOMATIC_RENEWAL`.
pub open spec fn google_domain(bytes: Seq<u8>, at: Seq<char>) -> InfoView {
    let privacy = text_at(bytes, member(at, "contactSettings"@), "privacy"@);
    InfoView {
        domain: or_text(text_at(bytes, at, "domainName"@), Seq::empty()),
        registrar: RegistrarProvider::Google,
        status: google_status(
            or_text(text_at(bytes, at, "state"@), "REGISTRATION_STATE_UNSPECIFIED"@),
        ),
        created_at: or_text(text_at(bytes, at, "createTime"@), Seq::empty()),
        expires_at: or_text(text_at(bytes, at, "expireTime"@), Seq::empty()),
        updated_at: text_at(bytes, at, "updateTime"@),
        nameservers: google_nameservers(bytes, at),
        custom_nameservers: google_nameservers(bytes, at).len() > 0,
        locks: DomainLocks {
            transfer_lock: text_at(bytes, at, "transferLockState"@) == Some("LOCKED"@),
            auto_renew: text_at(bytes, member(at, "managementSettings"@), "renewalMethod"@)
                == Some("AUTOMATIC_RENEWAL"@),
        },
        signed: false,
        ds_records: None,
        private: privacy is Some && privacy != Some("PUBLIC_CONTACT_DATA"@),
        privacy_service: None,
        contact: None,
    }
}

/// The registrant in Name.com's report at `at`: there is one where the
/// report has a member `registrant` under `contacts`.
pub open spec fn namecom_contact(bytes: Seq<u8>, at: Seq<char>) -> Option<ContactView> {
    let contact = member(member(at, "contacts"@), "registrant"@);
    if json_holds(bytes, contact) {
        Some(
            ContactView {
                first_name: text_at(bytes, contact, "firstName"@),
                last_name: text_at(bytes, contact, "lastName"@),
                organization: text_at(bytes, contact, "companyName"@),
                email: text_at(bytes, contact, "email"@),
                phone: text_at(bytes, contact, "phone"@),
                city: text_at(bytes, contact, "city"@),
                state: text_at(bytes, contact, "state"@),
                country: text_at(bytes, contact, "country"@),
            },
        )
    } else {
        None
    }
}

/// What Name.com's report at `at` says of a domain, read at the instant
/// `now`, an RFC 3339 text. What it leaves out is empty, or `false`. The
/// domain is expired where its date of expiry is an instant before `now`.
pub open spec fn namecom_domain(bytes: Seq<u8>, at: Seq<char>, now: Seq<char>) -> InfoView {
    let expires = or_text(text_at(bytes, at, "expireDate"@), Seq::empty());
    let locked = or_false(flag_at(bytes, at, "locked"@));
    InfoView {
        domain: or_text(text_at(bytes, at, "domainName"@), Seq::empty()),
        registrar: RegistrarProvider::NameCom,
        status: namecom_status(instant_before(expires, now) == Some(true), locked),
        created_at: or_text(text_at(bytes, at, "createDate"@), Seq::empty()),
        expires_at: expires,
        updated_at: None,
        nameservers: or_none(names_at(bytes, at, "nameservers"@)),
        custom_nameservers: false,
        locks: DomainLocks {
            transfer_lock: locked,
            auto_renew: or_false(flag_at(bytes, at, "autorenewEnabled"@)),
        },
        signed: false,
        ds_records: None,
        private: or_false(flag_at(bytes, at, "privacyEnabled"@)),
        privacy_service: Some("Name.com Privacy"@),
        contact: namecom_contact(bytes, at),
    }
}

/// What Porkbun's report at `at` says of a domain. What it leaves out is
/// empty, or `false`; a status left out reads `unknown`. Several members go
/// by two names, of which the first that is there is read.
pub open spec fn porkbun_domain(bytes: Seq<u8>, at: Seq<char>) -> InfoView {
    InfoView {
        domain: or_text(text_at(bytes, at, "domain"@), Seq::empty()),
        registrar: RegistrarProvider::Porkbun,
        status: porkbun_status(lowercase(or_text(text_at(bytes, at, "status"@), "unknown"@))),
        created_at: or_text(
            first_of(text_at(bytes, at, "createDate"@), text_at(bytes, at, "create_date"@)),
            Seq::empty(),
        ),
        expires_at: or_text(
            first_of(text_at(bytes, at, "expireDate"@), text_at(bytes, at, "expire_date"@)),
            Seq::empty(),
        ),
        updated_at: None,
        nameservers: or_none(
            first_of(names_at(bytes, at, "nameservers"@), names_at(bytes, at, "ns"@)),
        ),
        custom_nameservers: false,
        locks: DomainLocks {
            transfer_lock: or_false(flag_at(bytes, at, "locked"@)),
            auto_renew: or_false(
                first_of(flag_at(bytes, at, "autoRenew"@), flag_at(bytes, at, "auto_renew"@)),
            ),
        },
        signed: false,
        ds_records: None,
        private: or_false(
            first_of(flag_at(bytes, at, "whoisPrivacy"@), flag_at(bytes, at, "whois_privacy"@)),
        ),
        privacy_service: Some("Porkbun WHOIS Privacy"@),
        contact: None,
    }
}

/// What the report of the given registrar at `at` says of a domain.
pub open spec fn report(
    registrar: JsonRegistrar,
    bytes: Seq<u8>,
    at: Seq<char>,
    now: Seq<char>,
) -> InfoView {
    match registrar {
        JsonRegistrar::Cloudflare => cloudflare_domain(bytes, at),
        JsonRegistrar::GoDaddy => godaddy_domain(bytes, at),
        JsonRegistrar::Google => google_domain(bytes, at),
        JsonRegistrar::NameCom => namecom_domain(bytes, at, now),
        JsonRegistrar::Porkbun => porkbun_domain(bytes, at),
    }
}

/// What the first `count` reports in the array at `at` say.
pub open spec fn reports_up_to(
    registrar: JsonRegistrar,
    bytes: Seq<u8>,
    at: Seq<char>,
    now: Seq<char>,
    count: nat,
) -> Seq<InfoView> {
    Seq::new(count, |i: int| report(registrar, bytes, item(at, i as nat), now))
}

/// What the reports in the array at `at` say, in order; none where no array
/// stands there.
pub open spec fn reports(
    registrar: JsonRegistrar,
    bytes: Seq<u8>,
    at: Seq<char>,
    now: Seq<char>,
) -> Seq<InfoView> {
    match json_count(bytes, at) {
        Some(count) => reports_up_to(registrar, bytes, at, now, count as nat),
        None => Seq::empty(),
    }
}

/// Reads Cloudflare's report at `at` in a response.
pub fn parse_cloudflare_domain(bytes: &[u8], at: &str) -> (r: DomainInfo)
    ensures
        r@ == cloudflare_domain(bytes@, at@),
{
    proof {
        reveal_strlit("");
        assert(""@ =~= Seq::<char>::empty());
    }
    let status = to_lowercase(text_or(read_text(bytes, at, "status"), "unknown").as_str());
    DomainInfo {
        domain: text_or(read_text(bytes, at, "name"), ""),
        registrar: RegistrarProvider::Cloudflare,
        status: cloudflare_status_of(status.as_str()),
        created_at: text_or(read_text(bytes, at, "created_at"), ""),
        expires_at: text_or(read_text(bytes, at, "expires_at"), ""),
        updated_at: read_text(bytes, at, "updated_at"),
        nameservers: Nameservers {
            current: names_or_none(read_names(bytes, at, "name_servers")),
            is_custom: false,
        },
        locks: DomainLocks {
            transfer_lock: flag_or_false(read_flag(bytes, at, "locked")),
            auto_renew: flag_or_false(read_flag(bytes, at, "auto_renew")),
        },
        dnssec: DNSSECStatus { enabled: false, ds_records: None },
        privacy: PrivacyStatus {
            enabled: flag_or_false(read_flag(bytes, at, "privacy")),
            service_name: None,
        },
        contact: None,
    }
}

/// Reads the registrant in GoDaddy's report at `at`.
pub fn parse_godaddy_contact(bytes: &[u8], at: &str) -> (r: Option<DomainContact>)
    ensures
        r.deep_view() == godaddy_contact(bytes@, at@),
{
    let contact = member_pointer(at, "contactRegistrant");
    let address = member_pointer(contact.as_str(), "addressMailing");
    if has_json_value(bytes, contact.as_str()) {
        Some(
            DomainContact {
                first_name: read_text(bytes, contact.as_str(), "nameFirst"),
                last_name: read_text(bytes, contact.as_str(), "nameLast"),
                organization: read_text(bytes, contact.as_str(), "organization"),
                email: read_text(bytes, contact.as_str(), "email"),
                phone: read_text(bytes, contact.as_str(), "phone"),
                city: read_text(bytes, address.as_str(), "city"),
                state: read_text(bytes, address.as_str(), "state"),
                country: read_text(bytes, address.as_str(), "country"),
            },
        )
    } else {
        None
    }
}

/// Reads GoDaddy's report at `at` in a response.
pub fn parse_godaddy_domain(bytes: &[u8], at: &str) -> (r: DomainInfo)
    ensures
        r@ == godaddy_domain(bytes@, at@),
{
    proof {
        reveal_strlit("");
        assert(""@ =~= Seq::<char>::empty());
    }
    let status = to_lowercase(text_or(read_text(bytes, at, "status"), "unknown").as_str());
    DomainInfo {
        domain: text_or(read_text(bytes, at, "domain"), ""),
        registrar: RegistrarProvider::GoDaddy,
        status: godaddy_status_of(status.as_str()),
        created_at: text_or(read_text(bytes, at, "createdAt"), ""),
        expires_at: text_or(read_text(bytes, at, "expires"), ""),
        updated_at: read_text(bytes, at, "modifiedAt"),
        nameservers: Nameservers {
            current: names_or_none(read_names(bytes, at, "nameServers")),
            is_custom: false,
        },
        locks: DomainLocks {
            transfer_lock: flag_or_false(read_flag(bytes, at, "locked")),
            auto_renew: flag_or_false(read_flag(bytes, at, "renewAuto")),
        },
        dnssec: DNSSECStatus { enabled: false, ds_records: None },
        privacy: PrivacyStatus {
            enabled: flag_or_false(read_flag(bytes, at, "privacy")),
            service_name: None,
        },
        contact: parse_godaddy_contact(bytes, at),
    }
}

/// Reads Google's registration at `at` in a response.
pub fn parse_google_registration(bytes: &[u8], at: &str) -> (r: DomainInfo)
    ensures
        r@ == google_domain(bytes@, at@),
{
    proof {
        reveal_strlit("");
        assert(""@ =~= Seq::<char>::empty());
    }
    let state = text_or(read_text(bytes, at, "state"), "REGISTRATION_STATE_UNSPECIFIED");
    let settings = member_pointer(at, "dnsSettings");
    let custom = member_pointer(settings.as_str(), "customDns");
    let names = names_or_none(read_names(bytes, custom.as_str(), "nameServers"));
    let is_custom = names.len() > 0;
    let contact = member_pointer(at, "contactSettings");
    let privacy = read_text(bytes, contact.as_str(), "privacy");
    let management = member_pointer(at, "managementSettings");
    let renewal = read_text(bytes, management.as_str(), "renewalMethod");
    let lock = read_text(bytes, at, "transferLockState");
    DomainInfo {
        domain: text_or(read_text(bytes, at, "domainName"), ""),
        registrar: RegistrarProvider::Google,
        status: google_status_of(state.as_str()),
        created_at: text_or(read_text(bytes, at, "createTime"), ""),
        expires_at: text_or(read_text(bytes, at, "expireTime"), ""),
        updated_at: read_text(bytes, at, "updateTime"),
        nameservers: Nameservers { current: names, is_custom },
        locks: DomainLocks {
            transfer_lock: reads(&lock, "LOCKED"),
            auto_renew: reads(&renewal, "AUTOMATIC_RENEWAL"),
        },
        dnssec: DNSSECStatus { enabled: false, ds_records: None },
        privacy: PrivacyStatus {
            enabled: privacy.is_some() && !reads(&privacy, "PUBLIC_CONTACT_DATA"),
            service_name: None,
        },
        contact: None,
    }
}

/// Reads the registrant in Name.com's report at `at`.
pub fn parse_namecom_contact(bytes: &[u8], at: &str) -> (r: Option<DomainContact>)
    ensures
        r.deep_view() == namecom_contact(bytes@, at@),
{
    let contacts = member_pointer(at, "contacts");
    let contact = member_pointer(contacts.as_str(), "registrant");
    if has_json_value(bytes, contact.as_str()) {
        Some(
            DomainContact {
                first_name: read_text(bytes, contact.as_str(), "firstName"),
                last_name: read_text(bytes, contact.as_str(), "lastName"),
                organization: read_text(bytes, contact.as_str(), "companyName"),
                email: read_text(bytes, contact.as_str(), "email"),
                phone: read_text(bytes, contact.as_str(), "phone"),
                city: read_text(bytes, contact.as_str(), "city"),
                state: read_text(bytes, contact.as_str(), "state"),
                country: read_text(bytes, contact.as_str(), "country"),
            },
        )
    } else {
        None
    }
}

/// Reads Name.com's report at `at` in a response, at the instant `now`.
pub fn parse_namecom_domain(bytes: &[u8], at: &str, now: &str) -> (r: DomainInfo)
    ensures
        r@ == namecom_domain(bytes@, at@, now@),
{
    proof {
        reveal_strlit("");
        assert(""@ =~= Seq::<char>::empty());
    }
    let expires = text_or(read_text(bytes, at, "expireDate"), "");
    let locked = flag_or_false(read_flag(bytes, at, "locked"));
    let expired = flag_or_false(is_before(expires.as_str(), now));
    DomainInfo {
        domain: text_or(read_text(bytes, at, "domainName"), ""),
        registrar: RegistrarProvider::NameCom,
        status: namecom_status_of(expired, locked),
        created_at: text_or(read_text(bytes, at, "createDate"), ""),
        expires_at: expires,
        updated_at: None,
        nameservers: Nameservers {
            current: names_or_none(read_names(bytes, at, "nameservers")),
            is_custom: false,
        },
        locks: DomainLocks {
            transfer_lock: locked,
            auto_renew: flag_or_false(read_flag(bytes, at, "autorenewEnabled")),
        },
        dnssec: DNSSECStatus { enabled: false, ds_records: None },
        privacy: PrivacyStatus {
            enabled: flag_or_false(read_flag(bytes, at, "privacyEnabled")),
            service_name: Some(String::from_str("Name.com Privacy")),
        },
        contact: parse_namecom_contact(bytes, at),
    }
}

/// Reads Porkbun's report at `at` in a response.
pub fn parse_porkbun_domain(bytes: &[u8], at: &str) -> (r: DomainInfo)
    ensures
        r@ == porkbun_domain(bytes@, at@),
{
    proof {
        reveal_strlit("");
        assert(""@ =~= Seq::<char>::empty());
    }
    let status = to_lowercase(text_or(read_text(bytes, at, "status"), "unknown").as_str());
    let names = either(read_names(bytes, at, "nameservers"), read_names(bytes, at, "ns"));
    let created = either(read_text(bytes, at, "createDate"), read_text(bytes, at, "create_date"));
    let expires = either(read_text(bytes, at, "expireDate"), read_text(bytes, at, "expire_date"));
    let renews = either(read_flag(bytes, at, "autoRenew"), read_flag(bytes, at, "auto_renew"));
    let private = either(read_flag(bytes, at, "whoisPrivacy"), read_flag(bytes, at, "whois_privacy"));
    DomainInfo {
        domain: text_or(read_text(bytes, at, "domain"), ""),
        registrar: RegistrarProvider::Porkbun,
        status: porkbun_status_of(status.as_str()),
        created_at: text_or(created, ""),
        expires_at: text_or(expires, ""),
        updated_at: None,
        nameservers: Nameservers { current: names_or_none(names), is_custom: false },
        locks: DomainLocks {
            transfer_lock: flag_or_false(read_flag(bytes, at, "locked")),
            auto_renew: flag_or_false(renews),
        },
        dnssec: DNSSECStatus { enabled: false, ds_records: None },
        privacy: PrivacyStatus {
            enabled: flag_or_false(private),
            service_name: Some(String::from_str("Porkbun WHOIS Privacy")),
        },
        contact: None,
    }
}

/// Reads the report of the given registrar at `at` in a response, at the
/// instant `now`, which only Name.com's reports are read against.
pub fn parse_report(registrar: JsonRegistrar, bytes: &[u8], at: &str, now: &str) -> (r: DomainInfo)
    ensures
        r@ == report(registrar, bytes@, at@, now@),
{
    match registrar {
        JsonRegistrar::Cloudflare => parse_cloudflare_domain(bytes, at),
        JsonRegistrar::GoDaddy => parse_godaddy_domain(bytes, at),
        JsonRegistrar::Google => parse_google_registration(bytes, at),
        JsonRegistrar::NameCom => parse_namecom_domain(bytes, at, now),
        JsonRegistrar::Porkbun => parse_porkbun_domain(bytes, at),
    }
}

/// Reads the reports in the array at `at` in a response, in order; none where
/// no array stands there.
pub fn parse_reports(registrar: JsonRegistrar, bytes: &[u8], at: &str, now: &str) -> (r: Vec<
    DomainInfo,
>)
    ensures
        r.deep_view() == reports(registrar, bytes@, at@, now@),
{
    let count: usize = match read_json_count(bytes, at) {
        Some(n) => n,
        None => 0,
    };
    let mut domains: Vec<DomainInfo> = Vec::new();
    let mut i: usize = 0;
    while i < count
        invariant
            i <= count,
            domains.deep_view() =~= reports_up_to(registrar, bytes@, at@, now@, i as nat),
        decreases count - i,
    {
        let pointer = item_pointer(at, i);
        let domain = parse_report(registrar, bytes, pointer.as_str(), now);
        let ghost before = domains.deep_view();
        let ghost added = domain@;
        domains.push(domain);
        i += 1;
        proof {
            assert(domains.deep_view() =~= before.push(added));
        }
    }
    domains
}

/// The views of a list of reports, or of a failure.
pub open spec fn listed_view(r: Result<Vec<DomainInfo>, String>) -> Result<
    Seq<InfoView>,
    Seq<char>,
> {
    match r {
        Ok(domains) => Ok(domains.deep_view()),
        Err(message) => Err(message@),
    }
}

/// The view of a report, or of a failure.
pub open spec fn found_view(r: Result<DomainInfo, String>) -> Result<InfoView, Seq<char>> {
    match r {
        Ok(domain) => Ok(domain@),
        Err(message) => Err(message@),
    }
}

/// An account with Cloudflare's registrar.
#[derive(Debug)]
pub struct CloudflareRegistrarClient {
    pub credential: CloudflareClient,
    pub account_id: Option<String>,
}

/// What Cloudflare's response to a request for all domains comes to: the
/// reports under `result` where it reports success, else the first error it
/// reports.
pub open spec fn cloudflare_list(bytes: Seq<u8>) -> Result<Seq<InfoView>, Seq<char>> {
    if flag_at(bytes, Seq::empty(), "success"@) == Some(true) {
        Ok(reports(JsonRegistrar::Cloudflare, bytes, member(Seq::empty(), "result"@), Seq::empty()))
    } else {
        Err(
            or_text(
                first_text(bytes, "errors"@, "message"@),
                "Unknown Cloudflare Registrar error"@,
            ),
        )
    }
}

/// What Cloudflare's response to a request for one domain comes to: the
/// report under `result` where it reports success, else the first error it
/// reports.
pub open spec fn cloudflare_found(bytes: Seq<u8>) -> Result<InfoView, Seq<char>> {
    if flag_at(bytes, Seq::empty(), "success"@) == Some(true) {
        Ok(cloudflare_domain(bytes, member(Seq::empty(), "result"@)))
    } else {
        Err(or_text(first_text(bytes, "errors"@, "message"@), "Unknown error"@))
    }
}

impl CloudflareRegistrarClient {
    /// A client with the given credential, for the given account where one is
    /// named.
    pub fn new(api_key: &str, email: Option<&str>, account_id: Option<&str>) -> (r: Self)
        ensures
            r.credential.key() == api_key@,
            r.credential.address() == email.deep_view(),
            r.account_id.deep_view() == account_id.deep_view(),
    {
        CloudflareRegistrarClient {
            credential: CloudflareClient::new(api_key, email),
            account_id: match account_id {
                Some(id) => Some(String::from_str(id)),
                None => None,
            },
        }
    }

    /// The address at which the accounts of the credential are listed.
    pub fn accounts_url() -> (r: String)
        ensures
            r@ == "https://api.cloudflare.com/client/v4/accounts?per_page=1"@,
    {
        String::from_str("https://api.cloudflare.com/client/v4/accounts?per_page=1")
    }

    /// The address at which the domains of an account are listed.
    pub fn domains_url(account_id: &str) -> (r: String)
        ensures
            r@ == "https://api.cloudflare.com/client/v4/accounts/"@ + account_id@
                + "/registrar/domains"@,
    {
        let mut url = String::from_str("https://api.cloudflare.com/client/v4/accounts/");
        url.append(account_id);
        url.append("/registrar/domains");
        url
    }

    /// The address at which one domain of an account is reported.
    pub fn domain_url(account_id: &str, domain: &str) -> (r: String)
        ensures
            r@ == "https://api.cloudflare.com/client/v4/accounts/"@ + account_id@
                + "/registrar/domains"@ + "/"@ + domain@,
    {
        let mut url = Self::domains_url(account_id);
        url.append("/");
        url.append(domain);
        url
    }

    /// Reads the account of the credential from the response to a request
    /// for its accounts: the first that is listed.
    pub fn parse_account_id(bytes: &[u8]) -> (r: Result<String, String>)
        ensures
            match r {
                Ok(id) => first_text(bytes@, "result"@, "id"@) == Some(id@),
                Err(message) => first_text(bytes@, "result"@, "id"@) is None && message@
                    == "Failed to resolve Cloudflare account ID"@,
            },
    {
        match read_first_text(bytes, "result", "id") {
            Some(id) => Ok(id),
            None => Err(String::from_str("Failed to resolve Cloudflare account ID")),
        }
    }

    /// Reads the response to a request for all domains.
    pub fn parse_domain_list(bytes: &[u8]) -> (r: Result<Vec<DomainInfo>, String>)
        ensures
            listed_view(r) == cloudflare_list(bytes@),
    {
        proof {
            reveal_strlit("");
            assert(""@ =~= Seq::<char>::empty());
        }
        if flag_or_false(read_flag(bytes, "", "success")) {
            let at = member_pointer("", "result");
            Ok(parse_reports(JsonRegistrar::Cloudflare, bytes, at.as_str(), ""))
        } else {
            Err(
                text_or(
                    read_first_text(bytes, "errors", "message"),
                    "Unknown Cloudflare Registrar error",
                ),
            )
        }
    }

    /// Reads the response to a request for one domain.
    pub fn parse_domain_info(bytes: &[u8]) -> (r: Result<DomainInfo, String>)
        ensures
            found_view(r) == cloudflare_found(bytes@),
    {
        proof {
            reveal_strlit("");
            assert(""@ =~= Seq::<char>::empty());
        }
        if flag_or_false(read_flag(bytes, "", "success")) {
            let at = member_pointer("", "result");
            Ok(parse_cloudflare_domain(bytes, at.as_str()))
        } else {
            Err(text_or(read_first_text(bytes, "errors", "message"), "Unknown error"))
        }
    }
}

/// The address of GoDaddy's interface.
pub open spec fn godaddy_api() -> Seq<char> {
    "https://api.godaddy.com/v1"@
}

/// An account with GoDaddy.
#[derive(Debug)]
pub struct GoDaddyClient {
    pub api_key: String,
    pub api_secret: String,
}

/// What GoDaddy's response to a request for all domains comes to: the
/// reports in it where it is an array, else the failure it reports.
pub open spec fn godaddy_list(bytes: Seq<u8>) -> Result<Seq<InfoView>, Seq<char>> {
    if json_count(bytes, Seq::empty()) is Some {
        Ok(reports(JsonRegistrar::GoDaddy, bytes, Seq::empty(), Seq::empty()))
    } else {
        Err(
            or_text(
                text_at(bytes, Seq::empty(), "message"@),
                "Unexpected GoDaddy API response"@,
            ),
        )
    }
}

/// What GoDaddy's response to a request for one domain comes to: the report
/// where it names a domain, else the failure it reports.
pub open spec fn godaddy_found(bytes: Seq<u8>) -> Result<InfoView, Seq<char>> {
    if text_at(bytes, Seq::empty(), "domain"@) is Some {
        Ok(godaddy_domain(bytes, Seq::empty()))
    } else {
        Err(or_text(text_at(bytes, Seq::empty(), "message"@), "Domain not found"@))
    }
}

impl GoDaddyClient {
    /// The account with the given key and secret.
    pub fn new(api_key: &str, api_secret: &str) -> (r: Self)
        ensures
            r.api_key@ == api_key@,
            r.api_secret@ == api_secret@,
    {
        GoDaddyClient {
            api_key: String::from_str(api_key),
            api_secret: String::from_str(api_secret),
        }
    }

    /// The value of the `Authorization` header of a request.
    pub fn auth_header(&self) -> (r: String)
        ensures
            r@ == "sso-key "@ + self.api_key@ + ":"@ + self.api_secret@,
    {
        let mut header = String::from_str("sso-key ");
        header.append(self.api_key.as_str());
        header.append(":");
        header.append(self.api_secret.as_str());
        header
    }

    /// The address at which the domains are listed.
    pub fn domains_url() -> (r: String)
        ensures
            r@ == godaddy_api() + "/domains"@,
    {
        String::from_str("https://api.godaddy.com/v1").concat("/domains")
    }

    /// The address at which one domain is reported.
    pub fn domain_url(domain: &str) -> (r: String)
        ensures
            r@ == godaddy_api() + "/domains"@ + "/"@ + domain@,
    {
        let mut url = Self::domains_url();
        url.append("/");
        url.append(domain);
        url
    }

    /// The address at which the credential is tried.
    pub fn verify_url() -> (r: String)
        ensures
            r@ == godaddy_api() + "/domains"@ + "?limit=1"@,
    {
        Self::domains_url().concat("?limit=1")
    }

    /// Reads the response to a request for all domains.
    pub fn parse_domain_list(bytes: &[u8]) -> (r: Result<Vec<DomainInfo>, String>)
        ensures
            listed_view(r) == godaddy_list(bytes@),
    {
        proof {
            reveal_strlit("");
            assert(""@ =~= Seq::<char>::empty());
        }
        if read_json_count(bytes, "").is_some() {
            Ok(parse_reports(JsonRegistrar::GoDaddy, bytes, "", ""))
        } else {
            Err(text_or(read_text(bytes, "", "message"), "Unexpected GoDaddy API response"))
        }
    }

    /// Reads the response to a request for one domain.
    pub fn parse_domain_info(bytes: &[u8]) -> (r: Result<DomainInfo, String>)
        ensures
            found_view(r) == godaddy_found(bytes@),
    {
        proof {
            reveal_strlit("");
            assert(""@ =~= Seq::<char>::empty());
        }
        if read_text(bytes, "", "domain").is_some() {
            Ok(parse_godaddy_domain(bytes, ""))
        } else {
            Err(text_or(read_text(bytes, "", "message"), "Domain not found"))
        }
    }
}

/// An account with Google's registrar: a token, and the project and the
/// location whose registrations are asked for.
#[derive(Debug)]
pub struct GoogleDomainsClient {
    pub access_token: String,
    pub project: String,
    pub location: String,
}

/// The error that Google's response reports, or `fallback` where it says no
/// more than that there is one.
pub open spec fn google_failure(bytes: Seq<u8>, fallback: Seq<char>) -> Seq<char> {
    or_text(text_at(bytes, member(Seq::empty(), "error"@), "message"@), fallback)
}

/// What Google's response to a request for all registrations comes to: the
/// error where it reports one, else the registrations in it.
pub open spec fn google_list(bytes: Seq<u8>) -> Result<Seq<InfoView>, Seq<char>> {
    if json_holds(bytes, member(Seq::empty(), "error"@)) {
        Err(google_failure(bytes, "Google Domains API error"@))
    } else {
        Ok(
            reports(
                JsonRegistrar::Google,
                bytes,
                member(Seq::empty(), "registrations"@),
                Seq::empty(),
            ),
        )
    }
}

/// What Google's response to a request for one registration comes to: the
/// error where it reports one, else the registration.
pub open spec fn google_found(bytes: Seq<u8>) -> Result<InfoView, Seq<char>> {
    if json_holds(bytes, member(Seq::empty(), "error"@)) {
        Err(google_failure(bytes, "Domain not found"@))
    } else {
        Ok(google_domain(bytes, Seq::empty()))
    }
}

impl GoogleDomainsClient {
    /// The location that is asked where none is named.
    pub open spec fn location_or_global(location: Seq<char>) -> Seq<char> {
        if location.len() == 0 {
            "global"@
        } else {
            location
        }
    }

    /// The address at which the registrations of a project and location are
    /// listed.
    pub open spec fn spec_registrations_url(&self) -> Seq<char> {
        "https://domains.googleapis.com/v1"@ + "/projects/"@ + self.project@ + "/locations/"@
            + self.location@ + "/registrations"@
    }

    /// The account with the given token, for the given project and location;
    /// the location is `global` where none is named.
    pub fn new(access_token: &str, project: &str, location: &str) -> (r: Self)
        ensures
            r.access_token@ == access_token@,
            r.project@ == project@,
            r.location@ == Self::location_or_global(location@),
    {
        GoogleDomainsClient {
            access_token: String::from_str(access_token),
            project: String::from_str(project),
            location: if location.unicode_len() == 0 {
                String::from_str("global")
            } else {
                String::from_str(location)
            },
        }
    }

    /// The address at which the registrations are listed.
    pub fn registrations_url(&self) -> (r: String)
        ensures
            r@ == self.spec_registrations_url(),
    {
        let mut url = String::from_str("https://domains.googleapis.com/v1");
        url.append("/projects/");
        url.append(self.project.as_str());
        url.append("/locations/");
        url.append(self.location.as_str());
        url.append("/registrations");
        url
    }

    /// The address at which one registration is reported.
    pub fn registration_url(&self, domain: &str) -> (r: String)
        ensures
            r@ == self.spec_registrations_url() + "/"@ + domain@,
    {
        let mut url = self.registrations_url();
        url.append("/");
        url.append(domain);
        url
    }

    /// The address at which the credential is tried.
    pub fn verify_url(&self) -> (r: String)
        ensures
            r@ == self.spec_registrations_url() + "?pageSize=1"@,
    {
        self.registrations_url().concat("?pageSize=1")
    }

    /// Reads the response to a request for all registrations.
    pub fn parse_domain_list(bytes: &[u8]) -> (r: Result<Vec<DomainInfo>, String>)
        ensures
            listed_view(r) == google_list(bytes@),
    {
        proof {
            reveal_strlit("");
            assert(""@ =~= Seq::<char>::empty());
        }
        let error = member_pointer("", "error");
        if has_json_value(bytes, error.as_str()) {
            Err(text_or(read_text(bytes, error.as_str(), "message"), "Google Domains API error"))
        } else {
            let at = member_pointer("", "registrations");
            Ok(parse_reports(JsonRegistrar::Google, bytes, at.as_str(), ""))
        }
    }

    /// Reads the response to a request for one registration.
    pub fn parse_domain_info(bytes: &[u8]) -> (r: Result<DomainInfo, String>)
        ensures
            found_view(r) == google_found(bytes@),
    {
        proof {
            reveal_strlit("");
            assert(""@ =~= Seq::<char>::empty());
        }
        let error = member_pointer("", "error");
        if has_json_value(bytes, error.as_str()) {
            Err(text_or(read_text(bytes, error.as_str(), "message"), "Domain not found"))
        } else {
            Ok(parse_google_registration(bytes, ""))
        }
    }
}

/// An account with Name.com.
#[derive(Debug)]
pub struct NameComClient {
    pub username: String,
    pub api_token: String,
}

/// One page of the domains of an account with Name.com.
#[derive(Debug)]
pub struct NameComPage {
    /// The domains on the page.
    pub domains: Vec<DomainInfo>,
    /// Whether the next page is to be asked for.
    pub more: bool,
}

/// The mathematical content of a [`NameComPage`].
pub struct PageView {
    pub domains: Seq<InfoView>,
    pub more: bool,
}

impl DeepView for NameComPage {
    type V = PageView;

    open spec fn deep_view(&self) -> PageView {
        PageView { domains: self.domains.deep_view(), more: self.more }
    }
}

impl View for NameComPage {
    type V = PageView;

    open spec fn view(&self) -> PageView {
        self.deep_view()
    }
}

/// What one page of Name.com's answer to a request for all domains comes to,
/// read at the instant `now`: the failure where the page reports one and
/// lists nothing, else the domains on it. Another page is to be asked for
/// where the page names one and is not empty.
pub open spec fn namecom_page(bytes: Seq<u8>, now: Seq<char>) -> Result<PageView, Seq<char>> {
    let message = text_at(bytes, Seq::empty(), "message"@);
    let listed = member(Seq::empty(), "domains"@);
    let domains = reports(JsonRegistrar::NameCom, bytes, listed, now);
    if message is Some && json_null(bytes, listed) {
        Err(message->0)
    } else {
        Ok(
            PageView {
                domains,
                more: json_number(bytes, member(Seq::empty(), "nextPage"@)) is Some
                    && domains.len() != 0,
            },
        )
    }
}

/// What Name.com's response to a request for one domain comes to, read at the
/// instant `now`: the report where it names a domain, else the failure it
/// reports.
pub open spec fn namecom_found(bytes: Seq<u8>, now: Seq<char>) -> Result<InfoView, Seq<char>> {
    if text_at(bytes, Seq::empty(), "domainName"@) is Some {
        Ok(namecom_domain(bytes, Seq::empty(), now))
    } else {
        Err(or_text(text_at(bytes, Seq::empty(), "message"@), "Domain not found"@))
    }
}

/// The view of a page, or of a failure.
pub open spec fn page_view(r: Result<NameComPage, String>) -> Result<PageView, Seq<char>> {
    match r {
        Ok(page) => Ok(page@),
        Err(message) => Err(message@),
    }
}

impl NameComClient {
    /// The account of the given user with the given token.
    pub fn new(username: &str, api_token: &str) -> (r: Self)
        ensures
            r.username@ == username@,
            r.api_token@ == api_token@,
    {
        NameComClient {
            username: String::from_str(username),
            api_token: String::from_str(api_token),
        }
    }

    /// The address at which the page of the given number of the domains is
    /// listed, a hundred domains to the page.
    pub fn page_url(page: u32) -> (r: String)
        ensures
            r@ == "https://api.name.com/v4"@ + "/domains?page="@ + decimal(page as nat)
                + "&perPage=100"@,
    {
        let mut url = String::from_str("https://api.name.com/v4");
        url.append("/domains?page=");
        url.append(decimal_text(page as u64).as_str());
        url.append("&perPage=100");
        url
    }

    /// The address at which one domain is reported.
    pub fn domain_url(domain: &str) -> (r: String)
        ensures
            r@ == "https://api.name.com/v4"@ + "/domains/"@ + domain@,
    {
        let mut url = String::from_str("https://api.name.com/v4");
        url.append("/domains/");
        url.append(domain);
        url
    }

    /// The address at which the credential is tried.
    pub fn verify_url() -> (r: String)
        ensures
            r@ == "https://api.name.com/v4"@ + "/hello"@,
    {
        String::from_str("https://api.name.com/v4").concat("/hello")
    }

    /// Reads one page of the answer to a request for all domains, at the
    /// instant `now`.
    pub fn parse_page(bytes: &[u8], now: &str) -> (r: Result<NameComPage, String>)
        ensures
            page_view(r) == namecom_page(bytes@, now@),
    {
        proof {
            reveal_strlit("");
            assert(""@ =~= Seq::<char>::empty());
        }
        let listed = member_pointer("", "domains");
        match read_text(bytes, "", "message") {
            Some(message) => {
                if is_json_null(bytes, listed.as_str()) {
                    return Err(message);
                }
            },
            None => {},
        }
        let domains = parse_reports(JsonRegistrar::NameCom, bytes, listed.as_str(), now);
        let next = member_pointer("", "nextPage");
        let more = read_json_number(bytes, next.as_str()).is_some() && domains.len() != 0;
        Ok(NameComPage { domains, more })
    }

    /// Reads the response to a request for one domain, at the instant `now`.
    pub fn parse_domain_info(bytes: &[u8], now: &str) -> (r: Result<DomainInfo, String>)
        ensures
            found_view(r) == namecom_found(bytes@, now@),
    {
        proof {
            reveal_strlit("");
            assert(""@ =~= Seq::<char>::empty());
        }
        if read_text(bytes, "", "domainName").is_some() {
            Ok(parse_namecom_domain(bytes, "", now))
        } else {
            Err(text_or(read_text(bytes, "", "message"), "Domain not found"))
        }
    }
}

/// An account with Porkbun.
#[derive(Debug)]
pub struct PorkbunClient {
    pub api_key: String,
    pub secret_key: String,
}

/// Whether Porkbun's response reports success.
pub open spec fn porkbun_succeeded(bytes: Seq<u8>) -> bool {
    text_at(bytes, Seq::empty(), "status"@) == Some("SUCCESS"@)
}

/// What Porkbun's response to a request for all domains comes to: the
/// reports under `domains` where it reports success, else the failure it
/// reports.
pub open spec fn porkbun_list(bytes: Seq<u8>) -> Result<Seq<InfoView>, Seq<char>> {
    if porkbun_succeeded(bytes) {
        Ok(reports(JsonRegistrar::Porkbun, bytes, member(Seq::empty(), "domains"@), Seq::empty()))
    } else {
        Err(or_text(text_at(bytes, Seq::empty(), "message"@), "Porkbun API error"@))
    }
}

/// The position of the first of `domains` that goes by `name`, or their
/// number where none does.
pub open spec fn position_of(domains: Seq<InfoView>, name: Seq<char>) -> int
    decreases domains.len(),
{
    if domains.len() == 0 {
        0
    } else if domains[0].domain == name {
        0
    } else {
        1 + position_of(domains.drop_first(), name)
    }
}

impl PorkbunClient {
    /// The account with the given key and secret.
    pub fn new(api_key: &str, secret_key: &str) -> (r: Self)
        ensures
            r.api_key@ == api_key@,
            r.secret_key@ == secret_key@,
    {
        PorkbunClient {
            api_key: String::from_str(api_key),
            secret_key: String::from_str(secret_key),
        }
    }

    /// The members of the body of every request: the key and the secret.
    pub fn auth_body(&self) -> (r: Vec<Param>)
        ensures
            r@.len() == 2,
            r@[0].name@ == "apikey"@,
            r@[0].value@ == self.api_key@,
            r@[1].name@ == "secretapikey"@,
            r@[1].value@ == self.secret_key@,
    {
        let mut body: Vec<Param> = Vec::new();
        body.push(Param { name: String::from_str("apikey"), value: self.api_key.clone() });
        body.push(
            Param { name: String::from_str("secretapikey"), value: self.secret_key.clone() },
        );
        body
    }

    /// The address at which the domains are listed.
    pub fn domains_url() -> (r: String)
        ensures
            r@ == "https://api.porkbun.com/api/json/v3"@ + "/domain/listAll"@,
    {
        String::from_str("https://api.porkbun.com/api/json/v3").concat("/domain/listAll")
    }

    /// The address at which the credential is tried.
    pub fn verify_url() -> (r: String)
        ensures
            r@ == "https://api.porkbun.com/api/json/v3"@ + "/ping"@,
    {
        String::from_str("https://api.porkbun.com/api/json/v3").concat("/ping")
    }

    /// Tells whether a response reports success.
    pub fn parse_success(bytes: &[u8]) -> (r: bool)
        ensures
            r == porkbun_succeeded(bytes@),
    {
        proof {
            reveal_strlit("");
            assert(""@ =~= Seq::<char>::empty());
        }
        let status = read_text(bytes, "", "status");
        reads(&status, "SUCCESS")
    }

    /// Reads the response to a request for all domains.
    pub fn parse_domain_list(bytes: &[u8]) -> (r: Result<Vec<DomainInfo>, String>)
        ensures
            listed_view(r) == porkbun_list(bytes@),
    {
        proof {
            reveal_strlit("");
            assert(""@ =~= Seq::<char>::empty());
        }
        if Self::parse_success(bytes) {
            let at = member_pointer("", "domains");
            Ok(parse_reports(JsonRegistrar::Porkbun, bytes, at.as_str(), ""))
        } else {
            Err(text_or(read_text(bytes, "", "message"), "Porkbun API error"))
        }
    }

    /// Picks the first of the domains of the account that goes by `domain`.
    /// Porkbun reports no domain alone, so all are listed and one is picked.
    pub fn find_domain(domains: Vec<DomainInfo>, domain: &str) -> (r: Result<DomainInfo, String>)
        ensures
            match r {
                Ok(found) => position_of(domains.deep_view(), domain@) < domains@.len() && found@
                    == domains.deep_view()[position_of(domains.deep_view(), domain@)],
                Err(message) => position_of(domains.deep_view(), domain@) == domains@.len()
                    && message@ == "Domain "@ + domain@ + " not found in Porkbun account"@,
            },
    {
        let ghost all = domains.deep_view();
        let mut listed = domains;
        let mut i: usize = 0;
        proof {
            assert(all.skip(0) =~= all);
        }
        while i < listed.len()
            invariant
                i <= listed@.len() == domains@.len(),
                all == listed.deep_view(),
                all == domains.deep_view(),
                position_of(all, domain@) == i + position_of(all.skip(i as int), domain@),
            decreases listed@.len() - i,
        {
            proof {
                assert(all.skip(i as int).drop_first() =~= all.skip(i + 1));
                assert(all.skip(i as int)[0] == listed@[i as int]@);
            }
            if str_eq(listed[i].domain.as_str(), domain) {
                proof {
                    assert(all[i as int] == listed@[i as int]@);
                }
                return Ok(listed.swap_remove(i));
            }
            i += 1;
        }
        let mut message = String::from_str("Domain ");
        message.append(domain);
        message.append(" not found in Porkbun account");
        Err(message)
    }
}

} // verus!
