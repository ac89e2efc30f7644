//! Reading the answers of the Namecheap API, which come as XML. Only what
//! the reports need is read: the text between two tags, the value of an
//! attribute, and the `Domain` elements of a list.

use vstd::prelude::*;
use crate::registrar::{
    DNSSECStatus, DomainInfo, DomainLocks, DomainStatus, Nameservers, PrivacyStatus,
    RegistrarProvider,
};
use crate::text::{
    chars_of, contains_text, find_char, find_from, find_text, lowercase, slice,
    str_eq, string_of, to_lowercase,
};

verus! {

/// The account that requests to the API are made for.
#[derive(Debug)]
pub struct NamecheapClient {
    pub(crate) api_user: String,
    pub(crate) api_key: String,
    pub(crate) client_ip: String,
    pub(crate) sandbox: bool,
}

/// A parameter of a request.
#[derive(Debug)]
pub struct Param {
    pub name: String,
    pub value: String,
}

impl NamecheapClient {
    /// The user of the account.
    pub closed spec fn user(&self) -> Seq<char> {
        self.api_user@
    }

    /// The key of the account.
    pub closed spec fn key(&self) -> Seq<char> {
        self.api_key@
    }

    /// The address that the requests are allowed from.
    pub closed spec fn ip(&self) -> Seq<char> {
        self.client_ip@
    }

    /// Whether the requests go to the sandbox.
    pub closed spec fn in_sandbox(&self) -> bool {
        self.sandbox
    }

    /// A client for the given account.
    pub fn new(api_user: &str, api_key: &str, client_ip: &str, sandbox: bool) -> (r: Self)
        ensures
            r.user() == api_user@,
            r.key() == api_key@,
            r.ip() == client_ip@,
            r.in_sandbox() == sandbox,
    {
        NamecheapClient {
            api_user: String::from_str(api_user),
            api_key: String::from_str(api_key),
            client_ip: String::from_str(client_ip),
            sandbox,
        }
    }

    /// The address of the API, or of its sandbox.
    pub fn base_url(&self) -> (r: String)
        ensures
            r@ == if self.in_sandbox() {
                "https://api.sandbox.namecheap.com/xml.response"@
            } else {
                "https://api.namecheap.com/xml.response"@
            },
    {
        if self.sandbox {
            String::from_str("https://api.sandbox.namecheap.com/xml.response")
        } else {
            String::from_str("https://api.namecheap.com/xml.response")
        }
    }

    /// The parameters that every request carries: the user, the key, the
    /// user once more as the name, the address of the client, and the
    /// command.
    pub fn base_params(&self, command: &str) -> (r: Vec<Param>)
        ensures
            r@.len() == 5,
            r@[0].name@ == "ApiUser"@ && r@[0].value@ == self.user(),
            r@[1].name@ == "ApiKey"@ && r@[1].value@ == self.key(),
            r@[2].name@ == "UserName"@ && r@[2].value@ == self.user(),
            r@[3].name@ == "ClientIp"@ && r@[3].value@ == self.ip(),
            r@[4].name@ == "Command"@ && r@[4].value@ == command@,
    {
        let mut params: Vec<Param> = Vec::new();
        params.push(Param { name: String::from_str("ApiUser"), value: self.api_user.clone() });
        params.push(Param { name: String::from_str("ApiKey"), value: self.api_key.clone() });
        params.push(Param { name: String::from_str("UserName"), value: self.api_user.clone() });
        params.push(Param { name: String::from_str("ClientIp"), value: self.client_ip.clone() });
        params.push(Param { name: String::from_str("Command"), value: String::from_str(command) });
        params
    }
}

/// The text of the first element named `tag`: what stands between the end of
/// its opening tag and its closing tag.
pub open spec fn tag_content(xml: Seq<char>, tag: Seq<char>) -> Option<Seq<char>> {
    match find_from(xml, "<"@ + tag, 0) {
        None => None,
        Some(start) => match find_from(xml, ">"@, start) {
            None => None,
            Some(gt) => match find_from(xml, "</"@ + tag + ">"@, gt + 1) {
                None => None,
                Some(end) => Some(xml.subrange(gt + 1, end)),
            },
        },
    }
}

/// The value of the attribute `attr` in a fragment of XML: what stands
/// between `attr="` and the next quotation mark.
pub open spec fn attr_value(fragment: Seq<char>, attr: Seq<char>) -> Option<Seq<char>> {
    let needle = attr + "=\""@;
    match find_from(fragment, needle, 0) {
        None => None,
        Some(start) => match find_from(fragment, "\""@, start + needle.len()) {
            None => None,
            Some(end) => Some(fragment.subrange(start + needle.len(), end)),
        },
    }
}

impl NamecheapClient {
    /// Reads the text of the first element named `tag`.
    pub fn extract_tag(xml: &Vec<char>, tag: &str) -> (r: Option<String>)
        ensures
            r.deep_view() == tag_content(xml@, tag@),
    {
        let open = chars_of(String::from_str("<").concat(tag).as_str());
        let close = chars_of(String::from_str("</").concat(tag).concat(">").as_str());
        let gt = chars_of(">");
        proof {
            reveal_strlit(">");
        }
        let start = match find_text(xml, &open, 0) {
            None => {
                return None;
            },
            Some(start) => start,
        };
        let after = match find_text(xml, &gt, start) {
            None => {
                return None;
            },
            Some(at) => at,
        };
        match find_text(xml, &close, after + 1) {
            None => None,
            Some(end) => Some(string_of(&slice(xml, after + 1, end))),
        }
    }

    /// Reads the value of the attribute `attr` in a fragment of XML.
    pub fn extract_attr(fragment: &Vec<char>, attr: &str) -> (r: Option<String>)
        ensures
            r.deep_view() == attr_value(fragment@, attr@),
    {
        let needle = chars_of(String::from_str(attr).concat("=\"").as_str());
        let quote = chars_of("\"");
        let start = match find_text(fragment, &needle, 0) {
            None => {
                return None;
            },
            Some(start) => start,
        };
        match find_text(fragment, &quote, start + needle.len()) {
            None => None,
            Some(end) => Some(string_of(&slice(fragment, start + needle.len(), end))),
        }
    }
}

/// What a `Domain` element of a list tells of a domain.
#[derive(Debug)]
pub struct NamecheapDomain {
    pub name: String,
    pub expires: String,
    pub created: String,
    pub is_expired: bool,
    pub is_locked: bool,
    pub auto_renew: bool,
    pub whois_guard: bool,
}

/// The mathematical content of a [`NamecheapDomain`].
pub struct NamecheapDomainView {
    pub name: Seq<char>,
    pub expires: Seq<char>,
    pub created: Seq<char>,
    pub is_expired: bool,
    pub is_locked: bool,
    pub auto_renew: bool,
    pub whois_guard: bool,
}

impl DeepView for NamecheapDomain {
    type V = NamecheapDomainView;

    open spec fn deep_view(&self) -> NamecheapDomainView {
        NamecheapDomainView {
            name: self.name@,
            expires: self.expires@,
            created: self.created@,
            is_expired: self.is_expired,
            is_locked: self.is_locked,
            auto_renew: self.auto_renew,
            whois_guard: self.whois_guard,
        }
    }
}

impl View for NamecheapDomain {
    type V = NamecheapDomainView;

    open spec fn view(&self) -> NamecheapDomainView {
        self.deep_view()
    }
}

/// The text of an optional value; empty where there is none.
pub open spec fn or_empty(value: Option<Seq<char>>) -> Seq<char> {
    match value {
        Some(v) => v,
        None => Seq::empty(),
    }
}

/// What the opening tag of a `Domain` element tells. A flag is set exactly
/// if its attribute reads `true`; the guard also if it reads `enabled` in
/// any letter case.
pub open spec fn domain_of(tag: Seq<char>) -> NamecheapDomainView {
    NamecheapDomainView {
        name: or_empty(attr_value(tag, "Name"@)),
        expires: or_empty(attr_value(tag, "Expires"@)),
        created: or_empty(attr_value(tag, "Created"@)),
        is_expired: attr_value(tag, "IsExpired"@) == Some("true"@),
        is_locked: attr_value(tag, "IsLocked"@) == Some("true"@),
        auto_renew: attr_value(tag, "AutoRenew"@) == Some("true"@),
        whois_guard: match attr_value(tag, "WhoisGuard"@) {
            Some(v) => lowercase(v) == "enabled"@ || v == "true"@,
            None => false,
        },
    }
}

/// Where the tag that begins at `start` ends: after the first `/>` from
/// there on, or, where there is none, after the first `>`.
pub open spec fn tag_end(xml: Seq<char>, start: int) -> Option<int> {
    match find_from(xml, "/>"@, start) {
        Some(at) => Some(at + 2),
        None => match find_from(xml, ">"@, start) {
            Some(at) => Some(at + 1),
            None => None,
        },
    }
}

/// The domains that the `Domain` elements from position `from` on tell of,
/// in order. The list ends at a tag that is not closed.
pub open spec fn domains_from(xml: Seq<char>, from: int) -> Seq<NamecheapDomainView>
    decreases xml.len() - from,
{
    match find_from(xml, "<Domain "@, from) {
        None => Seq::empty(),
        Some(start) => match tag_end(xml, start) {
            None => Seq::empty(),
            Some(end) => if from < end <= xml.len() {
                seq![domain_of(xml.subrange(start, end))] + domains_from(xml, end)
            } else {
                Seq::empty()
            },
        },
    }
}

/// Tells whether an optional text reads `true`.
pub fn reads_true(value: &Option<String>) -> (r: bool)
    ensures
        r == (value.deep_view() == Some("true"@)),
{
    match value {
        Some(v) => str_eq(v.as_str(), "true"),
        None => false,
    }
}

/// The text of an optional value; empty where there is none.
pub fn text_or_empty(value: Option<String>) -> (r: String)
    ensures
        r@ == or_empty(value.deep_view()),
{
    match value {
        Some(v) => v,
        None => String::new(),
    }
}

/// Reads what the opening tag of a `Domain` element tells.
pub fn parse_domain_tag(tag: &Vec<char>) -> (r: NamecheapDomain)
    ensures
        r@ == domain_of(tag@),
{
    let guard = NamecheapClient::extract_attr(tag, "WhoisGuard");
    let whois_guard = match &guard {
        Some(v) => {
            let lowered = to_lowercase(v.as_str());
            str_eq(lowered.as_str(), "enabled") || str_eq(v.as_str(), "true")
        },
        None => false,
    };
    NamecheapDomain {
        name: text_or_empty(NamecheapClient::extract_attr(tag, "Name")),
        expires: text_or_empty(NamecheapClient::extract_attr(tag, "Expires")),
        created: text_or_empty(NamecheapClient::extract_attr(tag, "Created")),
        is_expired: reads_true(&NamecheapClient::extract_attr(tag, "IsExpired")),
        is_locked: reads_true(&NamecheapClient::extract_attr(tag, "IsLocked")),
        auto_renew: reads_true(&NamecheapClient::extract_attr(tag, "AutoRenew")),
        whois_guard,
    }
}

/// Finds where the tag that begins at `start` ends.
pub fn find_tag_end(xml: &Vec<char>, start: usize) -> (r: Option<usize>)
    ensures
        match r {
            Some(end) => tag_end(xml@, start as int) == Some(end as int) && start < end
                <= xml@.len(),
            None => tag_end(xml@, start as int) is None,
        },
{
    let closed = chars_of("/>");
    let gt = chars_of(">");
    proof {
        reveal_strlit("/>");
        reveal_strlit(">");
    }
    match find_text(xml, &closed, start) {
        Some(at) => Some(at + 2),
        None => match find_text(xml, &gt, start) {
            Some(at) => Some(at + 1),
            None => None,
        },
    }
}

impl NamecheapClient {
    /// Reads the domains of a list: one for each `Domain` element, in order.
    pub fn parse_domain_list(xml: &str) -> (r: Vec<NamecheapDomain>)
        ensures
            r.deep_view() == domains_from(xml@, 0),
    {
        let chars = chars_of(xml);
        let opening = chars_of("<Domain ");
        let mut domains: Vec<NamecheapDomain> = Vec::new();
        let mut from: usize = 0;
        loop
            invariant
                from <= chars@.len(),
                chars@ == xml@,
                opening@ == "<Domain "@,
                domains_from(chars@, 0) == domains.deep_view() + domains_from(chars@, from as int),
            decreases chars@.len() - from,
        {
            let start = match find_text(&chars, &opening, from) {
                None => {
                    return domains;
                },
                Some(start) => start,
            };
            let end = match find_tag_end(&chars, start) {
                None => {
                    return domains;
                },
                Some(end) => end,
            };
            let tag = slice(&chars, start, end);
            let domain = parse_domain_tag(&tag);
            domains.push(domain);
            from = end;
        }
    }
}

/// The state of a listed domain: expired where it says so, else locked
/// where it says so, else active.
pub open spec fn listed_status(domain: NamecheapDomainView) -> DomainStatus {
    if domain.is_expired {
        DomainStatus::Expired
    } else if domain.is_locked {
        DomainStatus::Locked
    } else {
        DomainStatus::Active
    }
}

/// Brings a listed domain into the common form of a report.
pub fn listed_domain(domain: NamecheapDomain) -> (r: DomainInfo)
    ensures
        r.domain@ == domain.name@,
        r.registrar == RegistrarProvider::Namecheap,
        r.status == listed_status(domain@),
        r.created_at@ == domain.created@,
        r.expires_at@ == domain.expires@,
        r.updated_at is None,
        r.nameservers.current@.len() == 0,
        !r.nameservers.is_custom,
        r.locks == (DomainLocks {
            transfer_lock: domain.is_locked,
            auto_renew: domain.auto_renew,
        }),
        !r.dnssec.enabled,
        r.dnssec.ds_records is None,
        r.privacy.enabled == domain.whois_guard,
        r.privacy.service_name.deep_view() == Some("WhoisGuard"@),
        r.contact is None,
{
    let status = if domain.is_expired {
        DomainStatus::Expired
    } else if domain.is_locked {
        DomainStatus::Locked
    } else {
        DomainStatus::Active
    };
    DomainInfo {
        domain: domain.name,
        registrar: RegistrarProvider::Namecheap,
        status,
        created_at: domain.created,
        expires_at: domain.expires,
        updated_at: None,
        nameservers: Nameservers { current: Vec::new(), is_custom: false },
        locks: DomainLocks { transfer_lock: domain.is_locked, auto_renew: domain.auto_renew },
        dnssec: DNSSECStatus { enabled: false, ds_records: None },
        privacy: PrivacyStatus {
            enabled: domain.whois_guard,
            service_name: Some(String::from_str("WhoisGuard")),
        },
        contact: None,
    }
}

/// The failure that an answer reports: where the answer holds
/// `Status="ERROR"`, the text of its `Message` element, or `Namecheap API
/// error` where it has none.
pub open spec fn reported_failure(xml: Seq<char>) -> Option<Seq<char>> {
    if find_from(xml, "Status=\"ERROR\""@, 0) is Some {
        Some(
            match tag_content(xml, "Message"@) {
                Some(message) => message,
                None => "Namecheap API error"@,
            },
        )
    } else {
        None
    }
}

/// Reads the failure that an answer reports, if it reports one.
pub fn api_failure(xml: &Vec<char>) -> (r: Option<String>)
    ensures
        r.deep_view() == reported_failure(xml@),
{
    let marker = chars_of("Status=\"ERROR\"");
    if contains_text(xml, &marker) {
        match NamecheapClient::extract_tag(xml, "Message") {
            Some(message) => Some(message),
            None => Some(String::from_str("Namecheap API error")),
        }
    } else {
        None
    }
}

/// The state that the `Status` attribute of an answer stands for, read in
/// any letter case: `ok` and `active` for active, `expired` and `locked` for
/// themselves, anything else and a missing attribute for unknown.
pub open spec fn detailed_status(xml: Seq<char>) -> DomainStatus {
    let status = lowercase(or_empty(attr_value(xml, "Status"@)));
    if status == "ok"@ || status == "active"@ {
        DomainStatus::Active
    } else if status == "expired"@ {
        DomainStatus::Expired
    } else if status == "locked"@ {
        DomainStatus::Locked
    } else {
        DomainStatus::Unknown
    }
}

/// Reads the answer to a request for one domain.
///
/// Fails with the failure that the answer reports. Else the report holds
/// the domain as asked for, its state, and the dates of the `CreatedDate`
/// and `ExpiredDate` elements; the API tells nothing else.
pub fn parse_domain_info(domain: &str, xml: &str) -> (r: Result<DomainInfo, String>)
    ensures
        match r {
            Err(message) => reported_failure(xml@) == Some(message@),
            Ok(info) => {
                &&& reported_failure(xml@) is None
                &&& info.domain@ == domain@
                &&& info.registrar == RegistrarProvider::Namecheap
                &&& info.status == detailed_status(xml@)
                &&& info.created_at@ == or_empty(tag_content(xml@, "CreatedDate"@))
                &&& info.expires_at@ == or_empty(tag_content(xml@, "ExpiredDate"@))
                &&& info.updated_at is None
                &&& info.nameservers.current@.len() == 0
                &&& !info.nameservers.is_custom
                &&& info.locks == (DomainLocks { transfer_lock: false, auto_renew: false })
                &&& !info.dnssec.enabled
                &&& info.dnssec.ds_records is None
                &&& !info.privacy.enabled
                &&& info.privacy.service_name is None
                &&& info.contact is None
            },
        },
{
    let chars = chars_of(xml);
    match api_failure(&chars) {
        Some(message) => {
            return Err(message);
        },
        None => {},
    }
    let status_attr = text_or_empty(NamecheapClient::extract_attr(&chars, "Status"));
    let status_text = to_lowercase(status_attr.as_str());
    let status = if str_eq(status_text.as_str(), "ok") || str_eq(status_text.as_str(), "active") {
        DomainStatus::Active
    } else if str_eq(status_text.as_str(), "expired") {
        DomainStatus::Expired
    } else if str_eq(status_text.as_str(), "locked") {
        DomainStatus::Locked
    } else {
        DomainStatus::Unknown
    };
    Ok(
        DomainInfo {
            domain: String::from_str(domain),
            registrar: RegistrarProvider::Namecheap,
            status,
            created_at: text_or_empty(NamecheapClient::extract_tag(&chars, "CreatedDate")),
            expires_at: text_or_empty(NamecheapClient::extract_tag(&chars, "ExpiredDate")),
            updated_at: None,
            nameservers: Nameservers { current: Vec::new(), is_custom: false },
            locks: DomainLocks { transfer_lock: false, auto_renew: false },
            dnssec: DNSSECStatus { enabled: false, ds_records: None },
            privacy: PrivacyStatus { enabled: false, service_name: None },
            contact: None,
        },
    )
}

/// Tells whether a name has the form of a domain: a dot in it.
pub fn has_domain_format(domain: &str) -> (r: bool)
    ensures
        r == domain@.contains('.'),
{
    find_char(&chars_of(domain), '.').is_some()
}

} // verus!
