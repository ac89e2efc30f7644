//! DNS records of the vendor API: the address they are fetched from, and the
//! forms in which a list of them is exported.

use vstd::prelude::*;
use crate::json::{
    first_text, flag_at, item, item_pointer, json_count, json_number, member, member_pointer,
    read_first_text, read_flag, read_json_count, read_json_number, read_text, text_at, text_or,
};
use crate::text::{decimal, decimal_text, str_eq};
use crate::topology::settings::or_text;

verus! {

/// What can go wrong with the vendor API.
#[derive(Debug)]
pub enum CloudflareError {
    HttpError(String),
    ApiError(String),
    AuthFailed,
}

/// The mathematical content of a [`CloudflareError`].
pub enum CloudflareErrorView {
    HttpError(Seq<char>),
    ApiError(Seq<char>),
    AuthFailed,
}

impl DeepView for CloudflareError {
    type V = CloudflareErrorView;

    open spec fn deep_view(&self) -> CloudflareErrorView {
        match self {
            CloudflareError::HttpError(m) => CloudflareErrorView::HttpError(m@),
            CloudflareError::ApiError(m) => CloudflareErrorView::ApiError(m@),
            CloudflareError::AuthFailed => CloudflareErrorView::AuthFailed,
        }
    }
}

impl View for CloudflareError {
    type V = CloudflareErrorView;

    open spec fn view(&self) -> CloudflareErrorView {
        self.deep_view()
    }
}

impl CloudflareError {
    /// The text of the error.
    pub fn message(&self) -> (r: String)
        ensures
            r@ == match self@ {
                CloudflareErrorView::HttpError(m) => "HTTP error: "@ + m,
                CloudflareErrorView::ApiError(m) => "API error: "@ + m,
                CloudflareErrorView::AuthFailed => "Authentication failed"@,
            },
    {
        match self {
            CloudflareError::HttpError(m) => String::from_str("HTTP error: ").concat(m.as_str()),
            CloudflareError::ApiError(m) => String::from_str("API error: ").concat(m.as_str()),
            CloudflareError::AuthFailed => String::from_str("Authentication failed"),
        }
    }
}

/// A DNS record as the vendor API reports it.
#[derive(Debug)]
pub struct DNSRecord {
    pub id: Option<String>,
    pub record_type: String,
    pub name: String,
    pub content: String,
    pub comment: Option<String>,
    pub ttl: Option<u32>,
    pub priority: Option<u16>,
    pub proxied: Option<bool>,
    pub zone_id: String,
    pub zone_name: String,
    pub created_on: String,
    pub modified_on: String,
}

/// One page of the records of a zone, with what the vendor says of the
/// whole list, and whether the page was served from a cache.
#[derive(Debug)]
pub struct DNSRecordPage {
    pub records: Vec<DNSRecord>,
    pub page: u32,
    pub per_page: u32,
    pub total_count: u32,
    pub total_pages: u32,
    pub cached: bool,
}

/// How a request wants the cache to be used, and for how long an answer may
/// be kept.
#[derive(Debug)]
pub struct CacheControl {
    pub mode: Option<String>,
    pub ttl_seconds: Option<u32>,
}

/// A DNS record as it is sent to the vendor API.
#[derive(Debug)]
pub struct DNSRecordInput {
    pub record_type: String,
    pub name: String,
    pub content: String,
    pub comment: Option<String>,
    pub ttl: Option<u32>,
    pub priority: Option<u16>,
    pub proxied: Option<bool>,
}

/// The address that the records of a zone are fetched from, with the page
/// and the page size as parameters where they are given.
pub open spec fn records_url(zone_id: Seq<char>, page: Option<u32>, per_page: Option<u32>) -> Seq<
    char,
> {
    let base = "https://api.cloudflare.com/client/v4/zones/"@ + zone_id + "/dns_records"@;
    match (page, per_page) {
        (None, None) => base,
        (Some(p), None) => base + "?page="@ + decimal(p as nat),
        (None, Some(n)) => base + "?per_page="@ + decimal(n as nat),
        (Some(p), Some(n)) => base + "?page="@ + decimal(p as nat) + "&per_page="@ + decimal(
            n as nat,
        ),
    }
}

/// Builds the address that the records of a zone are fetched from.
pub fn dns_records_url(zone_id: &str, page: Option<u32>, per_page: Option<u32>) -> (r: String)
    ensures
        r@ == records_url(zone_id@, page, per_page),
{
    let mut url = String::from_str("https://api.cloudflare.com/client/v4/zones/").concat(
        zone_id,
    ).concat("/dns_records");
    match page {
        Some(p) => {
            url = url.concat("?page=").concat(decimal_text(p as u64).as_str());
        },
        None => {},
    }
    match per_page {
        Some(n) => {
            url = url.concat(
                if page.is_some() {
                    "&per_page="
                } else {
                    "?per_page="
                },
            ).concat(decimal_text(n as u64).as_str());
        },
        None => {},
    }
    url
}

/// The line of a record in the CSV form: type, name, content, time to live
/// (1 where none is set), priority (0 where none is set) and whether it is
/// proxied (`false` where that is not set).
pub open spec fn csv_line(record: DNSRecord) -> Seq<char> {
    record.record_type@ + ","@ + record.name@ + ","@ + record.content@ + ","@ + decimal(
        match record.ttl {
            Some(t) => t as nat,
            None => 1,
        },
    ) + ","@ + decimal(
        match record.priority {
            Some(p) => p as nat,
            None => 0,
        },
    ) + ","@ + (if record.proxied == Some(true) {
        "true"@
    } else {
        "false"@
    }) + "\n"@
}

/// The line of a record in the form of a BIND zone file: name, time to live,
/// class, type, and the content with the priority before it where one is
/// set. A time to live of 1, which stands for "automatic", and a missing one
/// are written as 300.
pub open spec fn bind_line(record: DNSRecord) -> Seq<char> {
    let ttl: nat = match record.ttl {
        Some(t) => if t == 1 {
            300
        } else {
            t as nat
        },
        None => 300,
    };
    let priority = match record.priority {
        Some(p) => decimal(p as nat) + " "@,
        None => Seq::empty(),
    };
    record.name@ + "\t"@ + decimal(ttl) + "\tIN\t"@ + record.record_type@ + "\t"@ + priority
        + record.content@ + "\n"@
}

/// The lines of all records, in order.
pub open spec fn lines(records: Seq<DNSRecord>, line: spec_fn(DNSRecord) -> Seq<char>) -> Seq<char>
    decreases records.len(),
{
    if records.len() == 0 {
        Seq::empty()
    } else {
        lines(records.drop_last(), line) + line(records.last())
    }
}

/// The CSV form of a list of records: a header line, then a line for each
/// record.
pub open spec fn csv_export(records: Seq<DNSRecord>) -> Seq<char> {
    "Type,Name,Content,TTL,Priority,Proxied\n"@ + lines(records, |r: DNSRecord| csv_line(r))
}

/// The BIND form of a list of records: a line for each record.
pub open spec fn bind_export(records: Seq<DNSRecord>) -> Seq<char> {
    lines(records, |r: DNSRecord| bind_line(r))
}

/// Writes the line of a record in the CSV form.
pub fn write_csv_line(record: &DNSRecord) -> (r: String)
    ensures
        r@ == csv_line(*record),
{
    let ttl: u32 = match record.ttl {
        Some(t) => t,
        None => 1,
    };
    let priority: u16 = match record.priority {
        Some(p) => p,
        None => 0,
    };
    let proxied = match record.proxied {
        Some(b) => b,
        None => false,
    };
    String::from_str(record.record_type.as_str()).concat(",").concat(record.name.as_str()).concat(
        ",",
    ).concat(record.content.as_str()).concat(",").concat(
        decimal_text(ttl as u64).as_str(),
    ).concat(",").concat(decimal_text(priority as u64).as_str()).concat(",").concat(
        if proxied {
            "true"
        } else {
            "false"
        },
    ).concat("\n")
}

/// Writes the line of a record in the BIND form.
pub fn write_bind_line(record: &DNSRecord) -> (r: String)
    ensures
        r@ == bind_line(*record),
{
    let ttl: u32 = match record.ttl {
        Some(t) => if t == 1 {
            300
        } else {
            t
        },
        None => 300,
    };
    let line = String::from_str(record.name.as_str()).concat("\t").concat(
        decimal_text(ttl as u64).as_str(),
    ).concat("\tIN\t").concat(record.record_type.as_str()).concat("\t");
    let with_priority = match record.priority {
        Some(p) => line.concat(decimal_text(p as u64).as_str()).concat(" "),
        None => line,
    };
    with_priority.concat(record.content.as_str()).concat("\n")
}

/// What an export comes to.
#[derive(Debug)]
pub enum Export {
    /// The text of the export.
    Text(String),
    /// The records are to be written as JSON, which the caller does.
    Json,
}

impl CloudflareClient {
    /// Exports a list of records: as JSON, as CSV or as a BIND zone file. Any
    /// other format is refused with `Unsupported format`.
    pub fn export_dns_records(records: &Vec<DNSRecord>, format: &str) -> (r: Result<
        Export,
        CloudflareError,
    >)
        ensures
            match r {
                Ok(Export::Json) => format@ == "json"@,
                Ok(Export::Text(text)) => format@ != "json"@ && (if format@ == "csv"@ {
                    text@ == csv_export(records@)
                } else {
                    format@ == "bind"@ && text@ == bind_export(records@)
                }),
                Err(e) => format@ != "json"@ && format@ != "csv"@ && format@ != "bind"@ && e@
                    == CloudflareErrorView::ApiError("Unsupported format"@),
            },
    {
        if str_eq(format, "json") {
            Ok(Export::Json)
        } else if str_eq(format, "csv") {
            let mut out = String::from_str("Type,Name,Content,TTL,Priority,Proxied\n");
            let ghost header = out@;
            let mut i: usize = 0;
            while i < records.len()
                invariant
                    i <= records@.len(),
                    out@ == header + lines(records@.take(i as int), |r: DNSRecord| csv_line(r)),
                decreases records@.len() - i,
            {
                proof {
                    assert(records@.take(i + 1).drop_last() =~= records@.take(i as int));
                }
                let line = write_csv_line(&records[i]);
                out.append(line.as_str());
                i += 1;
            }
            proof {
                assert(records@.take(records@.len() as int) =~= records@);
            }
            Ok(Export::Text(out))
        } else if str_eq(format, "bind") {
            let mut out = String::new();
            let mut i: usize = 0;
            while i < records.len()
                invariant
                    i <= records@.len(),
                    out@ == lines(records@.take(i as int), |r: DNSRecord| bind_line(r)),
                decreases records@.len() - i,
            {
                proof {
                    assert(records@.take(i + 1).drop_last() =~= records@.take(i as int));
                }
                let line = write_bind_line(&records[i]);
                out.append(line.as_str());
                i += 1;
            }
            proof {
                assert(records@.take(records@.len() as int) =~= records@);
            }
            Ok(Export::Text(out))
        } else {
            Err(CloudflareError::ApiError(String::from_str("Unsupported format")))
        }
    }
}

/// A header of a request.
#[derive(Debug)]
pub struct Header {
    pub name: String,
    pub value: String,
}

/// The credential that requests to the vendor API carry: a token, or a key
/// with the e-mail address of its owner.
#[derive(Debug)]
pub struct CloudflareClient {
    pub(crate) api_key: String,
    pub(crate) email: Option<String>,
}

impl CloudflareClient {
    /// The key or token.
    pub closed spec fn key(&self) -> Seq<char> {
        self.api_key@
    }

    /// The e-mail address that goes with the key, if there is one.
    pub closed spec fn address(&self) -> Option<Seq<char>> {
        self.email.deep_view()
    }

    /// A client with the given credential.
    pub fn new(api_key: &str, email: Option<&str>) -> (r: Self)
        ensures
            r.key() == api_key@,
            r.address() == email.deep_view(),
    {
        CloudflareClient {
            api_key: String::from_str(api_key),
            email: match email {
                Some(address) => Some(String::from_str(address)),
                None => None,
            },
        }
    }

    /// The address at which the credential is verified: the user's own
    /// record for a key with an e-mail address, the token check for a token.
    pub fn verify_url(&self) -> (r: String)
        ensures
            r@ == if self.address() is Some {
                "https://api.cloudflare.com/client/v4/user"@
            } else {
                "https://api.cloudflare.com/client/v4/user/tokens/verify"@
            },
    {
        if self.email.is_some() {
            String::from_str("https://api.cloudflare.com/client/v4/user")
        } else {
            String::from_str("https://api.cloudflare.com/client/v4/user/tokens/verify")
        }
    }

    /// The headers that carry the credential: the e-mail address and the key
    /// where an address is given, else the key as a bearer token.
    pub fn apply_auth(&self) -> (r: Vec<Header>)
        ensures
            match self.address() {
                Some(address) => r@.len() == 2 && r@[0].name@ == "X-Auth-Email"@ && r@[0].value@
                    == address && r@[1].name@ == "X-Auth-Key"@ && r@[1].value@ == self.key(),
                None => r@.len() == 1 && r@[0].name@ == "Authorization"@ && r@[0].value@
                    == "Bearer "@ + self.key(),
            },
    {
        let mut headers: Vec<Header> = Vec::new();
        match &self.email {
            Some(address) => {
                headers.push(
                    Header { name: String::from_str("X-Auth-Email"), value: address.clone() },
                );
                headers.push(
                    Header { name: String::from_str("X-Auth-Key"), value: self.api_key.clone() },
                );
            },
            None => {
                headers.push(
                    Header {
                        name: String::from_str("Authorization"),
                        value: String::from_str("Bearer ").concat(self.api_key.as_str()),
                    },
                );
            },
        }
        headers
    }
}

/// The mathematical content of a [`DNSRecord`].
pub struct RecordView {
    pub id: Option<Seq<char>>,
    pub record_type: Seq<char>,
    pub name: Seq<char>,
    pub content: Seq<char>,
    pub comment: Option<Seq<char>>,
    pub ttl: Option<u32>,
    pub priority: Option<u16>,
    pub proxied: Option<bool>,
    pub zone_id: Seq<char>,
    pub zone_name: Seq<char>,
    pub created_on: Seq<char>,
    pub modified_on: Seq<char>,
}

impl DeepView for DNSRecord {
    type V = RecordView;

    open spec fn deep_view(&self) -> RecordView {
        RecordView {
            id: self.id.deep_view(),
            record_type: self.record_type@,
            name: self.name@,
            content: self.content@,
            comment: self.comment.deep_view(),
            ttl: self.ttl,
            priority: self.priority,
            proxied: self.proxied,
            zone_id: self.zone_id@,
            zone_name: self.zone_name@,
            created_on: self.created_on@,
            modified_on: self.modified_on@,
        }
    }
}

/// A zone as the vendor API reports it.
#[derive(Debug)]
pub struct Zone {
    pub id: String,
    pub name: String,
    pub status: String,
    pub paused: bool,
    pub zone_type: String,
    pub development_mode: u32,
}

/// The mathematical content of a [`Zone`].
pub struct ZoneView {
    pub id: Seq<char>,
    pub name: Seq<char>,
    pub status: Seq<char>,
    pub paused: bool,
    pub zone_type: Seq<char>,
    pub development_mode: u32,
}

impl DeepView for Zone {
    type V = ZoneView;

    open spec fn deep_view(&self) -> ZoneView {
        ZoneView {
            id: self.id@,
            name: self.name@,
            status: self.status@,
            paused: self.paused,
            zone_type: self.zone_type@,
            development_mode: self.development_mode,
        }
    }
}

/// The number at `pointer`, cut to 32 bits.
pub open spec fn short_number(bytes: Seq<u8>, pointer: Seq<char>) -> Option<u32> {
    match json_number(bytes, pointer) {
        Some(n) => Some(n as u32),
        None => None,
    }
}

/// The record that stands at `at` in a response: there is one where a type,
/// a name and a content stand there. The numbers are cut to the width of
/// their fields; what else is left out is empty.
pub open spec fn dns_record(bytes: Seq<u8>, at: Seq<char>) -> Option<RecordView> {
    let record_type = text_at(bytes, at, "type"@);
    let name = text_at(bytes, at, "name"@);
    let content = text_at(bytes, at, "content"@);
    if record_type is Some && name is Some && content is Some {
        Some(
            RecordView {
                id: text_at(bytes, at, "id"@),
                record_type: record_type->0,
                name: name->0,
                content: content->0,
                comment: text_at(bytes, at, "comment"@),
                ttl: short_number(bytes, member(at, "ttl"@)),
                priority: match json_number(bytes, member(at, "priority"@)) {
                    Some(n) => Some(n as u16),
                    None => None,
                },
                proxied: flag_at(bytes, at, "proxied"@),
                zone_id: or_text(text_at(bytes, at, "zone_id"@), Seq::empty()),
                zone_name: or_text(text_at(bytes, at, "zone_name"@), Seq::empty()),
                created_on: or_text(text_at(bytes, at, "created_on"@), Seq::empty()),
                modified_on: or_text(text_at(bytes, at, "modified_on"@), Seq::empty()),
            },
        )
    } else {
        None
    }
}

/// The records among the first `count` items of the array at `at`, in order.
pub open spec fn dns_records_up_to(bytes: Seq<u8>, at: Seq<char>, count: nat) -> Seq<RecordView>
    decreases count,
{
    if count == 0 {
        Seq::empty()
    } else {
        let before = dns_records_up_to(bytes, at, (count - 1) as nat);
        match dns_record(bytes, item(at, (count - 1) as nat)) {
            Some(record) => before.push(record),
            None => before,
        }
    }
}

/// The failure of a response that has not the form expected.
pub open spec fn invalid_response() -> CloudflareErrorView {
    CloudflareErrorView::ApiError("Invalid response format"@)
}

/// What a response to a request for the records of a zone comes to: the
/// records in the array under `result`, and a failure where no array stands
/// there. An item that is no record is passed over.
pub open spec fn dns_records(bytes: Seq<u8>) -> Result<Seq<RecordView>, CloudflareErrorView> {
    let at = member(Seq::empty(), "result"@);
    match json_count(bytes, at) {
        Some(count) => Ok(dns_records_up_to(bytes, at, count as nat)),
        None => Err(invalid_response()),
    }
}

/// What a response to a request that writes one record comes to: the record
/// under `result`, and a failure where none stands there.
pub open spec fn written_record(bytes: Seq<u8>) -> Result<RecordView, CloudflareErrorView> {
    match dns_record(bytes, member(Seq::empty(), "result"@)) {
        Some(record) => Ok(record),
        None => Err(invalid_response()),
    }
}

/// The zone that stands at `at` in a response: there is one where an
/// identifier and a name stand there. A status left out reads `unknown`.
pub open spec fn zone(bytes: Seq<u8>, at: Seq<char>) -> Option<ZoneView> {
    let id = text_at(bytes, at, "id"@);
    let name = text_at(bytes, at, "name"@);
    if id is Some && name is Some {
        Some(
            ZoneView {
                id: id->0,
                name: name->0,
                status: or_text(text_at(bytes, at, "status"@), "unknown"@),
                paused: flag_at(bytes, at, "paused"@) == Some(true),
                zone_type: or_text(text_at(bytes, at, "type"@), Seq::empty()),
                development_mode: match short_number(bytes, member(at, "development_mode"@)) {
                    Some(n) => n,
                    None => 0,
                },
            },
        )
    } else {
        None
    }
}

/// The zones among the first `count` items of the array at `at`, in order.
pub open spec fn zones_up_to(bytes: Seq<u8>, at: Seq<char>, count: nat) -> Seq<ZoneView>
    decreases count,
{
    if count == 0 {
        Seq::empty()
    } else {
        let before = zones_up_to(bytes, at, (count - 1) as nat);
        match zone(bytes, item(at, (count - 1) as nat)) {
            Some(found) => before.push(found),
            None => before,
        }
    }
}

/// What a response to a request for the zones comes to: the zones in the
/// array under `result`, and a failure where no array stands there. An item
/// that is no zone is passed over.
pub open spec fn zones(bytes: Seq<u8>) -> Result<Seq<ZoneView>, CloudflareErrorView> {
    let at = member(Seq::empty(), "result"@);
    match json_count(bytes, at) {
        Some(count) => Ok(zones_up_to(bytes, at, count as nat)),
        None => Err(invalid_response()),
    }
}

/// Reads the number at `pointer`, cut to 32 bits.
pub fn read_short_number(bytes: &[u8], pointer: &str) -> (r: Option<u32>)
    ensures
        r == short_number(bytes@, pointer@),
{
    match read_json_number(bytes, pointer) {
        Some(n) => Some(n as u32),
        None => None,
    }
}

/// Reads the record that stands at `at` in a response.
pub fn parse_dns_record(bytes: &[u8], at: &str) -> (r: Option<DNSRecord>)
    ensures
        r.deep_view() == dns_record(bytes@, at@),
{
    proof {
        reveal_strlit("");
        assert(""@ =~= Seq::<char>::empty());
    }
    let record_type = read_text(bytes, at, "type");
    let name = read_text(bytes, at, "name");
    let content = read_text(bytes, at, "content");
    match (record_type, name, content) {
        (Some(record_type), Some(name), Some(content)) => {
            let ttl = member_pointer(at, "ttl");
            let priority = member_pointer(at, "priority");
            Some(
                DNSRecord {
                    id: read_text(bytes, at, "id"),
                    record_type,
                    name,
                    content,
                    comment: read_text(bytes, at, "comment"),
                    ttl: read_short_number(bytes, ttl.as_str()),
                    priority: match read_json_number(bytes, priority.as_str()) {
                        Some(n) => Some(n as u16),
                        None => None,
                    },
                    proxied: read_flag(bytes, at, "proxied"),
                    zone_id: text_or(read_text(bytes, at, "zone_id"), ""),
                    zone_name: text_or(read_text(bytes, at, "zone_name"), ""),
                    created_on: text_or(read_text(bytes, at, "created_on"), ""),
                    modified_on: text_or(read_text(bytes, at, "modified_on"), ""),
                },
            )
        },
        _ => None,
    }
}

/// Reads the zone that stands at `at` in a response.
pub fn parse_zone(bytes: &[u8], at: &str) -> (r: Option<Zone>)
    ensures
        r.deep_view() == zone(bytes@, at@),
{
    proof {
        reveal_strlit("");
        assert(""@ =~= Seq::<char>::empty());
    }
    let id = read_text(bytes, at, "id");
    let name = read_text(bytes, at, "name");
    match (id, name) {
        (Some(id), Some(name)) => {
            let mode = member_pointer(at, "development_mode");
            Some(
                Zone {
                    id,
                    name,
                    status: text_or(read_text(bytes, at, "status"), "unknown"),
                    paused: match read_flag(bytes, at, "paused") {
                        Some(flag) => flag,
                        None => false,
                    },
                    zone_type: text_or(read_text(bytes, at, "type"), ""),
                    development_mode: match read_short_number(bytes, mode.as_str()) {
                        Some(n) => n,
                        None => 0,
                    },
                },
            )
        },
        _ => None,
    }
}

/// The view of a list, or of a failure.
pub open spec fn list_view<T: DeepView>(r: Result<Vec<T>, CloudflareError>) -> Result<
    Seq<T::V>,
    CloudflareErrorView,
> {
    match r {
        Ok(items) => Ok(items.deep_view()),
        Err(e) => Err(e@),
    }
}

impl CloudflareClient {
    /// Reads the response to a request for the records of a zone.
    pub fn parse_dns_records(bytes: &[u8]) -> (r: Result<Vec<DNSRecord>, CloudflareError>)
        ensures
            list_view(r) == dns_records(bytes@),
    {
        proof {
            reveal_strlit("");
            assert(""@ =~= Seq::<char>::empty());
        }
        let at = member_pointer("", "result");
        match read_json_count(bytes, at.as_str()) {
            None => Err(CloudflareError::ApiError(String::from_str("Invalid response format"))),
            Some(count) => {
                let mut records: Vec<DNSRecord> = Vec::new();
                let mut i: usize = 0;
                while i < count
                    invariant
                        i <= count,
                        records.deep_view() =~= dns_records_up_to(bytes@, at@, i as nat),
                    decreases count - i,
                {
                    let pointer = item_pointer(at.as_str(), i);
                    let ghost before = records.deep_view();
                    match parse_dns_record(bytes, pointer.as_str()) {
                        Some(record) => {
                            let ghost added = record.deep_view();
                            records.push(record);
                            proof {
                                assert(records.deep_view() =~= before.push(added));
                            }
                        },
                        None => {},
                    }
                    i += 1;
                }
                Ok(records)
            },
        }
    }

    /// Reads the response to a request that writes one record.
    pub fn parse_written_record(bytes: &[u8]) -> (r: Result<DNSRecord, CloudflareError>)
        ensures
            match r {
                Ok(record) => written_record(bytes@) == Ok::<RecordView, CloudflareErrorView>(
                    record.deep_view(),
                ),
                Err(e) => written_record(bytes@) == Err::<RecordView, CloudflareErrorView>(e@),
            },
    {
        proof {
            reveal_strlit("");
            assert(""@ =~= Seq::<char>::empty());
        }
        let at = member_pointer("", "result");
        match parse_dns_record(bytes, at.as_str()) {
            Some(record) => Ok(record),
            None => Err(CloudflareError::ApiError(String::from_str("Invalid response format"))),
        }
    }

    /// Reads the response to a request for the zones.
    pub fn parse_zones(bytes: &[u8]) -> (r: Result<Vec<Zone>, CloudflareError>)
        ensures
            list_view(r) == zones(bytes@),
    {
        proof {
            reveal_strlit("");
            assert(""@ =~= Seq::<char>::empty());
        }
        let at = member_pointer("", "result");
        match read_json_count(bytes, at.as_str()) {
            None => Err(CloudflareError::ApiError(String::from_str("Invalid response format"))),
            Some(count) => {
                let mut found: Vec<Zone> = Vec::new();
                let mut i: usize = 0;
                while i < count
                    invariant
                        i <= count,
                        found.deep_view() =~= zones_up_to(bytes@, at@, i as nat),
                    decreases count - i,
                {
                    let pointer = item_pointer(at.as_str(), i);
                    let ghost before = found.deep_view();
                    match parse_zone(bytes, pointer.as_str()) {
                        Some(zone) => {
                            let ghost added = zone.deep_view();
                            found.push(zone);
                            proof {
                                assert(found.deep_view() =~= before.push(added));
                            }
                        },
                        None => {},
                    }
                    i += 1;
                }
                Ok(found)
            },
        }
    }
}

/// The failure that a response reports, if it reports one: it does unless it
/// says that the request succeeded. The message is that of the first error it
/// lists, or `fallback` where it lists none.
pub open spec fn reported_failure(bytes: Seq<u8>, fallback: Seq<char>) -> Option<
    CloudflareErrorView,
> {
    if flag_at(bytes, Seq::empty(), "success"@) == Some(true) {
        None
    } else {
        Some(
            CloudflareErrorView::ApiError(
                or_text(first_text(bytes, "errors"@, "message"@), fallback),
            ),
        )
    }
}

/// The address of a zone.
pub open spec fn zone_url(zone_id: Seq<char>) -> Seq<char> {
    "https://api.cloudflare.com/client/v4/zones/"@ + zone_id
}

impl CloudflareClient {
    /// Reads whether a response reports a failure; `fallback` is what is said
    /// of a failure that the response does not describe.
    pub fn parse_failure(bytes: &[u8], fallback: &str) -> (r: Option<CloudflareError>)
        ensures
            r.deep_view() == reported_failure(bytes@, fallback@),
    {
        proof {
            reveal_strlit("");
            assert(""@ =~= Seq::<char>::empty());
        }
        match read_flag(bytes, "", "success") {
            Some(true) => None,
            _ => Some(
                CloudflareError::ApiError(
                    text_or(read_first_text(bytes, "errors", "message"), fallback),
                ),
            ),
        }
    }

    /// The address of one record of a zone.
    pub fn dns_record_url(zone_id: &str, record_id: &str) -> (r: String)
        ensures
            r@ == zone_url(zone_id@) + "/dns_records/"@ + record_id@,
    {
        let mut url = String::from_str("https://api.cloudflare.com/client/v4/zones/");
        url.append(zone_id);
        url.append("/dns_records/");
        url.append(record_id);
        url
    }

    /// The address at which the cache of a zone is purged.
    pub fn purge_cache_url(zone_id: &str) -> (r: String)
        ensures
            r@ == zone_url(zone_id@) + "/purge_cache"@,
    {
        let mut url = String::from_str("https://api.cloudflare.com/client/v4/zones/");
        url.append(zone_id);
        url.append("/purge_cache");
        url
    }

    /// The address of one setting of a zone.
    pub fn zone_setting_url(zone_id: &str, setting_id: &str) -> (r: String)
        ensures
            r@ == zone_url(zone_id@) + "/settings/"@ + setting_id@,
    {
        let mut url = String::from_str("https://api.cloudflare.com/client/v4/zones/");
        url.append(zone_id);
        url.append("/settings/");
        url.append(setting_id);
        url
    }
}

} // verus!
