use domain_audit::providers::{
    cloudflare_status_of, godaddy_status_of, google_status_of, namecom_status_of,
    parse_cloudflare_domain, parse_godaddy_domain, parse_google_registration,
    parse_namecom_domain, parse_porkbun_domain, parse_report, parse_reports,
    porkbun_status_of, CloudflareRegistrarClient, GoDaddyClient, GoogleDomainsClient,
    JsonRegistrar, NameComClient, PorkbunClient,
};
use domain_audit::registrar::{DomainStatus, RegistrarProvider};

const NOW: &str = "2025-06-01T00:00:00Z";

#[test]
fn godaddy_report_is_read_field_by_field() {
    let report = br#"{
        "domain": "example.com",
        "status": "ACTIVE",
        "createdAt": "2020-01-02T03:04:05Z",
        "expires": "2030-01-02T03:04:05Z",
        "modifiedAt": "2024-05-06T07:08:09Z",
        "nameServers": ["ns1.example.net", 7, "ns2.example.net", null],
        "locked": true,
        "renewAuto": false,
        "privacy": true,
        "contactRegistrant": {
            "nameFirst": "Ada",
            "nameLast": "Lovelace",
            "organization": "Engines",
            "email": "ada@example.com",
            "phone": "+44.123",
            "addressMailing": {"city": "London", "state": "LND", "country": "GB"}
        }
    }"#;
    let info = parse_godaddy_domain(report, "");
    assert_eq!(info.domain, "example.com");
    assert_eq!(info.registrar, RegistrarProvider::GoDaddy);
    assert_eq!(info.status, DomainStatus::Active);
    assert_eq!(info.created_at, "2020-01-02T03:04:05Z");
    assert_eq!(info.expires_at, "2030-01-02T03:04:05Z");
    assert_eq!(info.updated_at.as_deref(), Some("2024-05-06T07:08:09Z"));
    assert_eq!(info.nameservers.current, vec!["ns1.example.net", "ns2.example.net"]);
    assert!(!info.nameservers.is_custom);
    assert!(info.locks.transfer_lock);
    assert!(!info.locks.auto_renew);
    assert!(!info.dnssec.enabled);
    assert!(info.dnssec.ds_records.is_none());
    assert!(info.privacy.enabled);
    assert!(info.privacy.service_name.is_none());
    let contact = info.contact.expect("a registrant");
    assert_eq!(contact.first_name.as_deref(), Some("Ada"));
    assert_eq!(contact.last_name.as_deref(), Some("Lovelace"));
    assert_eq!(contact.organization.as_deref(), Some("Engines"));
    assert_eq!(contact.email.as_deref(), Some("ada@example.com"));
    assert_eq!(contact.phone.as_deref(), Some("+44.123"));
    assert_eq!(contact.city.as_deref(), Some("London"));
    assert_eq!(contact.state.as_deref(), Some("LND"));
    assert_eq!(contact.country.as_deref(), Some("GB"));
}

#[test]
fn a_report_that_says_nothing_is_read_with_the_defaults() {
    let info = parse_godaddy_domain(b"{}", "");
    assert_eq!(info.domain, "");
    assert_eq!(info.status, DomainStatus::Unknown);
    assert_eq!(info.created_at, "");
    assert_eq!(info.expires_at, "");
    assert!(info.updated_at.is_none());
    assert!(info.nameservers.current.is_empty());
    assert!(!info.locks.transfer_lock);
    assert!(!info.locks.auto_renew);
    assert!(!info.privacy.enabled);
    assert!(info.contact.is_none());
}

#[test]
fn bytes_that_are_no_json_are_read_as_a_report_that_says_nothing() {
    let info = parse_godaddy_domain(b"not json", "");
    assert_eq!(info.domain, "");
    assert_eq!(info.status, DomainStatus::Unknown);
    assert!(info.contact.is_none());
    let info = parse_namecom_domain(b"[1, 2", "", NOW);
    assert_eq!(info.status, DomainStatus::Active);
    assert_eq!(info.expires_at, "");
}

#[test]
fn a_registrant_without_details_is_still_a_registrant() {
    let info = parse_godaddy_domain(br#"{"contactRegistrant": null}"#, "");
    let contact = info.contact.expect("a registrant");
    assert!(contact.first_name.is_none());
    assert!(contact.city.is_none());
}

#[test]
fn godaddy_statuses() {
    assert_eq!(godaddy_status_of("active"), DomainStatus::Active);
    assert_eq!(godaddy_status_of("expired"), DomainStatus::Expired);
    assert_eq!(godaddy_status_of("pending_transfer"), DomainStatus::PendingTransfer);
    assert_eq!(godaddy_status_of("transferred_out"), DomainStatus::PendingTransfer);
    assert_eq!(godaddy_status_of("pending_setup"), DomainStatus::Pending);
    assert_eq!(godaddy_status_of("expired_reassigned"), DomainStatus::Unknown);
    assert_eq!(godaddy_status_of("inactive"), DomainStatus::Unknown);
    assert_eq!(godaddy_status_of(""), DomainStatus::Unknown);
}

#[test]
fn cloudflare_statuses() {
    assert_eq!(cloudflare_status_of("active"), DomainStatus::Active);
    assert_eq!(cloudflare_status_of("inactive"), DomainStatus::Unknown);
    assert_eq!(cloudflare_status_of("expiredparked"), DomainStatus::Expired);
    assert_eq!(cloudflare_status_of("pendingtransfer"), DomainStatus::PendingTransfer);
    assert_eq!(cloudflare_status_of("registrationpending"), DomainStatus::Pending);
    assert_eq!(cloudflare_status_of("redemptionperiod"), DomainStatus::Redemption);
    assert_eq!(cloudflare_status_of("locked"), DomainStatus::Locked);
    assert_eq!(cloudflare_status_of("expired lock"), DomainStatus::Expired);
    assert_eq!(cloudflare_status_of("unknown"), DomainStatus::Unknown);
}

#[test]
fn google_states() {
    assert_eq!(google_status_of("ACTIVE"), DomainStatus::Active);
    assert_eq!(google_status_of("EXPIRED"), DomainStatus::Expired);
    assert_eq!(google_status_of("SUSPENDED"), DomainStatus::Locked);
    assert_eq!(google_status_of("REGISTRATION_PENDING"), DomainStatus::Pending);
    assert_eq!(google_status_of("TRANSFER_PENDING"), DomainStatus::Pending);
    assert_eq!(google_status_of("TRANSFER_FAILED"), DomainStatus::PendingTransfer);
    assert_eq!(google_status_of("active"), DomainStatus::Unknown);
    assert_eq!(google_status_of("REGISTRATION_STATE_UNSPECIFIED"), DomainStatus::Unknown);
}

#[test]
fn porkbun_and_namecom_statuses() {
    assert_eq!(porkbun_status_of("active"), DomainStatus::Active);
    assert_eq!(porkbun_status_of("inactive"), DomainStatus::Active);
    assert_eq!(porkbun_status_of("expired"), DomainStatus::Expired);
    assert_eq!(porkbun_status_of("unknown"), DomainStatus::Unknown);
    assert_eq!(namecom_status_of(true, true), DomainStatus::Expired);
    assert_eq!(namecom_status_of(true, false), DomainStatus::Expired);
    assert_eq!(namecom_status_of(false, true), DomainStatus::Locked);
    assert_eq!(namecom_status_of(false, false), DomainStatus::Active);
}

#[test]
fn the_status_is_read_in_any_letter_case() {
    let info = parse_godaddy_domain(br#"{"status": "Pending_Transfer"}"#, "");
    assert_eq!(info.status, DomainStatus::PendingTransfer);
    let info = parse_cloudflare_domain(br#"{"status": "RedemptionPeriod"}"#, "");
    assert_eq!(info.status, DomainStatus::Redemption);
    let info = parse_porkbun_domain(br#"{"status": "ACTIVE"}"#, "");
    assert_eq!(info.status, DomainStatus::Active);
    let info = parse_google_registration(br#"{"state": "active"}"#, "");
    assert_eq!(info.status, DomainStatus::Unknown);
}

#[test]
fn godaddy_list_of_domains() {
    let response = br#"[{"domain": "a.example", "status": "ACTIVE"}, {"domain": "b.example", "status": "EXPIRED"}]"#;
    let domains = GoDaddyClient::parse_domain_list(response).expect("a list");
    assert_eq!(domains.len(), 2);
    assert_eq!(domains[0].domain, "a.example");
    assert_eq!(domains[0].status, DomainStatus::Active);
    assert_eq!(domains[1].domain, "b.example");
    assert_eq!(domains[1].status, DomainStatus::Expired);
    assert!(GoDaddyClient::parse_domain_list(b"[]").expect("a list").is_empty());
}

#[test]
fn a_long_list_is_read_in_order() {
    let mut response = String::from("[");
    for i in 0..25 {
        if i > 0 {
            response.push(',');
        }
        response.push_str(&format!("{{\"domain\": \"d{}.example\"}}", i));
    }
    response.push(']');
    let domains = GoDaddyClient::parse_domain_list(response.as_bytes()).expect("a list");
    assert_eq!(domains.len(), 25);
    for (i, domain) in domains.iter().enumerate() {
        assert_eq!(domain.domain, format!("d{}.example", i));
    }
}

#[test]
fn godaddy_failures() {
    assert_eq!(
        GoDaddyClient::parse_domain_list(br#"{"message": "Unauthorized"}"#).unwrap_err(),
        "Unauthorized"
    );
    assert_eq!(
        GoDaddyClient::parse_domain_list(br#"{"code": 1}"#).unwrap_err(),
        "Unexpected GoDaddy API response"
    );
    assert_eq!(
        GoDaddyClient::parse_domain_info(br#"{"message": "No such domain"}"#).unwrap_err(),
        "No such domain"
    );
    assert_eq!(GoDaddyClient::parse_domain_info(b"{}").unwrap_err(), "Domain not found");
    let found = GoDaddyClient::parse_domain_info(br#"{"domain": "a.example", "locked": true}"#)
        .expect("a domain");
    assert_eq!(found.domain, "a.example");
    assert!(found.locks.transfer_lock);
}

#[test]
fn godaddy_requests() {
    let client = GoDaddyClient::new("key", "secret");
    assert_eq!(client.auth_header(), "sso-key key:secret");
    assert_eq!(GoDaddyClient::domains_url(), "https://api.godaddy.com/v1/domains");
    assert_eq!(
        GoDaddyClient::domain_url("a.example"),
        "https://api.godaddy.com/v1/domains/a.example"
    );
    assert_eq!(GoDaddyClient::verify_url(), "https://api.godaddy.com/v1/domains?limit=1");
}

#[test]
fn cloudflare_registrar_responses() {
    let response = br#"{"success": true, "result": [
        {"name": "a.example", "status": "active", "name_servers": ["x.ns", "y.ns"],
         "created_at": "2020", "expires_at": "2030", "updated_at": "2024",
         "locked": true, "auto_renew": true, "privacy": true},
        {"name": "b.example", "status": "pendingTransfer"}
    ]}"#;
    let domains = CloudflareRegistrarClient::parse_domain_list(response).expect("a list");
    assert_eq!(domains.len(), 2);
    assert_eq!(domains[0].domain, "a.example");
    assert_eq!(domains[0].registrar, RegistrarProvider::Cloudflare);
    assert_eq!(domains[0].status, DomainStatus::Active);
    assert_eq!(domains[0].nameservers.current, vec!["x.ns", "y.ns"]);
    assert_eq!(domains[0].created_at, "2020");
    assert_eq!(domains[0].expires_at, "2030");
    assert_eq!(domains[0].updated_at.as_deref(), Some("2024"));
    assert!(domains[0].locks.transfer_lock);
    assert!(domains[0].locks.auto_renew);
    assert!(domains[0].privacy.enabled);
    assert!(domains[0].contact.is_none());
    assert_eq!(domains[1].status, DomainStatus::PendingTransfer);
    assert!(!domains[1].locks.transfer_lock);

    assert!(CloudflareRegistrarClient::parse_domain_list(br#"{"success": true}"#)
        .expect("a list")
        .is_empty());
    assert_eq!(
        CloudflareRegistrarClient::parse_domain_list(
            br#"{"success": false, "errors": [{"message": "Forbidden"}, {"message": "Other"}]}"#
        )
        .unwrap_err(),
        "Forbidden"
    );
    assert_eq!(
        CloudflareRegistrarClient::parse_domain_list(br#"{"success": false, "errors": []}"#)
            .unwrap_err(),
        "Unknown Cloudflare Registrar error"
    );
    assert_eq!(
        CloudflareRegistrarClient::parse_domain_list(
            br#"{"errors": {"0": {"message": "not a list"}}}"#
        )
        .unwrap_err(),
        "Unknown Cloudflare Registrar error"
    );
    let found = CloudflareRegistrarClient::parse_domain_info(
        br#"{"success": true, "result": {"name": "a.example", "status": "locked"}}"#,
    )
    .expect("a domain");
    assert_eq!(found.domain, "a.example");
    assert_eq!(found.status, DomainStatus::Locked);
    assert_eq!(
        CloudflareRegistrarClient::parse_domain_info(br#"{"success": "true"}"#).unwrap_err(),
        "Unknown error"
    );
}

#[test]
fn cloudflare_registrar_account_and_addresses() {
    assert_eq!(
        CloudflareRegistrarClient::parse_account_id(br#"{"result": [{"id": "abc"}, {"id": "def"}]}"#),
        Ok(String::from("abc"))
    );
    assert_eq!(
        CloudflareRegistrarClient::parse_account_id(br#"{"result": []}"#),
        Err(String::from("Failed to resolve Cloudflare account ID"))
    );
    assert_eq!(
        CloudflareRegistrarClient::parse_account_id(br#"{"result": {"id": "abc"}}"#),
        Err(String::from("Failed to resolve Cloudflare account ID"))
    );
    assert_eq!(
        CloudflareRegistrarClient::accounts_url(),
        "https://api.cloudflare.com/client/v4/accounts?per_page=1"
    );
    assert_eq!(
        CloudflareRegistrarClient::domains_url("abc"),
        "https://api.cloudflare.com/client/v4/accounts/abc/registrar/domains"
    );
    assert_eq!(
        CloudflareRegistrarClient::domain_url("abc", "a.example"),
        "https://api.cloudflare.com/client/v4/accounts/abc/registrar/domains/a.example"
    );
    let client = CloudflareRegistrarClient::new("key", Some("me@example.com"), None);
    let headers = client.credential.apply_auth();
    assert_eq!(headers.len(), 2);
    assert_eq!(headers[0].name, "X-Auth-Email");
    assert_eq!(headers[0].value, "me@example.com");
    assert_eq!(headers[1].name, "X-Auth-Key");
    assert_eq!(headers[1].value, "key");
    assert!(client.account_id.is_none());
    let client = CloudflareRegistrarClient::new("token", None, Some("abc"));
    let headers = client.credential.apply_auth();
    assert_eq!(headers.len(), 1);
    assert_eq!(headers[0].name, "Authorization");
    assert_eq!(headers[0].value, "Bearer token");
    assert_eq!(client.account_id.as_deref(), Some("abc"));
}

#[test]
fn google_registration_is_read_field_by_field() {
    let registration = br#"{
        "domainName": "example.dev",
        "state": "SUSPENDED",
        "createTime": "2021",
        "expireTime": "2031",
        "updateTime": "2025",
        "dnsSettings": {"customDns": {"nameServers": ["ns.example.net"]}},
        "contactSettings": {"privacy": "REDACTED_CONTACT_DATA"},
        "transferLockState": "LOCKED",
        "managementSettings": {"renewalMethod": "AUTOMATIC_RENEWAL"}
    }"#;
    let info = parse_google_registration(registration, "");
    assert_eq!(info.domain, "example.dev");
    assert_eq!(info.registrar, RegistrarProvider::Google);
    assert_eq!(info.status, DomainStatus::Locked);
    assert_eq!(info.created_at, "2021");
    assert_eq!(info.expires_at, "2031");
    assert_eq!(info.updated_at.as_deref(), Some("2025"));
    assert_eq!(info.nameservers.current, vec!["ns.example.net"]);
    assert!(info.nameservers.is_custom);
    assert!(info.locks.transfer_lock);
    assert!(info.locks.auto_renew);
    assert!(info.privacy.enabled);
    assert!(info.privacy.service_name.is_none());
    assert!(info.contact.is_none());

    let open = parse_google_registration(
        br#"{"contactSettings": {"privacy": "PUBLIC_CONTACT_DATA"},
             "transferLockState": "UNLOCKED",
             "managementSettings": {"renewalMethod": "MANUAL_RENEWAL"},
             "dnsSettings": {"customDns": {"nameServers": []}}}"#,
        "",
    );
    assert!(!open.privacy.enabled);
    assert!(!open.locks.transfer_lock);
    assert!(!open.locks.auto_renew);
    assert!(!open.nameservers.is_custom);
    assert_eq!(open.status, DomainStatus::Unknown);
    assert!(!parse_google_registration(b"{}", "").privacy.enabled);
}

#[test]
fn google_responses_and_addresses() {
    let domains = GoogleDomainsClient::parse_domain_list(
        br#"{"registrations": [{"domainName": "a.dev", "state": "ACTIVE"}]}"#,
    )
    .expect("a list");
    assert_eq!(domains.len(), 1);
    assert_eq!(domains[0].domain, "a.dev");
    assert_eq!(domains[0].status, DomainStatus::Active);
    assert!(GoogleDomainsClient::parse_domain_list(b"{}").expect("a list").is_empty());
    assert_eq!(
        GoogleDomainsClient::parse_domain_list(br#"{"error": {"message": "denied"}}"#).unwrap_err(),
        "denied"
    );
    assert_eq!(
        GoogleDomainsClient::parse_domain_list(br#"{"error": null}"#).unwrap_err(),
        "Google Domains API error"
    );
    assert_eq!(
        GoogleDomainsClient::parse_domain_info(br#"{"error": {"code": 404}}"#).unwrap_err(),
        "Domain not found"
    );
    let found = GoogleDomainsClient::parse_domain_info(br#"{"domainName": "a.dev"}"#)
        .expect("a registration");
    assert_eq!(found.domain, "a.dev");

    let client = GoogleDomainsClient::new("token", "project-1", "");
    assert_eq!(client.location, "global");
    assert_eq!(
        client.registrations_url(),
        "https://domains.googleapis.com/v1/projects/project-1/locations/global/registrations"
    );
    let client = GoogleDomainsClient::new("token", "project-1", "europe");
    assert_eq!(client.access_token, "token");
    assert_eq!(
        client.registration_url("a.dev"),
        "https://domains.googleapis.com/v1/projects/project-1/locations/europe/registrations/a.dev"
    );
    assert_eq!(
        client.verify_url(),
        "https://domains.googleapis.com/v1/projects/project-1/locations/europe/registrations?pageSize=1"
    );
}

#[test]
fn namecom_report_is_read_against_the_present_instant() {
    let report = br#"{
        "domainName": "example.org",
        "locked": true,
        "autorenewEnabled": true,
        "privacyEnabled": true,
        "nameservers": ["ns1.name.com"],
        "createDate": "2019-01-01T00:00:00Z",
        "expireDate": "2025-05-31T23:59:59Z",
        "contacts": {"registrant": {
            "firstName": "Grace", "lastName": "Hopper", "companyName": "Navy",
            "email": "grace@example.org", "phone": "+1.555",
            "city": "Arlington", "state": "VA", "country": "US"}}
    }"#;
    let info = parse_namecom_domain(report, "", NOW);
    assert_eq!(info.domain, "example.org");
    assert_eq!(info.registrar, RegistrarProvider::NameCom);
    assert_eq!(info.status, DomainStatus::Expired);
    assert_eq!(info.created_at, "2019-01-01T00:00:00Z");
    assert_eq!(info.expires_at, "2025-05-31T23:59:59Z");
    assert!(info.updated_at.is_none());
    assert_eq!(info.nameservers.current, vec!["ns1.name.com"]);
    assert!(info.locks.transfer_lock);
    assert!(info.locks.auto_renew);
    assert!(info.privacy.enabled);
    assert_eq!(info.privacy.service_name.as_deref(), Some("Name.com Privacy"));
    let contact = info.contact.expect("a registrant");
    assert_eq!(contact.first_name.as_deref(), Some("Grace"));
    assert_eq!(contact.organization.as_deref(), Some("Navy"));
    assert_eq!(contact.country.as_deref(), Some("US"));

    let earlier = parse_namecom_domain(report, "", "2025-05-31T23:59:58Z");
    assert_eq!(earlier.status, DomainStatus::Locked);
    let at_expiry = parse_namecom_domain(report, "", "2025-05-31T23:59:59Z");
    assert_eq!(at_expiry.status, DomainStatus::Locked);
    let other_zone = parse_namecom_domain(report, "", "2025-06-01T01:00:00+02:00");
    assert_eq!(other_zone.status, DomainStatus::Locked);
    let no_instant = parse_namecom_domain(report, "", "tomorrow");
    assert_eq!(no_instant.status, DomainStatus::Locked);
    let unlocked = parse_namecom_domain(br#"{"expireDate": "never"}"#, "", NOW);
    assert_eq!(unlocked.status, DomainStatus::Active);
    assert!(unlocked.contact.is_none());
}

#[test]
fn namecom_pages() {
    let page = NameComClient::parse_page(
        br#"{"domains": [{"domainName": "a.org"}, {"domainName": "b.org"}], "nextPage": 2}"#,
        NOW,
    )
    .expect("a page");
    assert_eq!(page.domains.len(), 2);
    assert_eq!(page.domains[1].domain, "b.org");
    assert!(page.more);
    let last = NameComClient::parse_page(br#"{"domains": [{"domainName": "c.org"}]}"#, NOW)
        .expect("a page");
    assert_eq!(last.domains.len(), 1);
    assert!(!last.more);
    let empty = NameComClient::parse_page(br#"{"domains": [], "nextPage": 3}"#, NOW)
        .expect("a page");
    assert!(empty.domains.is_empty());
    assert!(!empty.more);
    assert_eq!(
        NameComClient::parse_page(br#"{"message": "Unauthenticated"}"#, NOW).unwrap_err(),
        "Unauthenticated"
    );
    assert_eq!(
        NameComClient::parse_page(br#"{"message": "Unauthenticated", "domains": null}"#, NOW)
            .unwrap_err(),
        "Unauthenticated"
    );
    let both = NameComClient::parse_page(
        br#"{"message": "partial", "domains": [{"domainName": "a.org"}]}"#,
        NOW,
    )
    .expect("a page");
    assert_eq!(both.domains.len(), 1);
    let odd = NameComClient::parse_page(br#"{"message": "odd", "domains": 3}"#, NOW)
        .expect("a page");
    assert!(odd.domains.is_empty());
}

#[test]
fn namecom_single_domain_and_addresses() {
    let found = NameComClient::parse_domain_info(br#"{"domainName": "a.org"}"#, NOW)
        .expect("a domain");
    assert_eq!(found.domain, "a.org");
    assert_eq!(
        NameComClient::parse_domain_info(br#"{"message": "Not Found"}"#, NOW).unwrap_err(),
        "Not Found"
    );
    assert_eq!(NameComClient::parse_domain_info(b"{}", NOW).unwrap_err(), "Domain not found");
    assert_eq!(NameComClient::page_url(1), "https://api.name.com/v4/domains?page=1&perPage=100");
    assert_eq!(NameComClient::page_url(12), "https://api.name.com/v4/domains?page=12&perPage=100");
    assert_eq!(NameComClient::domain_url("a.org"), "https://api.name.com/v4/domains/a.org");
    assert_eq!(NameComClient::verify_url(), "https://api.name.com/v4/hello");
    let client = NameComClient::new("user", "token");
    assert_eq!(client.username, "user");
    assert_eq!(client.api_token, "token");
}

#[test]
fn porkbun_report_goes_by_either_name_of_a_member() {
    let first = parse_porkbun_domain(
        br#"{"domain": "a.example", "status": "ACTIVE",
             "nameservers": ["one.ns"], "ns": ["two.ns"],
             "autoRenew": true, "auto_renew": false,
             "whoisPrivacy": false, "whois_privacy": true,
             "createDate": "2020", "create_date": "1999",
             "expireDate": "2030", "expire_date": "2001",
             "locked": true}"#,
        "",
    );
    assert_eq!(first.domain, "a.example");
    assert_eq!(first.registrar, RegistrarProvider::Porkbun);
    assert_eq!(first.status, DomainStatus::Active);
    assert_eq!(first.nameservers.current, vec!["one.ns"]);
    assert!(first.locks.auto_renew);
    assert!(!first.privacy.enabled);
    assert_eq!(first.created_at, "2020");
    assert_eq!(first.expires_at, "2030");
    assert!(first.locks.transfer_lock);
    assert_eq!(first.privacy.service_name.as_deref(), Some("Porkbun WHOIS Privacy"));
    assert!(first.updated_at.is_none());
    assert!(first.contact.is_none());

    let second = parse_porkbun_domain(
        br#"{"ns": ["two.ns"], "auto_renew": true, "whois_privacy": true,
             "create_date": "1999", "expire_date": "2001", "nameservers": "none"}"#,
        "",
    );
    assert_eq!(second.nameservers.current, vec!["two.ns"]);
    assert!(second.locks.auto_renew);
    assert!(second.privacy.enabled);
    assert_eq!(second.created_at, "1999");
    assert_eq!(second.expires_at, "2001");
    assert_eq!(second.status, DomainStatus::Unknown);
}

#[test]
fn porkbun_responses() {
    let domains = PorkbunClient::parse_domain_list(
        br#"{"status": "SUCCESS", "domains": [{"domain": "a.example"}, {"domain": "b.example"}]}"#,
    )
    .expect("a list");
    assert_eq!(domains.len(), 2);
    assert_eq!(domains[0].domain, "a.example");
    assert!(PorkbunClient::parse_domain_list(br#"{"status": "SUCCESS"}"#)
        .expect("a list")
        .is_empty());
    assert_eq!(
        PorkbunClient::parse_domain_list(br#"{"status": "ERROR", "message": "Invalid API key"}"#)
            .unwrap_err(),
        "Invalid API key"
    );
    assert_eq!(
        PorkbunClient::parse_domain_list(br#"{"status": "success"}"#).unwrap_err(),
        "Porkbun API error"
    );
    assert!(PorkbunClient::parse_success(br#"{"status": "SUCCESS"}"#));
    assert!(!PorkbunClient::parse_success(br#"{"status": "ERROR"}"#));
    assert!(!PorkbunClient::parse_success(b"{}"));

    let found = PorkbunClient::find_domain(domains, "b.example").expect("a domain");
    assert_eq!(found.domain, "b.example");
    let again = PorkbunClient::parse_domain_list(
        br#"{"status": "SUCCESS", "domains": [{"domain": "a.example", "locked": true}, {"domain": "a.example"}]}"#,
    )
    .expect("a list");
    let first = PorkbunClient::find_domain(again, "a.example").expect("a domain");
    assert!(first.locks.transfer_lock);
    assert_eq!(
        PorkbunClient::find_domain(Vec::new(), "c.example").unwrap_err(),
        "Domain c.example not found in Porkbun account"
    );
}

#[test]
fn porkbun_requests() {
    let client = PorkbunClient::new("key", "secret");
    let body = client.auth_body();
    assert_eq!(body.len(), 2);
    assert_eq!(body[0].name, "apikey");
    assert_eq!(body[0].value, "key");
    assert_eq!(body[1].name, "secretapikey");
    assert_eq!(body[1].value, "secret");
    assert_eq!(PorkbunClient::domains_url(), "https://api.porkbun.com/api/json/v3/domain/listAll");
    assert_eq!(PorkbunClient::verify_url(), "https://api.porkbun.com/api/json/v3/ping");
}

#[test]
fn a_report_is_read_where_it_stands() {
    let response = br#"{"data": {"items": [{"domain": "a.example"}, {"domain": "b.example"}]}}"#;
    let second = parse_report(JsonRegistrar::GoDaddy, response, "/data/items/1", NOW);
    assert_eq!(second.domain, "b.example");
    assert_eq!(second.registrar, RegistrarProvider::GoDaddy);
    let none = parse_report(JsonRegistrar::Porkbun, response, "/data/items/2", NOW);
    assert_eq!(none.domain, "");
    assert_eq!(none.registrar, RegistrarProvider::Porkbun);
    let all = parse_reports(JsonRegistrar::Porkbun, response, "/data/items", NOW);
    assert_eq!(all.len(), 2);
    assert_eq!(all[0].domain, "a.example");
    assert!(parse_reports(JsonRegistrar::Porkbun, response, "/data", NOW).is_empty());
    assert!(parse_reports(JsonRegistrar::Porkbun, response, "data/items", NOW).is_empty());
    let named = parse_report(
        JsonRegistrar::NameCom,
        br#"[{"domainName": "a.org", "expireDate": "2000-01-01T00:00:00Z"}]"#,
        "/0",
        NOW,
    );
    assert_eq!(named.status, DomainStatus::Expired);
    let registered = parse_report(JsonRegistrar::Google, br#"{"domainName": "a.dev"}"#, "", NOW);
    assert_eq!(registered.registrar, RegistrarProvider::Google);
    let listed = parse_report(JsonRegistrar::Cloudflare, br#"{"name": "a.example"}"#, "", NOW);
    assert_eq!(listed.domain, "a.example");
}
