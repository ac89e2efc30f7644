use domain_audit::namecheap::{
    api_failure, has_domain_format, listed_domain, parse_domain_info, NamecheapClient,
};
use domain_audit::registrar::{DomainStatus, RegistrarProvider};
use domain_audit::text::{chars_of, contains_text, find_text};

const LIST: &str = "<?xml version=\"1.0\"?>\n<ApiResponse Status=\"OK\">\n <CommandResponse>\n  \
<DomainGetListResult>\n   <Domain ID=\"1\" Name=\"one.example\" Created=\"01/02/2020\" \
Expires=\"01/02/2030\" IsExpired=\"false\" IsLocked=\"true\" AutoRenew=\"true\" \
WhoisGuard=\"ENABLED\" />\n   <Domain ID=\"2\" Name=\"two.example\" Expires=\"03/04/2021\" \
IsExpired=\"true\" IsLocked=\"true\" AutoRenew=\"yes\" WhoisGuard=\"NOTPRESENT\">\n   </Domain>\n   \
<Domain Name=\"three.example\" WhoisGuard=\"true\"/>\n  </DomainGetListResult>\n \
</CommandResponse>\n</ApiResponse>";

#[test]
fn texts_are_found_where_they_first_stand() {
    let hay = chars_of("abcabcä=\"x\"");
    assert_eq!(find_text(&hay, &chars_of("bc"), 0), Some(1));
    assert_eq!(find_text(&hay, &chars_of("bc"), 2), Some(4));
    assert_eq!(find_text(&hay, &chars_of("bc"), 5), None);
    assert_eq!(find_text(&hay, &chars_of(""), 3), Some(3));
    assert_eq!(find_text(&hay, &chars_of(""), 11), Some(11));
    assert_eq!(find_text(&hay, &chars_of(""), 12), None);
    assert_eq!(find_text(&hay, &chars_of("=\""), 0), Some(7));
    assert_eq!(find_text(&hay, &chars_of("abcabcä=\"x\"!"), 0), None);
    assert!(contains_text(&hay, &chars_of("cab")));
    assert!(!contains_text(&hay, &chars_of("cba")));
    for needle in ["a", "abc", "ä=", "x\"", "zz", ""] {
        let text = "abcabcä=\"x\"";
        let expected = text.find(needle).map(|at| text[..at].chars().count());
        assert_eq!(find_text(&hay, &chars_of(needle), 0), expected, "{:?}", needle);
    }
}

#[test]
fn tags_and_attributes_are_read() {
    let xml = chars_of("<a><Message code=\"7\">It failed</Message><Message>again</Message></a>");
    assert_eq!(NamecheapClient::extract_tag(&xml, "Message").as_deref(), Some("It failed"));
    assert_eq!(NamecheapClient::extract_tag(&xml, "a").as_deref(), Some("<Message code=\"7\">It failed</Message><Message>again</Message>"));
    assert_eq!(NamecheapClient::extract_tag(&xml, "Missing"), None);
    assert_eq!(NamecheapClient::extract_tag(&chars_of("<b>open"), "b"), None);
    assert_eq!(NamecheapClient::extract_tag(&chars_of("<b"), "b"), None);
    assert_eq!(NamecheapClient::extract_attr(&xml, "code").as_deref(), Some("7"));
    assert_eq!(NamecheapClient::extract_attr(&xml, "Code"), None);
    assert_eq!(NamecheapClient::extract_attr(&chars_of("x=\"open"), "x"), None);
    assert_eq!(NamecheapClient::extract_attr(&chars_of("x=\"\""), "x").as_deref(), Some(""));
}

#[test]
fn a_list_gives_a_domain_for_each_tag_up_to_its_end() {
    // The second element is not closed in its own tag, so its tag reaches to
    // the end of the third element's.
    let domains = NamecheapClient::parse_domain_list(LIST);
    assert_eq!(domains.len(), 2);
    assert_eq!(domains[0].name, "one.example");
    assert_eq!(domains[0].created, "01/02/2020");
    assert_eq!(domains[0].expires, "01/02/2030");
    assert!(!domains[0].is_expired && domains[0].is_locked && domains[0].auto_renew);
    assert!(domains[0].whois_guard);
    assert_eq!(domains[1].name, "two.example");
    assert_eq!(domains[1].created, "");
    assert!(domains[1].is_expired && domains[1].is_locked && !domains[1].auto_renew);
    assert!(!domains[1].whois_guard);
    let closed = LIST.replace("\">\n   </Domain>", "\"/>");
    let all = NamecheapClient::parse_domain_list(&closed);
    assert_eq!(all.len(), 3);
    assert_eq!(all[2].name, "three.example");
    assert!(all[2].whois_guard);
    assert!(NamecheapClient::parse_domain_list("").is_empty());
    assert!(NamecheapClient::parse_domain_list("<Domains></Domains>").is_empty());
    assert!(NamecheapClient::parse_domain_list("<Domain Name=\"open\"").is_empty());
    assert_eq!(NamecheapClient::parse_domain_list("<Domain Name=\"a\"/><Domain Name=\"b\"").len(), 1);
}

#[test]
fn listed_domains_come_in_the_common_form() {
    let mut domains = NamecheapClient::parse_domain_list(&LIST.replace("\">\n   </Domain>", "\"/>"));
    let third = listed_domain(domains.pop().expect("third"));
    let second = listed_domain(domains.pop().expect("second"));
    let first = listed_domain(domains.pop().expect("first"));
    assert_eq!(first.domain, "one.example");
    assert_eq!(first.registrar, RegistrarProvider::Namecheap);
    assert_eq!(first.status, DomainStatus::Locked);
    assert_eq!(first.expires_at, "01/02/2030");
    assert!(first.locks.transfer_lock && first.locks.auto_renew);
    assert!(first.privacy.enabled);
    assert_eq!(first.privacy.service_name.as_deref(), Some("WhoisGuard"));
    assert!(first.nameservers.current.is_empty());
    assert!(!first.dnssec.enabled);
    assert_eq!(second.status, DomainStatus::Expired);
    assert_eq!(third.status, DomainStatus::Active);
}

#[test]
fn a_failure_is_read_from_the_answer() {
    let failed = "<ApiResponse Status=\"ERROR\"><Errors><Message>API Key is invalid</Message></Errors></ApiResponse>";
    assert_eq!(api_failure(&chars_of(failed)).as_deref(), Some("API Key is invalid"));
    assert_eq!(
        api_failure(&chars_of("<ApiResponse Status=\"ERROR\"/>")).as_deref(),
        Some("Namecheap API error")
    );
    assert_eq!(api_failure(&chars_of(LIST)), None);
    assert_eq!(parse_domain_info("a.example", failed).expect_err("failure"), "API Key is invalid");
}

#[test]
fn the_details_of_a_domain_are_read() {
    let xml = "<ApiResponse Status=\"OK\"><DomainGetInfoResult Status=\"Ok\" ID=\"1\">\
<DomainDetails><CreatedDate>11/04/2014</CreatedDate><ExpiredDate>11/04/2030</ExpiredDate>\
</DomainDetails></DomainGetInfoResult></ApiResponse>";
    let info = parse_domain_info("a.example", xml).expect("info");
    assert_eq!(info.domain, "a.example");
    assert_eq!(info.status, DomainStatus::Active);
    assert_eq!(info.created_at, "11/04/2014");
    assert_eq!(info.expires_at, "11/04/2030");
    assert_eq!(info.privacy.service_name, None);
    let status = |text: &str| {
        parse_domain_info("a.example", &format!("<R Status=\"{}\"/>", text)).expect("info").status
    };
    assert_eq!(status("ACTIVE"), DomainStatus::Active);
    assert_eq!(status("Expired"), DomainStatus::Expired);
    assert_eq!(status("locked"), DomainStatus::Locked);
    assert_eq!(status("other"), DomainStatus::Unknown);
    assert_eq!(parse_domain_info("a.example", "<R/>").expect("info").status, DomainStatus::Unknown);
    assert!(has_domain_format("a.example"));
    assert!(!has_domain_format("localhost"));
}

#[test]
fn requests_carry_the_account() {
    let client = NamecheapClient::new("user", "key", "192.0.2.1", false);
    assert_eq!(client.base_url(), "https://api.namecheap.com/xml.response");
    let sandbox = NamecheapClient::new("user", "key", "192.0.2.1", true);
    assert_eq!(sandbox.base_url(), "https://api.sandbox.namecheap.com/xml.response");
    let params: Vec<(String, String)> = client
        .base_params("namecheap.domains.getList")
        .into_iter()
        .map(|p| (p.name, p.value))
        .collect();
    let expected = [
        ("ApiUser", "user"),
        ("ApiKey", "key"),
        ("UserName", "user"),
        ("ClientIp", "192.0.2.1"),
        ("Command", "namecheap.domains.getList"),
    ];
    assert_eq!(params.len(), expected.len());
    for (got, want) in params.iter().zip(expected.iter()) {
        assert_eq!((got.0.as_str(), got.1.as_str()), *want);
    }
}
