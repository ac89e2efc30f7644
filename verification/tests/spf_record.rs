use domain_audit::spf::record::parse_spf;

#[test]
fn parse_spf_basic() {
    let record = "v=spf1 ip4:192.0.2.0/24 -all redirect=example.com";
    let parsed = parse_spf(record).expect("parse spf");
    assert_eq!(parsed.version, "v=spf1");
    assert_eq!(parsed.mechanisms.len(), 2);
    assert_eq!(parsed.mechanisms[0].mechanism, "ip4");
    assert_eq!(parsed.mechanisms[0].value.as_deref(), Some("192.0.2.0/24"));
    assert_eq!(parsed.mechanisms[1].mechanism, "all");
    assert_eq!(parsed.mechanisms[1].qualifier.as_deref(), Some("-"));
    assert_eq!(parsed.modifiers.len(), 1);
    assert_eq!(parsed.modifiers[0].key, "redirect");
    assert_eq!(parsed.modifiers[0].value, "example.com");
}

#[test]
fn text_without_the_tag_is_no_record() {
    assert!(parse_spf("").is_none());
    assert!(parse_spf("v=spf").is_none());
    assert!(parse_spf("spf1 -all").is_none());
    assert!(parse_spf("x v=spf1 -all").is_none());
}

#[test]
fn the_tag_is_found_in_any_case_and_after_white_space() {
    let parsed = parse_spf("  \tV=SpF1 MX  ~ALL \n").expect("parse spf");
    assert_eq!(parsed.version, "v=spf1");
    assert_eq!(parsed.mechanisms.len(), 2);
    assert_eq!(parsed.mechanisms[0].mechanism, "mx");
    assert_eq!(parsed.mechanisms[0].qualifier.as_deref(), Some("+"));
    assert_eq!(parsed.mechanisms[0].value, None);
    assert_eq!(parsed.mechanisms[1].mechanism, "all");
    assert_eq!(parsed.mechanisms[1].qualifier.as_deref(), Some("~"));
}

#[test]
fn a_record_of_the_tag_alone_is_empty() {
    let parsed = parse_spf("v=spf1").expect("parse spf");
    assert!(parsed.mechanisms.is_empty());
    assert!(parsed.modifiers.is_empty());
}

#[test]
fn tokens_keep_their_order_and_split_at_the_first_separator() {
    let parsed = parse_spf("v=spf1 +a ?ip6:2001:db8::/32 EXP=Explain=It -include:x.example exists")
        .expect("parse spf");
    let names: Vec<&str> = parsed.mechanisms.iter().map(|m| m.mechanism.as_str()).collect();
    assert_eq!(names, vec!["a", "ip6", "include", "exists"]);
    assert_eq!(parsed.mechanisms[0].qualifier.as_deref(), Some("+"));
    assert_eq!(parsed.mechanisms[1].qualifier.as_deref(), Some("?"));
    assert_eq!(parsed.mechanisms[1].value.as_deref(), Some("2001:db8::/32"));
    assert_eq!(parsed.mechanisms[2].qualifier.as_deref(), Some("-"));
    assert_eq!(parsed.mechanisms[2].value.as_deref(), Some("x.example"));
    assert_eq!(parsed.modifiers.len(), 1);
    assert_eq!(parsed.modifiers[0].key, "exp");
    assert_eq!(parsed.modifiers[0].value, "Explain=It");
}

#[test]
fn names_are_lowered_as_unicode_lowers_them() {
    let parsed = parse_spf("v=spf1 ÀLL Ä=ö").expect("parse spf");
    assert_eq!(parsed.mechanisms[0].mechanism, "àll");
    assert_eq!(parsed.modifiers[0].key, "ä");
    assert_eq!(parsed.modifiers[0].value, "ö");
}

#[test]
fn a_lone_qualifier_is_a_mechanism_without_a_name() {
    let parsed = parse_spf("v=spf1 - a:").expect("parse spf");
    assert_eq!(parsed.mechanisms[0].qualifier.as_deref(), Some("-"));
    assert_eq!(parsed.mechanisms[0].mechanism, "");
    assert_eq!(parsed.mechanisms[0].value, None);
    assert_eq!(parsed.mechanisms[1].mechanism, "a");
    assert_eq!(parsed.mechanisms[1].value.as_deref(), Some(""));
}

#[test]
fn a_mechanism_without_a_qualifier_has_the_qualifier_plus() {
    let parsed = parse_spf("v=spf1 all ~mx ?a:Mail.Example").expect("parse spf");
    assert_eq!(parsed.mechanisms.len(), 3);
    assert_eq!(parsed.mechanisms[0].qualifier.as_deref(), Some("+"));
    assert_eq!(parsed.mechanisms[0].mechanism, "all");
    assert_eq!(parsed.mechanisms[0].value, None);
    assert_eq!(parsed.mechanisms[1].qualifier.as_deref(), Some("~"));
    assert_eq!(parsed.mechanisms[1].mechanism, "mx");
    assert_eq!(parsed.mechanisms[1].value, None);
    assert_eq!(parsed.mechanisms[2].qualifier.as_deref(), Some("?"));
    assert_eq!(parsed.mechanisms[2].mechanism, "a");
    assert_eq!(parsed.mechanisms[2].value.as_deref(), Some("Mail.Example"));
    for m in &parsed.mechanisms {
        assert!(matches!(m.qualifier.as_deref(), Some("+") | Some("-") | Some("~") | Some("?")));
    }
}
