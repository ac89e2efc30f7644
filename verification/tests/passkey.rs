use base64::Engine;
use domain_audit::passkey::{
    extract_client_challenge, fresh_token, write_token, Credential, PasskeyError, PasskeyManager,
    PASSKEY_TIMEOUT_MS,
};
use domain_audit::storage::Storage;

fn encode_client_data(challenge: &str) -> String {
    let mut payload = serde_json::Map::new();
    payload.insert("challenge".to_string(), serde_json::Value::String(challenge.to_string()));
    base64::engine::general_purpose::URL_SAFE_NO_PAD
        .encode(serde_json::Value::Object(payload).to_string().as_bytes())
}

fn credential(id: Option<&str>, raw_id: Option<&str>) -> Credential {
    Credential { id: id.map(|s| s.to_string()), raw_id: raw_id.map(|s| s.to_string()), counter: None }
}

#[test]
fn registration_and_authentication_flow() {
    let mut mgr = PasskeyManager::new(Storage::new(false));
    let id = "key_1";

    let options = mgr.get_registration_options(id).expect("options");
    let challenge = options.challenge.clone();

    let attestation = credential(Some("cred_1"), Some("cred_1_raw"));
    let client_data = encode_client_data(&challenge);
    mgr.register_passkey(id, Some(&client_data), &attestation).expect("register passkey");
    let stored = vec![attestation];

    let auth_options = mgr.get_auth_options(id, &stored).expect("auth opts");
    let auth_challenge = auth_options.challenge.clone();
    assert!(auth_options.allow_credentials.iter().any(|c| c == "cred_1"));

    let assertion = credential(Some("cred_1"), Some("cred_1_raw"));
    let client_data = encode_client_data(&auth_challenge);
    let token = mgr.authenticate_passkey(id, Some(&client_data), &assertion, &stored).expect("auth");
    assert_eq!(
        base64::engine::general_purpose::URL_SAFE_NO_PAD.decode(&token).expect("token").len(),
        32
    );
}

#[test]
fn challenge_mismatch_rejected() {
    let mut mgr = PasskeyManager::new(Storage::new(false));
    let id = "key_2";
    let options = mgr.get_registration_options(id).expect("options");
    let challenge = options.challenge.clone();

    let attestation = credential(Some("cred_bad"), None);
    let client_data = encode_client_data(&format!("{challenge}-wrong"));

    let result = mgr.register_passkey(id, Some(&client_data), &attestation);
    assert!(result.is_err());
    match result {
        Err(e) => assert_eq!(e.message(), "Passkey error: Challenge mismatch"),
        Ok(()) => unreachable!(),
    }
    assert!(mgr.expected_challenge(id).is_some());
}

#[test]
fn list_and_delete_passkeys() {
    let mut mgr = PasskeyManager::new(Storage::new(false));
    let id = "key_3";
    let options = mgr.get_registration_options(id).expect("options");
    let client_data = encode_client_data(&options.challenge);
    let attestation = credential(Some("cred_list"), None);
    mgr.register_passkey(id, Some(&client_data), &attestation).expect("register passkey");
    let stored = vec![attestation];

    let list = mgr.list_passkeys(&stored);
    assert_eq!(list.len(), 1);
    assert_eq!(list[0].id, "cred_list");

    let kept = mgr.delete_passkey(&stored, "cred_list");
    assert!(kept.is_empty());
}

#[test]
fn options_carry_what_the_client_needs() {
    let mut mgr = PasskeyManager::new(Storage::new(false));
    let options = mgr.get_registration_options("user@example.com").expect("options");
    assert_eq!(options.timeout_ms, PASSKEY_TIMEOUT_MS);
    assert_eq!(options.timeout_ms, 60000);
    assert_eq!(
        options.user_id,
        base64::engine::general_purpose::URL_SAFE_NO_PAD.encode("user@example.com".as_bytes())
    );
    assert!(options.allow_credentials.is_empty());
    assert_eq!(
        base64::engine::general_purpose::URL_SAFE_NO_PAD.decode(&options.challenge).expect("b64").len(),
        32
    );
    assert_eq!(mgr.expected_challenge("user@example.com"), Some(&options.challenge));
    assert_eq!(mgr.expected_challenge("other"), None);
    let again = mgr.get_registration_options("user@example.com").expect("options");
    assert_ne!(again.challenge, options.challenge);
    assert_eq!(mgr.expected_challenge("user@example.com"), Some(&again.challenge));
    let stored = vec![
        credential(Some("a"), Some("a_raw")),
        credential(None, Some("b_raw")),
        credential(None, None),
    ];
    let auth = mgr.get_auth_options("other", &stored).expect("options");
    assert_eq!(auth.allow_credentials, vec!["a".to_string(), "b_raw".to_string()]);
    assert_eq!(mgr.expected_challenge("user@example.com"), Some(&again.challenge));
}

#[test]
fn client_data_is_read_in_three_forms_of_base64() {
    let json = "{\"challenge\":\"abc?>\",\"type\":\"webauthn.get\"}";
    let unpadded = base64::engine::general_purpose::URL_SAFE_NO_PAD.encode(json);
    let padded = base64::engine::general_purpose::URL_SAFE.encode(json);
    let standard = base64::engine::general_purpose::STANDARD.encode("{\"challenge\":\"~~~>>>???\"}");
    assert_ne!(unpadded, padded);
    assert!(standard.contains('+') || standard.contains('/'));
    assert_eq!(extract_client_challenge(Some(&unpadded)).expect("unpadded"), "abc?>");
    assert_eq!(extract_client_challenge(Some(&padded)).expect("padded"), "abc?>");
    assert_eq!(extract_client_challenge(Some(&standard)).expect("standard"), "~~~>>>???");
    let missing = extract_client_challenge(None).expect_err("missing");
    assert_eq!(missing.message(), "Passkey error: Missing clientDataJSON");
    let no_field = base64::engine::general_purpose::URL_SAFE_NO_PAD.encode("{\"challenge\":5}");
    let absent = extract_client_challenge(Some(&no_field)).expect_err("absent");
    assert_eq!(absent.message(), "Passkey error: Missing challenge");
    let not_json = base64::engine::general_purpose::URL_SAFE_NO_PAD.encode("nonsense");
    assert!(matches!(extract_client_challenge(Some(&not_json)), Err(PasskeyError::Error(_))));
    let not_base64 = extract_client_challenge(Some("***")).expect_err("not base64");
    let theirs = base64::engine::general_purpose::STANDARD.decode("***").expect_err("error");
    assert_eq!(not_base64.message(), format!("Passkey error: {}", theirs));
}

#[test]
fn a_login_needs_a_challenge_a_stored_credential_and_a_match() {
    let mut mgr = PasskeyManager::new(Storage::new(false));
    let stored = vec![credential(Some("cred_1"), Some("cred_1_raw"))];
    let answer = credential(Some("cred_1"), None);
    let nothing_out = mgr.authenticate_passkey("id", Some("x"), &answer, &stored);
    assert!(matches!(nothing_out, Err(PasskeyError::NotFound)));
    let options = mgr.get_auth_options("id", &stored).expect("options");
    let client_data = encode_client_data(&options.challenge);
    let none_stored = mgr.authenticate_passkey("id", Some(&client_data), &answer, &Vec::new());
    assert!(matches!(none_stored, Err(PasskeyError::NotFound)));
    let stranger = credential(Some("cred_1"), Some("unknown"));
    let no_match = mgr.authenticate_passkey("id", Some(&client_data), &stranger, &stored);
    assert!(matches!(no_match, Err(PasskeyError::NotFound)));
    assert_eq!(mgr.expected_challenge("id"), Some(&options.challenge));
    let anonymous = credential(None, None);
    assert!(mgr.authenticate_passkey("id", Some(&client_data), &anonymous, &stored).is_ok());
    assert_eq!(mgr.expected_challenge("id"), None);
    let used = mgr.authenticate_passkey("id", Some(&client_data), &answer, &stored);
    assert!(matches!(used, Err(PasskeyError::NotFound)));
    assert_eq!(PasskeyError::NotFound.message(), "Not found");
}

#[test]
fn credentials_are_listed_and_deleted_by_either_identifier() {
    let mgr = PasskeyManager::new(Storage::new(false));
    let mut stored = vec![
        credential(Some("a"), Some("a_raw")),
        credential(None, Some("b_raw")),
        credential(Some("c"), None),
    ];
    stored[2].counter = Some(7);
    let list = mgr.list_passkeys(&stored);
    assert_eq!(list.len(), 3);
    assert_eq!((list[0].id.as_str(), list[0].counter), ("a", 0));
    assert_eq!((list[1].id.as_str(), list[1].counter), ("cred_1", 0));
    assert_eq!((list[2].id.as_str(), list[2].counter), ("c", 7));
    assert_eq!(mgr.delete_passkey(&stored, "a_raw"), vec![1, 2]);
    assert_eq!(mgr.delete_passkey(&stored, "b_raw"), vec![0, 2]);
    assert_eq!(mgr.delete_passkey(&stored, "c"), vec![0, 1]);
    assert_eq!(mgr.delete_passkey(&stored, "none"), vec![0, 1, 2]);
}

#[test]
fn passkey_storage_roundtrip() {
    let mgr = PasskeyManager::new(Storage::new(false));
    let mut list = vec![credential(Some("cred_1"), None), credential(Some("cred_2"), None)];
    assert_eq!(list.len(), 2);
    let kept = mgr.delete_passkey(&list, "cred_1");
    let mut position = 0;
    list.retain(|_| {
        position += 1;
        kept.contains(&(position - 1))
    });
    assert_eq!(list.len(), 1);
    assert_eq!(list[0].id.as_deref(), Some("cred_2"));
}

#[test]
fn a_token_is_the_bytes_drawn_in_url_safe_base64_without_padding() {
    assert_eq!(write_token(None), None);
    assert_eq!(write_token(Some(Vec::new())), Some(String::new()));
    assert_eq!(write_token(Some(vec![0xfb, 0xff])), Some(String::from("-_8")));
    assert_eq!(write_token(Some(vec![0u8; 32])), Some("A".repeat(43)));
    assert_eq!(
        write_token(Some(b"hello world".to_vec())),
        Some(String::from("aGVsbG8gd29ybGQ"))
    );
}

#[test]
fn a_fresh_token_spells_thirty_two_bytes_and_differs_from_the_last() {
    let first = fresh_token().expect("random bytes");
    let second = fresh_token().expect("random bytes");
    assert_eq!(first.len(), 43);
    let bytes = base64::engine::general_purpose::URL_SAFE_NO_PAD.decode(&first).expect("base64");
    assert_eq!(bytes.len(), 32);
    assert_ne!(first, second);
}
