use domain_audit::api_keys::{
    default_algorithm, default_iterations, default_key_length, reseal_api_key,
    reseal_api_key_with, seal_anew, ApiKey,
};
use domain_audit::audit::{keep_newest, serialize_audit_entries, AuditExport, AuditRow};
use domain_audit::crypto::{CryptoManager, EncryptionConfig};
use domain_audit::mcp::{
    available_tool_definitions, default_enabled_tool_set, mark_enabled, normalize_host,
    normalize_port, sanitize_enabled_tools, server_url,
};
use domain_audit::storage::{Storage, StorageError};

#[test]
fn api_key_lifecycle() {
    let mut keys: Vec<ApiKey> = Vec::new();
    let config = EncryptionConfig::default();
    let id = "key_1".to_string();
    Storage::add_api_key(
        &mut keys,
        id.clone(),
        "primary".to_string(),
        "enc_v1".to_string(),
        Some("user@example.com".to_string()),
        config.clone(),
    );

    assert_eq!(keys.len(), 1);
    assert_eq!(keys[0].id, id);
    assert_eq!(keys[0].label, "primary");
    assert_eq!(keys[0].encrypted_key, "enc_v1");
    assert_eq!(keys[0].email.as_deref(), Some("user@example.com"));
    assert_eq!(keys[0].iterations, config.iterations);
    assert_eq!(keys[0].key_length, config.key_length);
    assert_eq!(keys[0].algorithm, config.algorithm);

    let encrypted = Storage::get_encrypted_key(&keys, &id).expect("get encrypted key");
    assert_eq!(encrypted, "enc_v1");

    Storage::update_api_key(
        &mut keys,
        &id,
        Some("updated".to_string()),
        Some("new@example.com".to_string()),
        Some("enc_v2".to_string()),
        Some(1234),
        Some(16),
        Some("AES-256-GCM".to_string()),
    )
    .expect("update api key");

    assert_eq!(keys.len(), 1);
    assert_eq!(keys[0].label, "updated");
    assert_eq!(keys[0].email.as_deref(), Some("new@example.com"));
    assert_eq!(keys[0].encrypted_key, "enc_v2");
    assert_eq!(keys[0].iterations, 1234);
    assert_eq!(keys[0].key_length, 16);
    assert_eq!(keys[0].algorithm, "AES-256-GCM");

    Storage::delete_api_key(&mut keys, &id);
    assert!(keys.is_empty());
    let missing = Storage::get_encrypted_key(&keys, &id);
    assert!(matches!(missing, Err(StorageError::NotFound)));
}

#[test]
fn an_update_touches_one_key_and_only_the_fields_given() {
    let mut keys: Vec<ApiKey> = Vec::new();
    for n in 0..3 {
        Storage::add_api_key(
            &mut keys,
            format!("key_{}", n),
            format!("label {}", n),
            format!("sealed {}", n),
            None,
            EncryptionConfig::default(),
        );
    }
    Storage::update_api_key(&mut keys, "key_1", None, Some("a@b.c".to_string()), None, None, None, None)
        .expect("update");
    assert_eq!(keys[1].label, "label 1");
    assert_eq!(keys[1].email.as_deref(), Some("a@b.c"));
    assert_eq!(keys[1].encrypted_key, "sealed 1");
    assert_eq!(keys[0].email, None);
    assert_eq!(keys[2].label, "label 2");
    let missing = Storage::update_api_key(&mut keys, "key_9", Some("x".to_string()), None, None, None, None, None);
    assert!(matches!(missing, Err(StorageError::NotFound)));
    assert_eq!(Storage::get_api_key(&keys, "key_2").expect("key").label, "label 2");
    assert!(matches!(Storage::get_api_key(&keys, "key_9"), Err(StorageError::NotFound)));
    Storage::delete_api_key(&mut keys, "key_0");
    assert_eq!(keys.iter().map(|k| k.id.as_str()).collect::<Vec<_>>(), vec!["key_1", "key_2"]);
    Storage::delete_api_key(&mut keys, "key_9");
    assert_eq!(keys.len(), 2);
    assert_eq!(default_iterations(), 100_000);
    assert_eq!(default_key_length(), 32);
    assert_eq!(default_algorithm(), "AES-256-GCM");
}

#[test]
fn a_key_is_sealed_anew_under_another_password() {
    let old_config = EncryptionConfig { iterations: 5, key_length: 32, algorithm: "AES-256-GCM".to_string() };
    let new_config = EncryptionConfig { iterations: 7, key_length: 32, algorithm: "AES-256-GCM".to_string() };
    let sealed = CryptoManager::new(old_config.clone()).encrypt("the token", "old").expect("seal");
    let key = ApiKey {
        id: "key_1".to_string(),
        label: "l".to_string(),
        email: None,
        encrypted_key: sealed,
        iterations: 5,
        key_length: 32,
        algorithm: "AES-256-GCM".to_string(),
    };
    let again = reseal_api_key(&key, "old", "new", new_config.clone()).expect("reseal");
    assert_eq!(again.iterations, 7);
    assert_eq!(
        CryptoManager::new(new_config.clone()).decrypt(&again.encrypted_key, "new").expect("open"),
        "the token"
    );
    assert!(reseal_api_key(&key, "wrong", "new", new_config).is_err());
}

#[test]
fn audit_log_retains_last_1000() {
    let mut entries: Vec<u32> = Vec::new();
    for idx in 0..1005 {
        entries = Storage::add_audit_entry(entries, idx);
    }
    assert_eq!(entries.len(), 1000);
    assert_eq!(entries[0], 5);
    assert_eq!(entries[999], 1004);
}

#[test]
fn audit_log_roundtrip() {
    let mut entries: Vec<&str> = Vec::new();
    entries = Storage::add_audit_entry(entries, "login");
    entries = Storage::add_audit_entry(entries, "logout");
    assert_eq!(entries.len(), 2);
    assert_eq!(entries[0], "login");
    assert_eq!(entries[1], "logout");
    assert_eq!(keep_newest(vec![1, 2, 3], 2), vec![2, 3]);
    assert_eq!(keep_newest(vec![1, 2, 3], 3), vec![1, 2, 3]);
    assert_eq!(keep_newest(vec![1, 2, 3], 0), Vec::<i32>::new());
}

#[test]
fn the_audit_log_is_exported_as_csv() {
    let rows = vec![
        AuditRow {
            timestamp: "2030-01-01T00:00:00Z".to_string(),
            operation: "api_key:add".to_string(),
            resource: "key_1".to_string(),
            details: "{\"label\":\"a \\\"b\\\"\"}".to_string(),
        },
        AuditRow {
            timestamp: String::new(),
            operation: "x,y".to_string(),
            resource: "\"".to_string(),
            details: "{}".to_string(),
        },
    ];
    match serialize_audit_entries(&rows, "csv") {
        Ok(AuditExport::Text(text)) => assert_eq!(
            text,
            "timestamp,operation,resource,details\n\
             \"2030-01-01T00:00:00Z\",\"api_key:add\",\"key_1\",\"{\"\"label\"\":\"\"a \\\"\"b\\\"\"\"\"}\"\n\
             \"\",\"x,y\",\"\"\"\",\"{}\""
        ),
        other => panic!("no text: {:?}", other),
    }
    match serialize_audit_entries(&Vec::new(), "csv") {
        Ok(AuditExport::Text(text)) => assert_eq!(text, "timestamp,operation,resource,details"),
        other => panic!("no text: {:?}", other),
    }
    assert!(matches!(serialize_audit_entries(&rows, "json"), Ok(AuditExport::Json)));
    assert_eq!(serialize_audit_entries(&rows, "xml").expect_err("refused"), "Unsupported format");
}

#[test]
fn only_known_tools_can_be_enabled() {
    let all = default_enabled_tool_set();
    assert_eq!(all.len(), 15);
    assert_eq!(all[0], "cf_verify_token");
    assert_eq!(all[14], "spf_graph");
    let tools = available_tool_definitions();
    assert_eq!(tools.len(), 15);
    assert!(tools.iter().all(|t| t.enabled));
    assert_eq!(tools[13].title, "Simulate SPF");
    assert_eq!(tools[13].description, "Run SPF evaluation for a domain/IP combination.");
    let asked: Vec<String> = [" spf_graph ", "", "nonsense", "cf_list_zones", "spf_graph", "SPF_GRAPH"]
        .iter()
        .map(|s| s.to_string())
        .collect();
    assert_eq!(sanitize_enabled_tools(&asked), vec!["spf_graph", "cf_list_zones"]);
    assert!(sanitize_enabled_tools(&Vec::new()).is_empty());
    let marked = mark_enabled(&vec!["spf_graph".to_string()]);
    assert_eq!(marked.iter().filter(|t| t.enabled).count(), 1);
    assert!(marked[14].enabled);
}

#[test]
fn the_server_listens_where_it_is_told_or_at_home() {
    assert_eq!(normalize_host(None), "127.0.0.1");
    assert_eq!(normalize_host(Some("  ".to_string())), "127.0.0.1");
    assert_eq!(normalize_host(Some(" 0.0.0.0 ".to_string())), "0.0.0.0");
    assert_eq!(normalize_port(None), 8787);
    assert_eq!(normalize_port(Some(0)), 8787);
    assert_eq!(normalize_port(Some(9000)), 9000);
    assert_eq!(server_url("127.0.0.1", 8787), "http://127.0.0.1:8787/mcp");
}

fn config(iterations: u32, key_length: usize) -> EncryptionConfig {
    EncryptionConfig { iterations, key_length, algorithm: "AES-256-GCM".to_string() }
}

fn sealed_key(text: &str, password: &str) -> ApiKey {
    ApiKey {
        id: "key_1".to_string(),
        label: "l".to_string(),
        email: None,
        encrypted_key: CryptoManager::new(config(5, 32)).encrypt(text, password).expect("seal"),
        iterations: 5,
        key_length: 32,
        algorithm: "AES-256-GCM".to_string(),
    }
}

#[test]
fn sealing_anew_with_a_salt_and_a_nonce_is_sealing_what_the_key_held() {
    let key = sealed_key("the token", "old");
    let salt = vec![7u8; 16];
    let nonce = vec![9u8; 12];
    let again = reseal_api_key_with(&key, "old", "new", config(7, 32), &salt, &nonce)
        .expect("reseal");
    assert_eq!(again.iterations, 7);
    assert_eq!(again.key_length, 32);
    assert_eq!(again.algorithm, "AES-256-GCM");
    let direct = CryptoManager::new(config(7, 32))
        .encrypt_with("the token", "new", &salt, &nonce)
        .expect("seal");
    assert_eq!(again.encrypted_key, direct);
    assert_ne!(again.encrypted_key, key.encrypted_key);
    assert_eq!(
        CryptoManager::new(config(7, 32)).decrypt(&again.encrypted_key, "new").expect("open"),
        "the token"
    );
    let twice = reseal_api_key_with(&key, "old", "new", config(7, 32), &salt, &nonce)
        .expect("reseal");
    assert_eq!(twice.encrypted_key, again.encrypted_key);
    let other = reseal_api_key_with(&key, "old", "new", config(7, 32), &vec![8u8; 16], &nonce)
        .expect("reseal");
    assert_ne!(other.encrypted_key, again.encrypted_key);
    let alone = seal_anew("the token", "new", config(7, 32), &salt, &nonce).expect("seal");
    assert_eq!(alone.encrypted_key, direct);
}

#[test]
fn a_key_that_does_not_open_is_not_sealed_anew() {
    let key = sealed_key("the token", "old");
    let salt = vec![7u8; 16];
    let nonce = vec![9u8; 12];
    let wrong = CryptoManager::new(config(5, 32))
        .decrypt(&key.encrypted_key, "wrong")
        .expect_err("a refusal")
        .message();
    assert!(wrong.starts_with("Decryption failed: "));
    assert_eq!(
        reseal_api_key_with(&key, "wrong", "new", config(7, 32), &salt, &nonce).unwrap_err(),
        wrong
    );
    assert_eq!(reseal_api_key(&key, "wrong", "new", config(7, 32)).unwrap_err(), wrong);
    let mut broken = sealed_key("the token", "old");
    broken.encrypted_key = "not-base64".to_string();
    assert_eq!(
        reseal_api_key(&broken, "old", "new", config(7, 32)).unwrap_err(),
        "Invalid format"
    );
    assert_eq!(
        reseal_api_key_with(&broken, "old", "new", config(7, 32), &salt, &nonce).unwrap_err(),
        "Invalid format"
    );
    assert_eq!(
        reseal_api_key(&broken, "old", "new", config(7, 16)).unwrap_err(),
        "Invalid format"
    );
}

#[test]
fn a_key_is_not_sealed_anew_with_a_key_length_that_the_cipher_refuses() {
    let key = sealed_key("the token", "old");
    let refused = reseal_api_key(&key, "old", "new", config(7, 16)).unwrap_err();
    assert!(refused.starts_with("Encryption failed: "));
    let refused =
        reseal_api_key_with(&key, "old", "new", config(7, 16), &vec![7u8; 16], &vec![9u8; 12])
            .unwrap_err();
    assert!(refused.starts_with("Encryption failed: "));
}
