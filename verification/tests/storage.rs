use domain_audit::storage::{
    join_chunks, parse_chunk_marker, split_value_for_keyring, KeyringOp, KeyringRead, Storage,
    StorageError, KEYRING_MAX_VALUE_BYTES,
};
use domain_audit::text::decimal_text;

#[test]
fn chunk_helpers_roundtrip() {
    let input = "a".repeat(KEYRING_MAX_VALUE_BYTES * 2 + 15);
    let chunks = split_value_for_keyring(&input, KEYRING_MAX_VALUE_BYTES);
    assert_eq!(chunks.len(), 3);
    assert!(chunks.iter().all(|c| c.len() <= KEYRING_MAX_VALUE_BYTES));
    assert_eq!(chunks.concat(), input);
    assert_eq!(parse_chunk_marker("__chunked__:12"), Some(12));
    assert_eq!(parse_chunk_marker("plain"), None);
}

#[test]
fn chunk_markers_are_read_as_the_standard_library_reads_numbers() {
    for text in ["", "0", "007", "+5", "+", "-1", "1 ", " 1", "1_000", "12a", "18446744073709551615",
        "18446744073709551616", "99999999999999999999999", "+18446744073709551615", "٣"]
    {
        let marked = format!("__chunked__:{}", text);
        assert_eq!(parse_chunk_marker(&marked), text.parse::<usize>().ok(), "{:?}", text);
    }
    assert_eq!(parse_chunk_marker("__chunked__"), None);
    assert_eq!(parse_chunk_marker("__CHUNKED__:3"), None);
    assert_eq!(parse_chunk_marker(" __chunked__:3"), None);
}

#[test]
fn chunks_never_cut_a_character() {
    assert_eq!(split_value_for_keyring("", 10), vec![String::new()]);
    assert_eq!(split_value_for_keyring("abc", 10), vec!["abc".to_string()]);
    assert_eq!(split_value_for_keyring("abcdef", 2), vec!["ab", "cd", "ef"]);
    assert_eq!(split_value_for_keyring("aébc", 2), vec!["a", "é", "bc"]);
    assert_eq!(split_value_for_keyring("€€", 2), vec!["€", "€"]);
    assert_eq!(split_value_for_keyring("a😀b", 4), vec!["a", "😀", "b"]);
    assert_eq!(split_value_for_keyring("ab", 0), vec!["a", "b"]);
    for c in ['a', 'é', '€', '😀', '\u{7f}', '\u{80}', '\u{7ff}', '\u{800}', '\u{ffff}', '\u{10000}'] {
        let text: String = std::iter::repeat(c).take(5).collect();
        let pieces = split_value_for_keyring(&text, c.len_utf8());
        assert_eq!(pieces.len(), 5);
        assert!(pieces.iter().all(|p| p.len() == c.len_utf8()));
    }
}

#[test]
fn numbers_are_written_in_decimal() {
    for n in [0u64, 1, 9, 10, 11, 99, 100, 101, 12345, 1_000_000, u64::MAX] {
        assert_eq!(decimal_text(n), n.to_string());
    }
    assert_eq!(Storage::chunk_key("api_keys_list", 0), "api_keys_list::chunk:0");
    assert_eq!(Storage::chunk_key("k", 12), "k::chunk:12");
}

#[test]
fn a_short_secret_is_written_in_one_entry() {
    let ops = Storage::write_keyring_secret("key", "value", 0);
    assert_eq!(ops.len(), 1);
    assert!(matches!(&ops[0], KeyringOp::Write(k, v) if k == "key" && v == "value"));
    let after_chunked = Storage::write_keyring_secret("key", "value", 2);
    assert_eq!(after_chunked.len(), 3);
    assert!(matches!(&after_chunked[1], KeyringOp::Delete(k) if k == "key::chunk:0"));
    assert!(matches!(&after_chunked[2], KeyringOp::Delete(k) if k == "key::chunk:1"));
}

#[test]
fn a_long_secret_is_written_in_chunks_then_marked() {
    let value = "x".repeat(KEYRING_MAX_VALUE_BYTES + 1);
    let ops = Storage::write_keyring_secret("key", &value, 4);
    assert_eq!(ops.len(), 5);
    assert!(matches!(&ops[0], KeyringOp::Write(k, v) if k == "key::chunk:0" && v.len() == 2000));
    assert!(matches!(&ops[1], KeyringOp::Write(k, v) if k == "key::chunk:1" && v == "x"));
    assert!(matches!(&ops[2], KeyringOp::Write(k, v) if k == "key" && v == "__chunked__:2"));
    assert!(matches!(&ops[3], KeyringOp::Delete(k) if k == "key::chunk:2"));
    assert!(matches!(&ops[4], KeyringOp::Delete(k) if k == "key::chunk:3"));
}

#[test]
fn a_chunked_secret_is_read_back_whole() {
    let value = "y".repeat(KEYRING_MAX_VALUE_BYTES * 3);
    let ops = Storage::write_keyring_secret("key", &value, 0);
    let mut entries: Vec<(String, String)> = Vec::new();
    for op in ops {
        if let KeyringOp::Write(k, v) = op {
            entries.push((k, v));
        }
    }
    let head = entries.iter().find(|(k, _)| k == "key").expect("head").1.clone();
    match Storage::read_keyring_secret("key", head) {
        KeyringRead::Chunks(names) => {
            assert_eq!(names, vec!["key::chunk:0", "key::chunk:1", "key::chunk:2"]);
            let chunks: Vec<String> = names
                .iter()
                .map(|n| entries.iter().find(|(k, _)| k == n).expect("chunk").1.clone())
                .collect();
            assert_eq!(join_chunks(&chunks), value);
        }
        KeyringRead::Secret(_) => panic!("not chunked"),
    }
    match Storage::read_keyring_secret("key", "plain".to_string()) {
        KeyringRead::Secret(secret) => assert_eq!(secret, "plain"),
        KeyringRead::Chunks(_) => panic!("chunked"),
    }
    let deletes = Storage::delete_chunk_entries("key", 2);
    assert_eq!(deletes.len(), 3);
    assert!(matches!(&deletes[0], KeyringOp::Delete(k) if k == "key"));
    assert!(matches!(&deletes[2], KeyringOp::Delete(k) if k == "key::chunk:1"));
}

#[test]
fn vault_secret_roundtrip() {
    let mut storage = Storage::new(false);
    storage.store_vault_secret("key_1", "secret", false);
    let secret = storage.get_vault_secret("key_1", None).expect("get vault secret");
    assert_eq!(secret, "secret");
    storage.delete_vault_secret("key_1");
    let missing = storage.get_vault_secret("key_1", None);
    assert!(matches!(missing, Err(StorageError::NotFound)));
}

#[test]
fn memory_keeps_one_secret_for_each_key() {
    let mut storage = Storage::new(false);
    assert!(!storage.use_keyring());
    storage.store_secret("a", "1", false);
    storage.store_secret("b", "2", true);
    storage.store_secret("a", "3", false);
    assert_eq!(storage.get_secret("a", None).expect("a"), "3");
    assert_eq!(storage.get_secret("b", Some("ignored".to_string())).expect("b"), "2");
    storage.delete_secret("a");
    assert!(matches!(storage.get_secret("a", None), Err(StorageError::NotFound)));
    assert_eq!(storage.get_secret("b", None).expect("b"), "2");
    storage.delete_secret("missing");
    assert_eq!(StorageError::NotFound.message(), "Not found");
    assert_eq!(StorageError::Error("x".to_string()).message(), "Storage error: x");
    assert_eq!(StorageError::KeyringError("y".to_string()).message(), "Keyring error: y");
}

#[test]
fn the_keyring_comes_first_where_it_is_wanted() {
    let mut storage = Storage::default();
    assert!(storage.use_keyring());
    storage.store_secret("a", "in keyring", true);
    assert!(matches!(storage.get_secret("a", None), Err(StorageError::NotFound)));
    assert_eq!(storage.get_secret("a", Some("in keyring".to_string())).expect("a"), "in keyring");
    storage.store_secret("a", "in memory", false);
    assert_eq!(storage.get_secret("a", None).expect("a"), "in memory");
    assert_eq!(storage.get_secret("a", Some("in keyring".to_string())).expect("a"), "in keyring");
}
