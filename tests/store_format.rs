use bcbc::store::{
    add_hash_file_line, decode_hash_file_contents, load_hash_info, parse_hash_store,
    to_hash_file_contents, HashStore,
};

fn digest(hex_text: &str) -> [u8; 16] {
    let bytes = hex::decode(hex_text).unwrap();
    let mut d = [0u8; 16];
    d.copy_from_slice(&bytes);
    d
}

#[test]
fn record_line_is_path_colon_lowercase_hex() {
    let line = add_hash_file_line(
        String::new(),
        "docs/a.txt",
        &digest("900150983CD24FB0D6963F7D28E17F72"),
    );
    assert_eq!(line, "docs/a.txt:900150983cd24fb0d6963f7d28e17f72\n");
}

#[test]
fn store_text_round_trips() {
    let mut store = HashStore::new();
    store.insert("docs/a.txt".to_string(), digest("900150983cd24fb0d6963f7d28e17f72"));
    store.insert("docs/b.txt".to_string(), digest("d16fb36f0911f878998c136191af705e"));
    let text = to_hash_file_contents(&store);
    assert_eq!(
        text,
        "docs/a.txt:900150983cd24fb0d6963f7d28e17f72\ndocs/b.txt:d16fb36f0911f878998c136191af705e\n"
    );
    let loaded = parse_hash_store(&text, "out/A1").ok().unwrap();
    assert_eq!(loaded.len(), 2);
    assert_eq!(
        loaded.get(&"docs/a.txt".to_string()),
        Some(digest("900150983cd24fb0d6963f7d28e17f72"))
    );
    assert_eq!(
        loaded.get(&"docs/b.txt".to_string()),
        Some(digest("d16fb36f0911f878998c136191af705e"))
    );
}

#[test]
fn empty_store_round_trips() {
    let store = HashStore::new();
    let text = to_hash_file_contents(&store);
    assert_eq!(text, "");
    let loaded = parse_hash_store(&text, "out/A1").ok().unwrap();
    assert_eq!(loaded.len(), 0);
}

#[test]
fn later_line_wins_for_one_path() {
    let text = "a:900150983cd24fb0d6963f7d28e17f72\na:d16fb36f0911f878998c136191af705e\n";
    let loaded = parse_hash_store(text, "out/A1").ok().unwrap();
    assert_eq!(loaded.len(), 1);
    assert_eq!(
        loaded.get(&"a".to_string()),
        Some(digest("d16fb36f0911f878998c136191af705e"))
    );
}

#[test]
fn upper_case_hex_is_accepted() {
    let text = "a:900150983CD24FB0D6963F7D28E17F72";
    let loaded = parse_hash_store(text, "out/A1").ok().unwrap();
    assert_eq!(
        loaded.get(&"a".to_string()),
        Some(digest("900150983cd24fb0d6963f7d28e17f72"))
    );
}

#[test]
fn missing_separator_reports_line_number() {
    let text = "a:900150983cd24fb0d6963f7d28e17f72\nno separator here\n";
    let errors = parse_hash_store(text, "out/A1").err().unwrap();
    assert_eq!(errors.len(), 1);
    assert_eq!(errors[0].message(), "malformed hash store line[out/A1:2]");
}

#[test]
fn short_hash_is_rejected() {
    let text = "a:9001\n";
    let errors = parse_hash_store(text, "out/B7").err().unwrap();
    assert_eq!(errors[0].message(), "malformed hash store line[out/B7:1]");
}

#[test]
fn bad_hex_digit_is_rejected() {
    let text = "a:900150983cd24fb0d6963f7d28e17f7g\n";
    assert!(parse_hash_store(text, "s").is_err());
}

#[test]
fn carriage_return_is_not_a_line_end() {
    let text = "a:900150983cd24fb0d6963f7d28e17f72\r\n";
    let errors = parse_hash_store(text, "s").err().unwrap();
    assert_eq!(errors[0].message(), "malformed hash store line[s:1]");
}

#[test]
fn empty_middle_line_is_rejected() {
    let text = "a:900150983cd24fb0d6963f7d28e17f72\n\nb:900150983cd24fb0d6963f7d28e17f72\n";
    let errors = parse_hash_store(text, "s").err().unwrap();
    assert_eq!(errors[0].message(), "malformed hash store line[s:2]");
}

#[test]
fn missing_store_file_loads_empty() {
    let loaded = load_hash_info(None, "out/A1").ok().unwrap();
    assert_eq!(loaded.len(), 0);
}

#[test]
fn invalid_utf8_store_is_an_error() {
    let errors = decode_hash_file_contents(vec![0x61, 0xff, 0x0a]).err().unwrap();
    assert_eq!(errors[0].message(), "the hash store is not valid UTF-8");
    assert!(load_hash_info(Some(vec![0xc3]), "s").is_err());
}

#[test]
fn insert_replaces_existing_hash() {
    let mut store = HashStore::new();
    store.insert("x".to_string(), digest("900150983cd24fb0d6963f7d28e17f72"));
    store.insert("x".to_string(), digest("d16fb36f0911f878998c136191af705e"));
    assert_eq!(store.len(), 1);
    assert!(store.contains(&"x".to_string()));
    assert!(!store.contains(&"y".to_string()));
}

#[test]
fn store_bytes_load() {
    let bytes = b"docs/\xc3\xa9.txt:900150983cd24fb0d6963f7d28e17f72\n".to_vec();
    let loaded = load_hash_info(Some(bytes), "out/A1").ok().unwrap();
    assert_eq!(
        loaded.get(&"docs/\u{e9}.txt".to_string()),
        Some(digest("900150983cd24fb0d6963f7d28e17f72"))
    );
}

#[test]
fn every_malformed_line_is_reported() {
    let text = "bad\na:900150983cd24fb0d6963f7d28e17f72\nb:12\n\nc:900150983cd24fb0d6963f7d28e17f72";
    let errors = parse_hash_store(text, "out/A1").err().unwrap();
    assert_eq!(errors.len(), 3);
    assert_eq!(errors[0].message(), "malformed hash store line[out/A1:1]");
    assert_eq!(errors[1].message(), "malformed hash store line[out/A1:3]");
    assert_eq!(errors[2].message(), "malformed hash store line[out/A1:4]");
}
