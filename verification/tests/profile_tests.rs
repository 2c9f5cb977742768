use sref_core::digest::hash_bytes;
use sref_core::profiles::{
    can_delete_profile_db, chrono_now, hash_pin, make_default_config, verify_pin,
};
use sref_core::scan::{
    accepts_extension, is_hidden_name, name_le, sort_files, sort_sources, ScannedFile,
    ScannedSource,
};
use sref_core::textutil::{hex_encode, str_eq, u64_to_string};

#[test]
fn hex_encode_exact_values() {
    assert_eq!(hex_encode(&[]), "");
    assert_eq!(hex_encode(&[0x00]), "00");
    assert_eq!(hex_encode(&[0xDE, 0xAD, 0xBE, 0xEF]), "deadbeef");
    assert_eq!(hex_encode(&[0x0F, 0xF0]), "0ff0");
}

#[test]
fn u64_to_string_exact_values() {
    assert_eq!(u64_to_string(0), "0");
    assert_eq!(u64_to_string(7), "7");
    assert_eq!(u64_to_string(1699999999), "1699999999");
    assert_eq!(u64_to_string(u64::MAX), "18446744073709551615");
}

#[test]
fn str_eq_agrees_with_equality() {
    assert!(str_eq("abc", "abc"));
    assert!(!str_eq("abc", "abd"));
    assert!(!str_eq("abc", "abcd"));
    assert!(str_eq("", ""));
}

#[test]
fn sha256_known_vector() {
    // SHA-256("abc")
    assert_eq!(
        hash_bytes(b"abc"),
        "ba7816bf8f01cfea414140de5dae2223b00361a396177a9cb410ff61f20015ad"
    );
    assert_eq!(
        hash_bytes(b""),
        "e3b0c44298fc1c149afbf4c8996fb92427ae41e4649b934ca495991b7852b855"
    );
}

#[test]
fn pin_round_trip_verifies() {
    let stored = hash_pin("1234").unwrap();
    assert_eq!(stored.len(), 97);
    assert_eq!(stored.as_bytes()[32], b':');
    assert_eq!(verify_pin("1234", &stored), Ok(true));
    assert_eq!(verify_pin("4321", &stored), Ok(false));
}

#[test]
fn pin_hashes_are_salted() {
    let a = hash_pin("1234").unwrap();
    let b = hash_pin("1234").unwrap();
    assert_ne!(a, b);
    assert_eq!(verify_pin("1234", &a), Ok(true));
    assert_eq!(verify_pin("1234", &b), Ok(true));
}

#[test]
fn malformed_stored_hash_is_rejected() {
    assert!(verify_pin("1234", "no-colon-here").is_err());
    assert!(verify_pin("1234", "too:many:colons").is_err());
    assert!(verify_pin("1234", "").is_err());
    assert!(verify_pin("1234", "salt:hash").is_ok());
}

#[test]
fn default_config_fields() {
    let config = make_default_config();
    assert_eq!(config.active_profile_id, "default");
    assert_eq!(config.profiles.len(), 1);
    let p = &config.profiles[0];
    assert_eq!(p.id, "default");
    assert_eq!(p.name, "Default");
    assert_eq!(p.color, "#4A90A4");
    assert!(p.pin_hash.is_none());
    assert_eq!(p.db_filename, "simpl_resultat.db");
    assert!(!p.created_at.is_empty());
    assert!(p.created_at.chars().all(|c| c.is_ascii_digit()));
}

#[test]
fn timestamp_is_decimal_seconds() {
    let now = chrono_now();
    assert!(!now.is_empty());
    assert!(now.chars().all(|c| c.is_ascii_digit()));
}

#[test]
fn default_database_cannot_be_deleted() {
    assert!(!can_delete_profile_db("simpl_resultat.db"));
    assert!(can_delete_profile_db("other_profile.db"));
    assert!(can_delete_profile_db(""));
}

fn file(name: &str) -> ScannedFile {
    ScannedFile {
        filename: name.to_string(),
        file_path: format!("/tmp/{}", name),
        size_bytes: 1,
        modified_at: "0".to_string(),
    }
}

#[test]
fn files_sort_by_filename() {
    let mut v = vec![file("b.csv"), file("a.csv"), file("c.txt"), file("a.csv")];
    sort_files(&mut v);
    let names: Vec<&str> = v.iter().map(|f| f.filename.as_str()).collect();
    assert_eq!(names, vec!["a.csv", "a.csv", "b.csv", "c.txt"]);
}

#[test]
fn sources_sort_by_folder_name() {
    let mk = |name: &str| ScannedSource {
        folder_name: name.to_string(),
        folder_path: format!("/data/{}", name),
        files: Vec::new(),
    };
    let mut v = vec![mk("zeta"), mk("alpha"), mk("midway")];
    sort_sources(&mut v);
    let names: Vec<&str> = v.iter().map(|s| s.folder_name.as_str()).collect();
    assert_eq!(names, vec!["alpha", "midway", "zeta"]);
}

#[test]
fn name_order_is_byte_lexicographic() {
    assert!(name_le("a", "b"));
    assert!(name_le("a", "a"));
    assert!(!name_le("b", "a"));
    assert!(name_le("a", "ab"));
    assert!(!name_le("ab", "a"));
}

#[test]
fn extension_filter_accepts_csv_and_txt_any_case() {
    assert!(accepts_extension("csv"));
    assert!(accepts_extension("CSV"));
    assert!(accepts_extension("txt"));
    assert!(accepts_extension("TxT"));
    assert!(!accepts_extension("pdf"));
    assert!(!accepts_extension("csvx"));
    assert!(!accepts_extension(""));
}

#[test]
fn hidden_folders_are_skipped() {
    assert!(is_hidden_name(".git"));
    assert!(is_hidden_name("."));
    assert!(!is_hidden_name("bank"));
    assert!(!is_hidden_name(""));
}
