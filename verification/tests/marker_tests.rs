use tv_resolver::fingerprint::{fingerprint, hash_token, str_lex_le, to_hex, FileStamp};
use tv_resolver::marker::{
    check_processed, render_marker_json, sort_tokens, Cache, ProcessedMarker,
};

#[test]
fn test_to_hex_exact() {
    assert_eq!(to_hex(&vec![]), "");
    assert_eq!(to_hex(&vec![0x00, 0xff, 0x1a]), "00ff1a");
}

#[test]
fn test_hash_token_shape() {
    // A 64-character lower-case hexadecimal digest, not the input echoed.
    let t = hash_token(&FileStamp { secs: 10, nanos: 0 });
    assert_eq!(t.len(), 64);
    assert!(t.chars().all(|c| c.is_ascii_hexdigit() && !c.is_ascii_uppercase()));
    let u = hash_token(&FileStamp { secs: 10, nanos: 1 });
    assert_ne!(t, u);
}

#[test]
fn test_fingerprint_deterministic() {
    let stamps = vec![
        FileStamp { secs: 100, nanos: 5 },
        FileStamp { secs: 7, nanos: 0 },
        FileStamp { secs: 100, nanos: 5 },
    ];
    assert_eq!(fingerprint(&stamps), fingerprint(&stamps));
}

#[test]
fn test_fingerprint_order_independent() {
    let a = vec![
        FileStamp { secs: 1, nanos: 2 },
        FileStamp { secs: 3, nanos: 4 },
        FileStamp { secs: 5, nanos: 6 },
    ];
    let b = vec![
        FileStamp { secs: 5, nanos: 6 },
        FileStamp { secs: 1, nanos: 2 },
        FileStamp { secs: 3, nanos: 4 },
    ];
    assert_eq!(fingerprint(&a), fingerprint(&b));
}

#[test]
fn test_fingerprint_is_sorted() {
    let stamps = vec![
        FileStamp { secs: 11, nanos: 0 },
        FileStamp { secs: 22, nanos: 0 },
        FileStamp { secs: 33, nanos: 0 },
    ];
    let fp = fingerprint(&stamps);
    assert_eq!(fp.len(), 3);
    for w in fp.windows(2) {
        assert!(str_lex_le(&w[0], &w[1]));
    }
}

#[test]
fn test_matches_ignores_order() {
    let marker = ProcessedMarker {
        tmdb_id: 42,
        file_hashes: vec!["bb".to_string(), "aa".to_string()],
    };
    assert!(tv_resolver::marker::matches(&marker, &vec!["aa".to_string(), "bb".to_string()]));
    assert!(tv_resolver::marker::matches(&marker, &vec!["bb".to_string(), "aa".to_string()]));
    assert!(!tv_resolver::marker::matches(&marker, &vec!["aa".to_string(), "cc".to_string()]));
    assert!(!tv_resolver::marker::matches(&marker, &vec!["aa".to_string()]));
}

#[test]
fn test_check_processed_absent_marker() {
    let (id, cached) = check_processed(&None, &vec!["aa".to_string()]);
    assert_eq!(id, 0);
    assert!(!cached);
}

#[test]
fn test_check_processed_unchanged_directory() {
    let marker = ProcessedMarker {
        tmdb_id: 1399,
        file_hashes: vec!["bb".to_string(), "aa".to_string()],
    };
    let current = vec!["aa".to_string(), "bb".to_string()];
    let (id, cached) = check_processed(&Some(marker), &current);
    assert_eq!(id, 1399);
    assert!(cached);
}

#[test]
fn test_check_processed_changed_directory() {
    let marker = ProcessedMarker {
        tmdb_id: 1399,
        file_hashes: vec!["aa".to_string()],
    };
    let current = vec!["zz".to_string()];
    let (id, cached) = check_processed(&Some(marker), &current);
    assert_eq!(id, 0);
    assert!(!cached);
}

#[test]
fn test_sort_tokens() {
    let sorted = sort_tokens(&vec!["b".to_string(), "a".to_string(), "ab".to_string()]);
    assert_eq!(sorted, vec!["a".to_string(), "ab".to_string(), "b".to_string()]);
}

#[test]
fn test_render_marker_json_exact() {
    let marker = ProcessedMarker {
        tmdb_id: 7,
        file_hashes: vec!["ab".to_string(), "cd".to_string()],
    };
    assert_eq!(
        render_marker_json(&marker),
        "{\"tmdb_id\":7,\"file_hashes\":[\"ab\",\"cd\"]}"
    );
    let empty = ProcessedMarker { tmdb_id: 0, file_hashes: vec![] };
    assert_eq!(render_marker_json(&empty), "{\"tmdb_id\":0,\"file_hashes\":[]}");
}

#[test]
fn test_render_marker_json_escapes() {
    let marker = ProcessedMarker {
        tmdb_id: 1,
        file_hashes: vec!["a\"b\\c\nd".to_string()],
    };
    assert_eq!(
        render_marker_json(&marker),
        "{\"tmdb_id\":1,\"file_hashes\":[\"a\\\"b\\\\c\\nd\"]}"
    );
}

#[test]
fn test_cache_new() {
    let cache = Cache::new(9, vec!["aa".to_string()]);
    assert_eq!(cache.tmdb_id, 9);
    assert_eq!(cache.file_hashes, vec!["aa".to_string()]);
}
