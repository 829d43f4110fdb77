use fediq::ids;
use fediq::names;
use fediq::text;

#[test]
fn contains_finds_substrings() {
    assert!(text::contains_bytes(b"hello world", b"lo wo"));
    assert!(text::contains_bytes(b"hello", b""));
    assert!(text::contains_bytes(b"hello", b"hello"));
    assert!(!text::contains_bytes(b"hello", b"world"));
    assert!(!text::contains_bytes(b"ab", b"abc"));
}

#[test]
fn lexicographic_order_matches_str_order() {
    assert!(text::lex_less(b"ab", b"b"));
    assert!(text::lex_less(b"", b"a"));
    assert!(text::lex_less(b"abc", b"abd"));
    assert!(text::lex_less(b"ab", b"abc"));
    assert!(!text::lex_less(b"b", b"ab"));
    assert!(!text::lex_less(b"a", b"a"));
}

#[test]
fn decimal_format_and_parse() {
    assert_eq!(text::format_u128(0), b"0".to_vec());
    assert_eq!(text::format_u128(7), b"7".to_vec());
    assert_eq!(text::format_u128(12034), b"12034".to_vec());
    assert_eq!(text::format_u128(u128::MAX), format!("{}", u128::MAX).into_bytes());
    assert_eq!(text::parse_u64(b"0"), Some(0));
    assert_eq!(text::parse_u64(b"18446744073709551615"), Some(u64::MAX));
    assert_eq!(text::parse_u64(b"18446744073709551616"), None);
    assert_eq!(text::parse_u64(b"99999999999999999999"), None);
    assert_eq!(text::parse_u64(b""), None);
    assert_eq!(text::parse_u64(b"12a"), None);
}

#[test]
fn id_text_round_trip_against_reference() {
    // cross-check the verified codec against the ulid crate itself
    let reference = ulid::Ulid::from_string("01ARZ3NDEKTSV4RRFFQ69G5FAV").unwrap();
    let parsed = ids::parse_id(b"01ARZ3NDEKTSV4RRFFQ69G5FAV").unwrap();
    assert_eq!(parsed, reference.0);
    let rendered = ids::format_id(parsed);
    assert_eq!(rendered, reference.to_string().into_bytes());
}

#[test]
fn id_text_accepts_lower_case() {
    let upper = ids::parse_id(b"01ARZ3NDEKTSV4RRFFQ69G5FAV").unwrap();
    let lower = ids::parse_id(b"01arz3ndektsv4rrffq69g5fav").unwrap();
    assert_eq!(upper, lower);
}

#[test]
fn id_text_rejects_bad_strings() {
    assert_eq!(ids::parse_id(b"tooshort"), Err(ids::IdParseError::InvalidLength));
    assert_eq!(
        ids::parse_id(b"01ARZ3NDEKTSV4RRFFQ69G5FA!"),
        Err(ids::IdParseError::InvalidChar)
    );
    // I, L, O and U are not in the alphabet
    assert_eq!(
        ids::parse_id(b"01ARZ3NDEKTSV4RRFFQ69G5FAI"),
        Err(ids::IdParseError::InvalidChar)
    );
}

#[test]
fn id_codec_round_trips_fresh_ids() {
    for _ in 0..16 {
        let id = ulid::Ulid::generate().0;
        let rendered = ids::format_id(id);
        assert_eq!(ids::parse_id(&rendered), Ok(id));
        assert_eq!(rendered, ulid::Ulid(id).to_string().into_bytes());
    }
}

#[test]
fn successor_counts_up_and_wraps() {
    assert_eq!(ids::succ_id(41), 42);
    let rand_max: u128 = (1u128 << 80) - 1;
    assert_eq!(ids::succ_id(rand_max), 0);
    assert_eq!(ids::succ_id(3 << 80 | rand_max), 0);
    // matches the ulid crate's increment-or-default behaviour
    let u = ulid::Ulid(12345);
    assert_eq!(ids::succ_id(12345), u.increment().unwrap_or_default().0);
}

#[test]
fn resource_names_are_normalized() {
    assert_eq!(
        names::fediverse_app_secret_name(b"Example_Host.com"),
        b"fediq-fediverse-app-example-host.com".to_vec()
    );
    assert_eq!(
        names::quotes_configmap_name(b"example.com", b"Alice_B"),
        b"fediq-quotes-example.com-alice-b".to_vec()
    );
    assert_eq!(
        names::replies_configmap_name(b"example.com", b"bob"),
        b"fediq-replies-example.com-bob".to_vec()
    );
    assert_eq!(
        names::quote_dedup_configmap_name(b"example.com", b"bob"),
        b"fediq-quote-dedup-example.com-bob".to_vec()
    );
    assert_eq!(
        names::poster_cronjob_name(b"example.com", b"bob"),
        b"fediq-poster-example.com-bob".to_vec()
    );
    assert_eq!(
        names::streaming_deployment_name(b"example.com", b"bob"),
        b"fediq-streaming-example.com-bob".to_vec()
    );
}

#[test]
fn default_listen_addr_is_stable() {
    assert_eq!(names::default_listen_addr(), "0.0.0.0:3000".to_string());
}
