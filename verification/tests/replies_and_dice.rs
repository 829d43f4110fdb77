use fediq::dice;
use fediq::ids;
use fediq::replies::{ReplyTable, StoredReply, StoredReplyGroup};

fn table(entries: &[(&[u8], &[&[u8]])]) -> ReplyTable {
    let mut t = ReplyTable::new();
    let mut id: u128 = 1;
    for (kw, rs) in entries {
        for r in *rs {
            t.insert_reply(kw, id, r.to_vec());
            id += 1;
        }
    }
    t
}

#[test]
fn matcher_returns_the_only_match() {
    let t = table(&[(b"ab", &[b"A"]), (b"c", &[b"C"])]);
    assert_eq!(t.get_reply(b"xaby"), Some(b"A".to_vec()));
    assert_eq!(t.get_reply(b"xcy"), Some(b"C".to_vec()));
    assert_eq!(t.get_reply(b"nothing"), None);
}

#[test]
fn later_keywords_win_ties() {
    // "b" sorts after "ab", so reverse iteration visits "b" first;
    // any text containing "ab" also contains "b", and "b" must win
    let t = table(&[(b"ab", &[b"from ab"]), (b"b", &[b"from b"])]);
    assert_eq!(t.get_reply(b"xaby"), Some(b"from b".to_vec()));
    assert_eq!(t.get_reply(b"xby"), Some(b"from b".to_vec()));
}

#[test]
fn empty_table_never_matches() {
    let t = ReplyTable::new();
    assert_eq!(t.get_reply(b"anything at all"), None);
}

#[test]
fn winning_keyword_with_empty_pool_yields_nothing() {
    let mut t = table(&[(b"a", &[b"A"]), (b"b", &[b"B"])]);
    t.delete_reply(b"b", 2);
    // "b" still wins the tie-break, but its pool is empty: no fallthrough
    assert_eq!(t.get_reply(b"ab"), None);
    assert_eq!(t.get_reply(b"a"), Some(b"A".to_vec()));
}

#[test]
fn matcher_is_case_sensitive() {
    let t = table(&[(b"Hi", &[b"reply"])]);
    assert_eq!(t.get_reply(b"say hi"), None);
    assert_eq!(t.get_reply(b"say Hi"), Some(b"reply".to_vec()));
}

#[test]
fn deleting_a_keyword_removes_its_replies() {
    let mut t = table(&[(b"a", &[b"A"]), (b"b", &[b"B"])]);
    t.delete_keyword(b"a");
    assert_eq!(t.get_reply(b"a"), None);
    assert_eq!(t.get_reply(b"b"), Some(b"B".to_vec()));
    assert_eq!(t.groups().len(), 1);
}

#[test]
fn add_replies_extends_a_pool() {
    let mut t = ReplyTable::new();
    t.add_replies(b"hey", vec![b"one".to_vec(), b"two".to_vec()]);
    let got = t.get_reply(b"hey you").unwrap();
    assert!(got == b"one".to_vec() || got == b"two".to_vec());
    // an empty batch still creates the keyword
    t.add_replies(b"quiet", Vec::new());
    assert_eq!(t.groups().len(), 2);
    assert_eq!(t.get_reply(b"quiet"), None);
}

#[test]
fn keywords_stay_sorted() {
    let t = table(&[(b"b", &[b"B"]), (b"a", &[b"A"]), (b"c", &[b"C"])]);
    let kws: Vec<Vec<u8>> = t.groups().iter().map(|g| g.keyword.clone()).collect();
    assert_eq!(kws, vec![b"a".to_vec(), b"b".to_vec(), b"c".to_vec()]);
}

#[test]
fn table_rebuilds_from_store() {
    let raw = vec![
        StoredReplyGroup {
            keyword: b"hello".to_vec(),
            entries: vec![StoredReply { key: ids::format_id(1), text: b"hi there".to_vec() }],
        },
        StoredReplyGroup {
            keyword: b"bye".to_vec(),
            entries: vec![StoredReply { key: ids::format_id(2), text: b"see you".to_vec() }],
        },
    ];
    let t = fediq::replies::table_from_store(raw);
    assert_eq!(t.get_reply(b"hello world"), Some(b"hi there".to_vec()));
    assert_eq!(t.get_reply(b"goodbye"), Some(b"see you".to_vec()));
}

#[test]
fn undecodable_store_data_degrades_to_an_empty_table() {
    let raw = vec![StoredReplyGroup {
        keyword: b"hello".to_vec(),
        entries: vec![StoredReply { key: b"not an id".to_vec(), text: b"hi".to_vec() }],
    }];
    let t = fediq::replies::table_from_store(raw);
    assert_eq!(t.groups().len(), 0);
    assert_eq!(t.get_reply(b"hello"), None);
}

fn parse_sum_line(out: &[u8]) -> (Vec<u64>, u64) {
    let s = std::str::from_utf8(out).unwrap();
    let (terms, sum) = s.split_once(" = ").unwrap();
    let vals: Vec<u64> = terms.split(" + ").map(|t| t.parse().unwrap()).collect();
    (vals, sum.parse().unwrap())
}

#[test]
fn three_dice_render_the_written_out_sum() {
    for _ in 0..20 {
        let out = dice::get_dice(b"3d6").unwrap();
        let (vals, sum) = parse_sum_line(&out);
        assert_eq!(vals.len(), 3);
        assert!(vals.iter().all(|v| (1..=6).contains(v)));
        assert_eq!(vals.iter().sum::<u64>(), sum);
        assert!((3..=18).contains(&sum));
    }
}

#[test]
fn one_die_renders_a_bare_value() {
    for _ in 0..20 {
        let out = dice::get_dice(b"1d20").unwrap();
        let v: u64 = std::str::from_utf8(&out).unwrap().parse().unwrap();
        assert!((1..=20).contains(&v));
    }
}

#[test]
fn large_rolls_render_only_the_sum() {
    let out = dice::get_dice(b"11d22").unwrap();
    let v: u64 = std::str::from_utf8(&out).unwrap().parse().unwrap();
    assert!((11..=11 * 22).contains(&v));
    let out = dice::get_dice(b"2d101").unwrap();
    let v: u64 = std::str::from_utf8(&out).unwrap().parse().unwrap();
    assert!((2..=202).contains(&v));
}

#[test]
fn zero_dice_and_zero_faces_are_rejected() {
    assert_eq!(dice::get_dice(b"0d6"), None);
    assert_eq!(dice::get_dice(b"5d0"), None);
}

#[test]
fn text_without_a_pattern_is_rejected() {
    assert_eq!(dice::get_dice(b"no dice here"), None);
    assert_eq!(dice::get_dice(b"dd"), None);
    assert_eq!(dice::get_dice(b"3d"), None);
    assert_eq!(dice::get_dice(b"d6"), None);
    assert_eq!(dice::get_dice(b""), None);
}

#[test]
fn the_leftmost_pattern_wins() {
    // the first pattern is 2d4; the later 3d6 is ignored
    for _ in 0..20 {
        let out = dice::get_dice(b"roll 2d4 not 3d6").unwrap();
        let (vals, sum) = parse_sum_line(&out);
        assert_eq!(vals.len(), 2);
        assert!(vals.iter().all(|v| (1..=4).contains(v)));
        assert!((2..=8).contains(&sum));
    }
}

#[test]
fn digit_runs_are_taken_whole() {
    // "12d3" parses as 12 dice of 3 faces, not 2d3
    let out = dice::get_dice(b"x12d3y").unwrap();
    let v: u64 = std::str::from_utf8(&out).unwrap().parse().unwrap();
    assert!((12..=36).contains(&v));
}

#[test]
fn overflowing_numbers_are_rejected() {
    assert_eq!(dice::get_dice(b"99999999999999999999d6"), None);
    assert_eq!(dice::get_dice(b"3d99999999999999999999"), None);
}
