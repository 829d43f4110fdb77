use fediq::ids;
use fediq::outbox;
use fediq::poster;
use fediq::quotes::{DedupLedger, LedgerRecord, Quote, StoredQuote};
use fediq::stream::Family;

fn quote(id: u128, text: &[u8]) -> Quote {
    Quote { id, text: text.to_vec() }
}

#[test]
fn eligibility_follows_the_ledger() {
    let now: i64 = 1_000_000;
    let mut ledger = DedupLedger::new();
    // q1 suppressed for ten more minutes; q2 unknown to the ledger
    ledger.upsert(1, now + 600);
    assert!(!ledger.is_eligible(1, now));
    assert!(ledger.is_eligible(2, now));
    // a lapsed entry is only shadowed, never deleted
    assert!(ledger.is_eligible(1, now + 600));
    assert_eq!(ledger.lookup(1), Some(now + 600));
}

#[test]
fn poster_picks_the_only_eligible_quote() {
    let now: i64 = 1_000_000;
    let mut ledger = DedupLedger::new();
    ledger.upsert(1, now + 600);
    let pool = vec![quote(1, b"one"), quote(2, b"two")];
    let plan = poster::plan_post(pool, &ledger, now, 30).unwrap();
    assert_eq!(plan.quote_id, 2);
    assert_eq!(plan.text, b"two".to_vec());
    assert_eq!(plan.suppressed_until, now + 30 * 60);
}

#[test]
fn posting_suppresses_until_the_deadline_passes() {
    let now: i64 = 1_000_000;
    let mut ledger = DedupLedger::new();
    let pool = vec![quote(1, b"one")];
    let plan = poster::plan_post(pool, &ledger, now, 30).unwrap();
    assert_eq!(plan.quote_id, 1);
    assert_eq!(plan.suppressed_until, now + 1800);
    ledger.upsert(plan.quote_id, plan.suppressed_until);
    // an immediate re-run must not re-select the quote
    let again = poster::plan_post(vec![quote(1, b"one")], &ledger, now + 1, 30);
    assert!(again.is_none());
    // once the window passes, it is eligible again
    let later = poster::plan_post(vec![quote(1, b"one")], &ledger, now + 1800, 30);
    assert_eq!(later.unwrap().quote_id, 1);
}

#[test]
fn no_eligible_quote_is_a_quiet_no_op() {
    let now: i64 = 1_000_000;
    let mut ledger = DedupLedger::new();
    ledger.upsert(1, now + 1_000_000);
    let pool = vec![quote(1, b"one")];
    // the planner orders no post, so the runner makes zero network calls
    assert!(poster::plan_post(pool, &ledger, now, 30).is_none());
    let empty_pool: Vec<Quote> = Vec::new();
    assert!(poster::plan_post(empty_pool, &ledger, now, 30).is_none());
}

#[test]
fn zero_window_still_records_the_post() {
    let now: i64 = 1_000_000;
    let ledger = DedupLedger::new();
    let plan = poster::plan_post(vec![quote(7, b"q")], &ledger, now, 0).unwrap();
    // the recorded deadline is already lapsed, but it is recorded
    assert_eq!(plan.suppressed_until, now);
}

#[test]
fn ledger_rebuilds_from_store_records() {
    let key = ids::format_id(99);
    let ledger = fediq::quotes::ledger_from_store(&vec![
        LedgerRecord { key: key.clone(), deadline: Some(500) },
        LedgerRecord { key: b"not an id".to_vec(), deadline: Some(700) },
        LedgerRecord { key: ids::format_id(5), deadline: None },
    ]);
    assert_eq!(ledger.lookup(99), Some(500));
    assert_eq!(ledger.lookup(5), None);
    assert!(!ledger.is_eligible(99, 499));
    assert!(ledger.is_eligible(99, 500));
}

#[test]
fn quote_view_parses_keys_and_marks_suppression() {
    let now: i64 = 10_000;
    let mut ledger = DedupLedger::new();
    ledger.upsert(1, now + 60);
    let raw = vec![
        StoredQuote { key: ids::format_id(1), text: b"first".to_vec() },
        StoredQuote { key: b"garbage".to_vec(), text: b"skipped".to_vec() },
        StoredQuote { key: ids::format_id(2), text: b"second".to_vec() },
    ];
    let view = fediq::quotes::build_quote_view(raw, &ledger, now);
    assert_eq!(view.len(), 2);
    assert_eq!(view[0].id, 1);
    assert_eq!(view[0].text, b"first".to_vec());
    assert!(view[0].suppressed);
    assert_eq!(view[1].id, 2);
    assert!(!view[1].suppressed);
}

#[test]
fn quote_batches_get_increasing_ids() {
    let texts = vec![b"a".to_vec(), b"b".to_vec(), b"c".to_vec()];
    let stored = fediq::quotes::allocate_quotes(1000, texts);
    assert_eq!(stored.len(), 3);
    assert_eq!(ids::parse_id(&stored[0].key), Ok(1001));
    assert_eq!(ids::parse_id(&stored[1].key), Ok(1002));
    assert_eq!(ids::parse_id(&stored[2].key), Ok(1003));
    assert_eq!(stored[2].text, b"c".to_vec());
}

#[test]
fn post_plans_use_restricted_visibility() {
    let p = outbox::plan_status_post(Family::Mastodon, b"m.example", b"hi".to_vec(), None);
    assert_eq!(p.url, b"https://m.example/api/v1/statuses".to_vec());
    assert_eq!(p.visibility, b"unlisted".to_vec());
    assert!(p.bearer_auth);
    assert_eq!(p.reply_to, None);

    let p = outbox::plan_status_post(
        Family::Misskey,
        b"k.example",
        b"hi".to_vec(),
        Some(b"note1".to_vec()),
    );
    assert_eq!(p.url, b"https://k.example/api/notes/create".to_vec());
    assert_eq!(p.visibility, b"home".to_vec());
    assert!(!p.bearer_auth);
    assert_eq!(p.reply_to, Some(b"note1".to_vec()));
}

#[test]
fn connect_urls_differ_by_family() {
    let m = outbox::connect_url(Family::Mastodon, b"m.example", b"tok");
    assert_eq!(
        m,
        b"wss://m.example/api/v1/streaming?stream=user:notification".to_vec()
    );
    let k = outbox::connect_url(Family::Misskey, b"k.example", b"tok");
    assert_eq!(k, b"wss://k.example/streaming?i=tok".to_vec());
}

#[test]
fn fresh_quote_batches_use_consecutive_ids() {
    let texts = vec![b"a".to_vec(), b"b".to_vec(), b"c".to_vec()];
    let stored = fediq::quotes::new_quote_batch(texts);
    assert_eq!(stored.len(), 3);
    let id0 = ids::parse_id(&stored[0].key).unwrap();
    let id1 = ids::parse_id(&stored[1].key).unwrap();
    let id2 = ids::parse_id(&stored[2].key).unwrap();
    assert_eq!(id1, ids::succ_id(id0));
    assert_eq!(id2, ids::succ_id(id1));
}
