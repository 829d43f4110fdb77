use fediq::fediverse::{self, FediverseApp, FediverseUser, WellKnownLink};
use fediq::forms::{AddQuote, AddReply};
use fediq::replies::ReplyTable;
use fediq::stream::{
    self, Family, MastodonFrame, MastodonPayload, MisskeyFrame, MisskeyMention, StreamEvent,
    SupervisorAction, SupervisorState,
};

#[test]
fn software_tags_classify_families() {
    assert_eq!(stream::software_family(b"mastodon"), Some(Family::Mastodon));
    assert_eq!(stream::software_family(b"misskey"), Some(Family::Misskey));
    assert_eq!(stream::software_family(b"cherrypick"), Some(Family::Misskey));
    assert_eq!(stream::software_family(b"firefish"), Some(Family::Misskey));
    assert_eq!(stream::software_family(b"pleroma"), None);
    assert_eq!(stream::software_family(b""), None);
}

fn run(mut s: SupervisorState, events: &[StreamEvent]) -> (SupervisorState, Vec<SupervisorAction>) {
    let mut actions = Vec::new();
    for e in events {
        let (ns, a) = stream::supervisor_step(s, *e);
        s = ns;
        actions.push(a);
    }
    (s, actions)
}

#[test]
fn failures_then_success_reach_streaming_exactly_once() {
    let events = [
        StreamEvent::ConnectFailed,
        StreamEvent::ConnectFailed,
        StreamEvent::ConnectFailed,
        StreamEvent::ConnectSucceeded,
    ];
    let (state, actions) = run(SupervisorState::Connecting, &events);
    assert_eq!(state, SupervisorState::Streaming);
    // no frame was handled during the failed attempts
    assert!(actions.iter().all(|a| *a != SupervisorAction::HandleFrame));
    assert_eq!(actions.last(), Some(&SupervisorAction::ReadFrame));
}

#[test]
fn stream_loss_leads_back_to_a_reconnect() {
    let events = [
        StreamEvent::ConnectSucceeded,
        StreamEvent::FrameArrived,
        StreamEvent::StreamClosed,
        StreamEvent::ConnectSucceeded,
    ];
    let (state, actions) = run(SupervisorState::Connecting, &events);
    assert_eq!(state, SupervisorState::Streaming);
    assert_eq!(actions[1], SupervisorAction::HandleFrame);
    assert_eq!(actions[2], SupervisorAction::OpenConnection);
}

#[test]
fn stop_while_reading_is_immediate_and_final() {
    let (s, a) = stream::supervisor_step(SupervisorState::Streaming, StreamEvent::StopRequested);
    assert_eq!(s, SupervisorState::Stopped);
    assert_eq!(a, SupervisorAction::CloseConnection);
    // no event ever revives a stopped supervisor or reopens a connection
    let every_event = [
        StreamEvent::ConnectSucceeded,
        StreamEvent::ConnectFailed,
        StreamEvent::FrameArrived,
        StreamEvent::StreamClosed,
        StreamEvent::StopRequested,
    ];
    let (state, actions) = run(SupervisorState::Stopped, &every_event);
    assert_eq!(state, SupervisorState::Stopped);
    assert!(actions.iter().all(|a| *a != SupervisorAction::OpenConnection));
}

#[test]
fn mastodon_frames_classify_by_event_and_payload() {
    let mention = MastodonFrame {
        event: b"notification".to_vec(),
        mention: Some(MastodonPayload {
            acct: b"alice@remote.example".to_vec(),
            status_id: b"123".to_vec(),
            content: b"hello bot".to_vec(),
        }),
    };
    let ev = stream::classify_mastodon(mention).unwrap();
    assert_eq!(ev.author_handle, b"alice@remote.example".to_vec());
    assert_eq!(ev.author_host, None);
    assert_eq!(ev.mention_text, b"hello bot".to_vec());
    assert_eq!(ev.reference_id, b"123".to_vec());

    let other = MastodonFrame { event: b"update".to_vec(), mention: None };
    assert!(stream::classify_mastodon(other).is_none());
    let wrong_event = MastodonFrame {
        event: b"update".to_vec(),
        mention: Some(MastodonPayload {
            acct: b"a".to_vec(),
            status_id: b"1".to_vec(),
            content: b"t".to_vec(),
        }),
    };
    assert!(stream::classify_mastodon(wrong_event).is_none());
}

#[test]
fn misskey_frames_must_match_the_local_channel() {
    let frame = MisskeyFrame {
        channel: Some(b"chan-1".to_vec()),
        mention: Some(MisskeyMention {
            note_id: b"n9".to_vec(),
            username: b"bob".to_vec(),
            host: b"far.example".to_vec(),
            text: b"yo".to_vec(),
        }),
    };
    let ev = stream::classify_misskey(frame, b"chan-1").unwrap();
    assert_eq!(ev.author_handle, b"bob".to_vec());
    assert_eq!(ev.author_host, Some(b"far.example".to_vec()));
    assert_eq!(ev.reference_id, b"n9".to_vec());

    // traffic for another channel is discriminated away
    let stale = MisskeyFrame {
        channel: Some(b"chan-0".to_vec()),
        mention: Some(MisskeyMention {
            note_id: b"n9".to_vec(),
            username: b"bob".to_vec(),
            host: b"far.example".to_vec(),
            text: b"yo".to_vec(),
        }),
    };
    assert!(stream::classify_misskey(stale, b"chan-1").is_none());
}

#[test]
fn replies_are_addressed_at_the_author() {
    let mut t = ReplyTable::new();
    t.insert_reply(b"hello", 1, b"hi!".to_vec());

    let ev = stream::MentionEvent {
        author_handle: b"alice@remote.example".to_vec(),
        author_host: None,
        mention_text: b"hello there".to_vec(),
        reference_id: b"123".to_vec(),
    };
    let d = stream::handle_mention(&t, &ev, false).unwrap();
    assert_eq!(d.text, b"@alice@remote.example hi!".to_vec());
    assert_eq!(d.reply_target, b"123".to_vec());

    let ev2 = stream::MentionEvent {
        author_handle: b"bob".to_vec(),
        author_host: Some(b"far.example".to_vec()),
        mention_text: b"hello again".to_vec(),
        reference_id: b"n9".to_vec(),
    };
    let d2 = stream::handle_mention(&t, &ev2, false).unwrap();
    assert_eq!(d2.text, b"@bob@far.example hi!".to_vec());
}

#[test]
fn dice_only_fire_when_no_keyword_matched_and_flag_is_on() {
    let mut t = ReplyTable::new();
    t.insert_reply(b"hello", 1, b"hi!".to_vec());

    let mention = stream::MentionEvent {
        author_handle: b"a".to_vec(),
        author_host: None,
        mention_text: b"roll 1d6 please".to_vec(),
        reference_id: b"1".to_vec(),
    };
    // flag off: no reply at all
    assert!(stream::handle_mention(&t, &mention, false).is_none());
    // flag on: a dice reply
    let d = stream::handle_mention(&t, &mention, true).unwrap();
    let body = &d.text[b"@a ".len()..];
    let v: u64 = std::str::from_utf8(body).unwrap().parse().unwrap();
    assert!((1..=6).contains(&v));

    // a keyword match takes priority over dice
    let both = stream::MentionEvent {
        author_handle: b"a".to_vec(),
        author_host: None,
        mention_text: b"hello, roll 1d6".to_vec(),
        reference_id: b"1".to_vec(),
    };
    let d = stream::handle_mention(&t, &both, true).unwrap();
    assert_eq!(d.text, b"@a hi!".to_vec());
}

#[test]
fn app_secret_round_trips_through_base64() {
    let app = FediverseApp {
        client_id: "client-id-01234".to_string(),
        client_secret: "s3cr3t+with/odd=chars and ünïcödé".to_string(),
    };
    let (id_b64, secret_b64) = fediverse::encode_app_secret(&app).unwrap();
    let back = fediverse::decode_app_secret(&id_b64, &secret_b64).unwrap();
    assert_eq!(back.client_id, app.client_id);
    assert_eq!(back.client_secret, app.client_secret);
}

#[test]
fn bad_secret_data_is_rejected() {
    assert!(fediverse::decode_app_secret(b"!!!not-base64!!!", b"AAAA").is_err());
}

#[test]
fn nodeinfo_link_is_found_by_rel() {
    let links = vec![
        WellKnownLink { rel: b"other".to_vec(), href: b"https://x.example/a".to_vec() },
        WellKnownLink {
            rel: b"http://nodeinfo.diaspora.software/ns/schema/2.0".to_vec(),
            href: b"https://x.example/nodeinfo/2.0".to_vec(),
        },
    ];
    assert_eq!(
        fediverse::find_nodeinfo_href(links),
        Some(b"https://x.example/nodeinfo/2.0".to_vec())
    );
    assert_eq!(
        fediverse::find_nodeinfo_href(vec![WellKnownLink {
            rel: b"other".to_vec(),
            href: b"x".to_vec(),
        }]),
        None
    );
}

#[test]
fn session_users_expire_after_a_day() {
    let now: i64 = 1_700_000_000;
    let user = FediverseUser::new(
        "m.example".to_string(),
        "alice".to_string(),
        Some("Alice".to_string()),
        None,
        "token".to_string(),
        "mastodon".to_string(),
        now,
    );
    assert_eq!(user.exp, now + 86400);
    assert_eq!(user.display_name(), "Alice");
    assert_eq!(user.display_bytes(), b"Alice (alice@m.example)".to_vec());

    let anon = FediverseUser::new(
        "m.example".to_string(),
        "bob".to_string(),
        None,
        None,
        "token".to_string(),
        "mastodon".to_string(),
        now,
    );
    assert_eq!(anon.display_name(), "bob");
    assert_eq!(anon.display_bytes(), b"bob@m.example".to_vec());
}

#[test]
fn quote_forms_expose_their_mode() {
    let one = AddQuote::OneByOne { quote: "a quote".to_string() };
    assert!(!one.is_empty());
    assert!(!one.is_bulk());
    assert_eq!(one.as_one_by_one(), "a quote".to_string());
    assert_eq!(one.as_bulk(), String::new());

    let bulk = AddQuote::Bulk { quote_bulk: String::new() };
    assert!(bulk.is_empty());
    assert!(bulk.is_bulk());
}

#[test]
fn reply_forms_need_keyword_and_text() {
    let missing = AddReply::OneByOne { keyword: "k".to_string(), reply: String::new() };
    assert!(missing.is_empty());
    let bulk = AddReply::Bulk { keyword: "k".to_string(), reply_bulk: "a\nb".to_string() };
    assert!(!bulk.is_empty());
    assert!(bulk.is_bulk());
    assert_eq!(bulk.keyword(), "k".to_string());
    assert_eq!(bulk.as_bulk(), "a\nb".to_string());
    assert_eq!(bulk.as_one_by_one(), String::new());
}

#[test]
fn bulk_fields_split_into_trimmed_lines() {
    let entries = fediq::forms::parse_bulk_entries(b"  first \nsecond\r\n\n   \nthird");
    assert_eq!(
        entries,
        vec![
            b"first".to_vec(),
            b"second".to_vec(),
            Vec::<u8>::new(),
            b"third".to_vec(),
        ]
    );
    assert_eq!(fediq::forms::parse_bulk_entries(b""), Vec::<Vec<u8>>::new());
    assert_eq!(fediq::forms::parse_bulk_entries(b"\n\n"), Vec::<Vec<u8>>::new());
}

#[test]
fn trimming_strips_ascii_whitespace_only() {
    let input = b"  \t hi there \r ";
    let out = fediq::text::trim_range(input, 0, input.len());
    assert_eq!(out, b"hi there".to_vec());
}

#[test]
fn feature_flags_require_the_word_true() {
    assert!(stream::flag_enabled(Some(&b"true".to_vec())));
    assert!(!stream::flag_enabled(Some(&b"false".to_vec())));
    assert!(!stream::flag_enabled(Some(&b"True".to_vec())));
    assert!(!stream::flag_enabled(None));
}
