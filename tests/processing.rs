use sjmb_matrix::{Bot, BotConfig, ChatEvent, PatternError, RoomMembership};

const NOW: i64 = 1_700_000_000;

fn config(pattern: &str) -> BotConfig {
    BotConfig {
        url_regex: pattern.to_string(),
        url_log_db: "postgres://localhost/urllog".to_string(),
        matrix_server: "https://matrix.example".to_string(),
        matrix_user_id: "@bot:matrix.example".to_string(),
        matrix_password: "SECRET-REDACTED".to_string(),
    }
}

fn bot() -> Bot {
    Bot::new(config(r"(\S+://\S+)")).ok().unwrap()
}

fn event(membership: RoomMembership, body: &str, sender: Option<&str>, room: Option<&str>) -> ChatEvent {
    ChatEvent {
        membership,
        is_text: true,
        body: body.to_string(),
        sender_name: sender.map(|s| s.to_string()),
        room_name: room.map(|s| s.to_string()),
    }
}

#[test]
fn bot_new_keeps_settings() {
    let b = bot();
    assert_eq!(b.url_log_db, "postgres://localhost/urllog");
    assert_eq!(b.matrix_server, "https://matrix.example");
    assert_eq!(b.matrix_user_id, "@bot:matrix.example");
    assert_eq!(b.url_re.as_str(), r"(\S+://\S+)");
}

#[test]
fn bot_new_refuses_bad_pattern() {
    assert!(matches!(Bot::new(config("([")), Err(PatternError::Invalid)));
    assert!(matches!(Bot::new(config("https?://")), Err(PatternError::NoCaptureGroup)));
}

#[test]
fn two_urls_give_two_records() {
    let ev = event(
        RoomMembership::Joined,
        "check https://a.example/x and https://b.example/y",
        Some("Alice "),
        Some("General"),
    );
    let recs = bot().url_records(&ev, NOW);
    assert_eq!(recs.len(), 2);
    assert_eq!(recs[0].chan, "matrix-General");
    assert_eq!(recs[1].chan, "matrix-General");
    assert_eq!(recs[0].nick, "Alice");
    assert_eq!(recs[1].nick, "Alice");
    assert_eq!(recs[0].url, "https://a.example/x");
    assert_eq!(recs[1].url, "https://b.example/y");
    assert_eq!(recs[0].ts, NOW);
    assert_eq!(recs[1].ts, NOW);
}

#[test]
fn left_room_gives_no_records() {
    let ev = event(RoomMembership::Left, "see https://a.example/x", Some("Alice"), Some("General"));
    assert!(bot().url_records(&ev, NOW).is_empty());
}

#[test]
fn invited_room_gives_no_records() {
    let ev = event(RoomMembership::Invited, "see https://a.example/x", Some("Alice"), Some("General"));
    assert!(bot().url_records(&ev, NOW).is_empty());
}

#[test]
fn non_text_message_gives_no_records() {
    let mut ev = event(RoomMembership::Joined, "https://a.example/x", Some("Alice"), Some("General"));
    ev.is_text = false;
    assert!(bot().url_records(&ev, NOW).is_empty());
}

#[test]
fn unknown_sender_is_logged_as_unknown() {
    let ev = event(RoomMembership::Joined, "https://a.example/x", None, Some("General"));
    let recs = bot().url_records(&ev, NOW);
    assert_eq!(recs.len(), 1);
    assert_eq!(recs[0].nick, "UNKNOWN");
}

#[test]
fn unnamed_room_is_logged_as_none() {
    let ev = event(RoomMembership::Joined, "https://a.example/x", Some("Bob"), None);
    let recs = bot().url_records(&ev, NOW);
    assert_eq!(recs[0].chan, "matrix-NONE");
}

#[test]
fn names_are_normalized() {
    let ev = event(
        RoomMembership::Joined,
        "https://a.example/x",
        Some(" Alice \t B "),
        Some("Rust  Users\tGroup"),
    );
    let recs = bot().url_records(&ev, NOW);
    assert_eq!(recs[0].nick, "Alice_B");
    assert_eq!(recs[0].chan, "matrix-Rust_Users_Group");
}

#[test]
fn message_without_urls_gives_no_records() {
    let ev = event(RoomMembership::Joined, "hello there", Some("Alice"), Some("General"));
    assert!(bot().url_records(&ev, NOW).is_empty());
}

#[test]
fn body_is_trimmed_before_matching() {
    let b = Bot::new(config(r"^(\S+)$")).ok().unwrap();
    let ev = event(RoomMembership::Joined, "  https://a.example/x \n", Some("Alice"), Some("General"));
    let recs = b.url_records(&ev, NOW);
    assert_eq!(recs.len(), 1);
    assert_eq!(recs[0].url, "https://a.example/x");
}
