use crisclip::clip::Payload;
use crisclip::config::{
    config_location,
    default_listen, default_max_bytes, default_poll_ms, example_config, parse_command,
    readable_by_others, Command,
};
use crisclip::daemon::{is_configured_peer, note_push_outcome, push_body_of, PushError, SyncState};
use crisclip::key::parse_key;

fn text(s: &str) -> Payload {
    Payload::Text(s.to_string())
}

#[test]
fn local_change_is_sent_once() {
    let mut state = SyncState::new(None);
    assert!(state.take_local_change(Some(text("a"))).is_some());
    assert!(state.take_local_change(Some(text("a"))).is_none());
    assert!(state.take_local_change(Some(text("b"))).is_some());
    assert!(state.take_local_change(None).is_none());
    assert!(state.take_local_change(Some(text("b"))).is_none());
}

#[test]
fn startup_content_is_not_sent() {
    let initial = text("already there");
    let mut state = SyncState::new(Some(&initial));
    assert!(state.take_local_change(Some(text("already there"))).is_none());
}

#[test]
fn received_payload_is_not_echoed() {
    let mut state = SyncState::new(None);
    let image = Payload::Image { width: 2, height: 1, rgba: vec![1, 2, 3, 4, 5, 6, 7, 8] };
    let body = image.encode().unwrap();
    let applied = state.apply_received(&body).unwrap();
    assert_eq!(applied.fingerprint(), image.fingerprint());
    assert!(state.take_local_change(Some(image)).is_none());
}

#[test]
fn undecodable_body_leaves_state_alone() {
    let mut state = SyncState::new(None);
    assert!(state.apply_received(&[9]).is_err());
    assert!(state.take_local_change(Some(text("x"))).is_some());
}

#[test]
fn push_body_respects_the_limit() {
    let payload = text("hello");
    assert_eq!(push_body_of(&payload, 6).unwrap(), b"\0hello".to_vec());
    let err = push_body_of(&payload, 5).unwrap_err();
    assert_eq!(err, PushError::TooLarge { size: 6, limit: 5 });
    assert_eq!(err.message(&payload), "text (5 bytes) encodes to 6 bytes, over the 5 limit");
}

#[test]
fn only_configured_peers_are_admitted() {
    let allowed = vec![vec![127, 0, 0, 1], vec![0u8; 16]];
    assert!(is_configured_peer(&allowed, &[127, 0, 0, 1]));
    assert!(is_configured_peer(&allowed, &[0u8; 16]));
    assert!(!is_configured_peer(&allowed, &[192, 0, 2, 1]));
    assert!(!is_configured_peer(&allowed, &[127, 0, 0]));
    assert!(!is_configured_peer(&Vec::new(), &[127, 0, 0, 1]));
}

#[test]
fn repeated_failures_are_reported_once() {
    let mut last = None;
    assert!(note_push_outcome(&mut last, Some("down".into())));
    assert!(!note_push_outcome(&mut last, Some("down".into())));
    assert!(note_push_outcome(&mut last, Some("refused".into())));
    assert!(!note_push_outcome(&mut last, None));
    assert_eq!(last, None);
    assert!(note_push_outcome(&mut last, Some("refused".into())));
}

#[test]
fn configuration_defaults() {
    assert_eq!(default_listen(), "0.0.0.0:47777");
    assert_eq!(default_poll_ms(), 2000);
    assert_eq!(default_max_bytes(), 33554432);
}

#[test]
fn example_configuration_holds_a_readable_key() {
    let key = [0x5au8; 32];
    let text = example_config(&key);
    assert!(text.starts_with("# Copy this file to both machines, changing only `peer`.\n"));
    assert!(text.contains("peer = \"192.168.15.7:47777\"\n"));
    assert!(text.ends_with("\"\npoll_ms = 2000\nmax_bytes = 33554432\n"));
    let line = text.lines().find(|l| l.starts_with("key = ")).unwrap();
    let hex = line.trim_start_matches("key = \"").trim_end_matches('"');
    assert_eq!(parse_key(hex), Ok(key));
}

#[test]
fn group_or_other_permissions_are_noticed() {
    assert!(!readable_by_others(0o600));
    assert!(!readable_by_others(0o100700));
    assert!(readable_by_others(0o644));
    assert!(readable_by_others(0o601));
}

#[test]
fn commands() {
    assert_eq!(parse_command(None), Ok(Command::Run));
    assert_eq!(parse_command(Some("run")), Ok(Command::Run));
    assert_eq!(parse_command(Some("init")), Ok(Command::Init));
    assert_eq!(parse_command(Some("keygen")), Ok(Command::Keygen));
    assert_eq!(
        parse_command(Some("fly")),
        Err("unknown command: fly\nusage: crisclip [run|init|keygen]".to_string())
    );
}

#[test]
fn configuration_location() {
    assert_eq!(config_location(Some("/etc/c.toml".into()), Some("/x".into()), None), "/etc/c.toml");
    assert_eq!(
        config_location(None, Some("/home/u/.cfg".into()), Some("/home/u".into())),
        "/home/u/.cfg/crisclip/config.toml"
    );
    assert_eq!(config_location(None, Some("/cfg/".into()), None), "/cfg/crisclip/config.toml");
    assert_eq!(
        config_location(None, None, Some("/home/u".into())),
        "/home/u/.config/crisclip/config.toml"
    );
    assert_eq!(config_location(None, None, None), ".config/crisclip/config.toml");
    assert_eq!(config_location(None, Some(String::new()), None), "crisclip/config.toml");
}
