use chrome_devtools_cli::protocol::{
    daemon_file_prefix, encode_frame, frame_len, instance_key, instance_key_from_file_name,
    keyed_file_name, legacy_unkeyed_pid_file_name, lock_file_name, resolve_request_format,
    select_instance_keys, FrameError,
};
use chrome_devtools_cli::format::OutputFormat;

#[test]
fn instance_key_is_stable_and_endpoint_specific() {
    let chrome = "ws://127.0.0.1:9222/devtools/browser/aaaa";
    let edge = "ws://127.0.0.1:56912/devtools/browser/bbbb";
    assert_eq!(instance_key(chrome), instance_key(chrome), "deterministic");
    assert_ne!(instance_key(chrome), instance_key(edge), "different browsers must not share a daemon");
    assert_eq!(instance_key(chrome).len(), 16);
    assert!(instance_key(chrome).chars().all(|c| c.is_ascii_hexdigit()));
}

#[test]
fn instance_key_distinguishes_browser_sessions_on_one_port() {
    let before = "ws://127.0.0.1:9222/devtools/browser/session-one";
    let after = "ws://127.0.0.1:9222/devtools/browser/session-two";
    assert_ne!(instance_key(before), instance_key(after));
}

#[test]
fn instance_key_is_fnv1a() {
    // FNV-1a of the empty string is the offset basis; of "a" a known value.
    assert_eq!(instance_key(""), "cbf29ce484222325");
    assert_eq!(instance_key("a"), "af63dc4c8601ec8c");
}

#[test]
fn keyed_paths_are_distinct_and_lock_is_shared() {
    let prefix = daemon_file_prefix(Some(1000));
    let a = instance_key("ws://127.0.0.1:9222/devtools/browser/a");
    let b = instance_key("ws://127.0.0.1:9223/devtools/browser/b");
    assert_ne!(keyed_file_name(&prefix, &a, "pid"), keyed_file_name(&prefix, &b, "pid"));
    assert_ne!(keyed_file_name(&prefix, &a, "info"), keyed_file_name(&prefix, &b, "info"));
    assert_eq!(lock_file_name(&prefix), lock_file_name(&prefix));
    assert!(!lock_file_name(&prefix).contains(&a));
    assert_eq!(keyed_file_name(&prefix, "k", "sock"), "chrome-devtools-daemon-1000-k.sock");
    assert_eq!(daemon_file_prefix(None), "chrome-devtools-daemon");
}

#[test]
fn legacy_unkeyed_pid_file_is_not_parsed_as_an_instance() {
    let prefix = daemon_file_prefix(Some(501));
    let legacy = legacy_unkeyed_pid_file_name(&prefix);
    assert_eq!(instance_key_from_file_name(&prefix, &legacy), None);
}

#[test]
fn instance_keys_are_selected_sorted_and_unique() {
    let prefix = "chrome-devtools-daemon-7";
    let names: Vec<String> = vec![
        "chrome-devtools-daemon-7-bbb.pid".into(),
        "chrome-devtools-daemon-7-aaa.pid".into(),
        "chrome-devtools-daemon-7-aaa.sock".into(),
        "chrome-devtools-daemon-7-.pid".into(),
        "chrome-devtools-daemon-8-ccc.pid".into(),
        "chrome-devtools-daemon-7-bbb.pid".into(),
        "chrome-devtools-daemon-7.pid".into(),
    ];
    assert_eq!(select_instance_keys(prefix, &names), vec!["aaa".to_string(), "bbb".to_string()]);
}

#[test]
fn frames_round_trip() {
    let data = b"hello";
    let frame = encode_frame(data);
    assert_eq!(&frame[..4], &[0, 0, 0, 5]);
    assert_eq!(&frame[4..], data);
    assert_eq!(frame_len([frame[0], frame[1], frame[2], frame[3]]).unwrap(), 5);
}

#[test]
fn oversized_frames_are_refused() {
    assert_eq!(frame_len([4, 0, 0, 0]).unwrap(), 64 * 1024 * 1024);
    match frame_len([4, 0, 0, 1]) {
        Err(e) => {
            assert_eq!(e, FrameError::TooLarge(64 * 1024 * 1024 + 1));
            assert_eq!(e.message(), "Message too large: 67108865 bytes");
        }
        Ok(_) => panic!("accepted an oversized frame"),
    }
}

#[test]
fn request_format_prefers_explicit_format() {
    assert_eq!(resolve_request_format(Some(OutputFormat::Toon), true), OutputFormat::Toon);
    assert_eq!(resolve_request_format(None, true), OutputFormat::Json);
    assert_eq!(resolve_request_format(None, false), OutputFormat::Text);
}
