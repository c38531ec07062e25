use chrome_devtools_cli::commands::console::{ConsoleArg, ConsoleEvent};
use chrome_devtools_cli::commands::sw_logs::{
    event_source, extract_extension_id, format_sw_text, is_collected_worker_exec, process_sw_events,
    WorkerSession,
};

#[test]
fn extension_ids_come_from_the_url() {
    assert_eq!(extract_extension_id("chrome-extension://abcdef/bg.js").as_deref(), Some("abcdef"));
    assert_eq!(extract_extension_id("chrome-extension://abcdef").as_deref(), Some("abcdef"));
    assert_eq!(extract_extension_id("https://example.com"), None);
}

#[test]
fn only_extension_service_workers_are_collected() {
    assert!(is_collected_worker_exec("service_worker", "chrome-extension://abc/sw.js", None));
    assert!(is_collected_worker_exec("service_worker", "chrome-extension://abc/sw.js", Some("abc")));
    assert!(!is_collected_worker_exec("service_worker", "chrome-extension://abc/sw.js", Some("xyz")));
    assert!(!is_collected_worker_exec("page", "chrome-extension://abc/p.html", None));
    assert!(!is_collected_worker_exec("service_worker", "https://site/sw.js", None));
}

#[test]
fn worker_logs_are_tagged_with_their_source() {
    let sessions = vec![WorkerSession {
        url: "chrome-extension://abc/sw.js".to_string(),
        session_id: "S1".to_string(),
    }];
    assert_eq!(event_source(&sessions, "S1"), "chrome-extension://abc/sw.js");
    assert_eq!(event_source(&sessions, "S9"), "unknown");
    let events = vec![
        (
            "S1".to_string(),
            ConsoleEvent::ApiCalled {
                msg_type: "warn".to_string(),
                args: vec![ConsoleArg { value: Some("low disk".to_string()), description: None }],
            },
        ),
        ("S9".to_string(), ConsoleEvent::ExceptionThrown { description: "boom".to_string() }),
        ("S1".to_string(), ConsoleEvent::Other),
    ];
    let messages = process_sw_events(&events, &sessions);
    assert_eq!(messages.len(), 2);
    assert_eq!(messages[0].extension_id, "abc");
    assert_eq!(messages[0].source, "chrome-extension://abc/sw.js");
    assert_eq!(messages[1].extension_id, "");
    assert_eq!(messages[1].source, "unknown");
    assert_eq!(format_sw_text(&messages), "[abc] [warn] low disk\n[] [exception] boom\n");
    assert_eq!(format_sw_text(&vec![]), "No service worker logs collected.");
}
