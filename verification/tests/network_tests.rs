use chrome_devtools_cli::commands::network::{
    format_network_text, process_network_events, NetworkEvent, RequestStatus,
};

fn request(id: &str, url: &str, method: &str, kind: &str) -> NetworkEvent {
    NetworkEvent::RequestWillBeSent {
        request_id: id.to_string(),
        url: url.to_string(),
        method: method.to_string(),
        resource_type: kind.to_string(),
    }
}

#[test]
fn test_process_network_events_merges_request_and_response() {
    let events = vec![
        request("req-1", "https://example.com/api", "POST", "Fetch"),
        NetworkEvent::ResponseReceived {
            request_id: "req-1".to_string(),
            status: 201,
            status_text: "Created".to_string(),
        },
    ];
    let out = process_network_events(&events, &vec![]);
    assert_eq!(out.len(), 1);
    assert_eq!(out[0].url, "https://example.com/api");
    assert_eq!(out[0].method, "POST");
    assert_eq!(out[0].resource_type, "Fetch");
    assert_eq!(out[0].status, RequestStatus::Code(201));
    assert_eq!(out[0].status_text.as_deref(), Some("Created"));
}

#[test]
fn test_process_network_events_loading_failed() {
    let events = vec![
        request("req-2", "https://blocked.com/ads.js", "GET", "Script"),
        NetworkEvent::LoadingFailed {
            request_id: "req-2".to_string(),
            error_text: "net::ERR_BLOCKED_BY_CLIENT".to_string(),
        },
    ];
    let out = process_network_events(&events, &vec![]);
    assert_eq!(out.len(), 1);
    assert_eq!(out[0].status, RequestStatus::Failed);
    assert_eq!(out[0].error.as_deref(), Some("net::ERR_BLOCKED_BY_CLIENT"));
}

#[test]
fn test_process_network_events_type_filter() {
    let events = vec![
        request("req-a", "https://example.com/page", "GET", "Document"),
        request("req-b", "https://example.com/script.js", "GET", "Script"),
    ];
    let filter = vec!["Document".to_string()];
    let out = process_network_events(&events, &filter);
    assert_eq!(out.len(), 1);
    assert_eq!(out[0].url, "https://example.com/page");
}

#[test]
fn test_process_network_events_type_filter_case_insensitive() {
    let events = vec![
        request("req-a", "https://example.com/api", "GET", "Fetch"),
        request("req-b", "https://example.com/x", "GET", "XHR"),
    ];
    let filter = vec!["fetch".to_string(), "Xhr".to_string()];
    let out = process_network_events(&events, &filter);
    assert_eq!(out.len(), 2);
    assert_eq!(out[0].resource_type, "Fetch");
    assert_eq!(out[1].resource_type, "XHR");
}

#[test]
fn test_process_network_events_preserves_chronological_order() {
    let events = vec![
        request("r1", "https://z.example.com/", "GET", "Document"),
        request("r2", "https://a.example.com/", "GET", "Document"),
    ];
    let out = process_network_events(&events, &vec![]);
    assert_eq!(out[0].url, "https://z.example.com/");
    assert_eq!(out[1].url, "https://a.example.com/");
}

#[test]
fn test_process_network_events_ignores_unknown_methods() {
    let events = vec![NetworkEvent::Other];
    let out = process_network_events(&events, &vec![]);
    assert!(out.is_empty());
}

#[test]
fn test_process_network_events_handles_response_without_request() {
    let events = vec![NetworkEvent::ResponseReceived {
        request_id: "orphan".to_string(),
        status: 200,
        status_text: "OK".to_string(),
    }];
    let out = process_network_events(&events, &vec![]);
    assert!(out.is_empty());
}

#[test]
fn network_text_table() {
    let events = vec![
        request("r1", "https://a.example/", "GET", "Document"),
        NetworkEvent::ResponseReceived {
            request_id: "r1".to_string(),
            status: 200,
            status_text: "OK".to_string(),
        },
        request("r2", "https://b.example/x.js", "POST", "Script"),
    ];
    let out = process_network_events(&events, &vec![]);
    let text = format_network_text(&out);
    let rule = "-".repeat(72);
    assert_eq!(
        text,
        format!(
            "STATUS   METHOD URL\n{rule}\n200      GET    https://a.example/\n?        POST   https://b.example/x.js\n"
        )
    );
    assert_eq!(format_network_text(&vec![]), "No network requests collected.");
}
