use chrome_devtools_cli::browser::{resolve_ws_url, ws_url_from_active_port, Browser, BrowserError, Os, WsUrlSource};

#[test]
fn parses_known_browsers() {
    assert_eq!(Browser::parse("chrome").unwrap(), Browser::Chrome);
    assert_eq!(Browser::parse("edge").unwrap(), Browser::Edge);
    assert_eq!(Browser::parse("msedge").unwrap(), Browser::Edge);
}

#[test]
fn rejects_unknown_browser() {
    let err = Browser::parse("firefox").unwrap_err().message();
    assert!(err.contains("Unknown browser: firefox"), "{err}");
}

#[test]
fn rejects_cross_browser_channel_alias() {
    for os in [Os::MacOs, Os::Linux, Os::Windows] {
        assert!(Browser::Edge.default_user_data_dir(os, "chrome").is_err());
        assert!(Browser::Chrome.default_user_data_dir(os, "edge").is_err());
    }
}

#[test]
fn rejects_unknown_channel() {
    let err = Browser::Edge.default_user_data_dir(Os::Linux, "nightly").unwrap_err().message();
    assert!(err.contains("Microsoft Edge channel: nightly"), "{err}");
}

#[test]
fn stable_and_self_named_channels_agree() {
    for os in [Os::MacOs, Os::Linux, Os::Windows] {
        for browser in [Browser::Chrome, Browser::Edge] {
            let stable = browser.default_user_data_dir(os, "stable").unwrap();
            let alias = browser.default_user_data_dir(os, browser.scheme()).unwrap();
            assert_eq!(stable, alias);
        }
    }
}

#[test]
fn browsers_resolve_to_distinct_dirs() {
    for os in [Os::MacOs, Os::Linux, Os::Windows] {
        let chrome = Browser::Chrome.default_user_data_dir(os, "stable").unwrap();
        let edge = Browser::Edge.default_user_data_dir(os, "stable").unwrap();
        assert_ne!(chrome, edge);
    }
}

#[test]
fn macos_edge_paths() {
    for (channel, expected) in [
        ("stable", "Microsoft Edge"),
        ("beta", "Microsoft Edge Beta"),
        ("dev", "Microsoft Edge Dev"),
        ("canary", "Microsoft Edge Canary"),
    ] {
        assert_eq!(
            Browser::Edge.default_user_data_dir(Os::MacOs, channel).unwrap(),
            format!("Library/Application Support/{expected}"),
            "channel {channel}"
        );
    }
}

#[test]
fn macos_chrome_paths_unchanged() {
    for (channel, expected) in [
        ("stable", "Chrome"),
        ("beta", "Chrome Beta"),
        ("dev", "Chrome Dev"),
        ("canary", "Chrome Canary"),
    ] {
        assert_eq!(
            Browser::Chrome.default_user_data_dir(Os::MacOs, channel).unwrap(),
            format!("Library/Application Support/Google/{expected}"),
            "channel {channel}"
        );
    }
}

#[test]
fn linux_edge_paths() {
    for (channel, expected) in [
        ("stable", ".config/microsoft-edge"),
        ("beta", ".config/microsoft-edge-beta"),
        ("dev", ".config/microsoft-edge-dev"),
    ] {
        assert_eq!(Browser::Edge.default_user_data_dir(Os::Linux, channel).unwrap(), expected, "channel {channel}");
    }
    assert!(Browser::Edge.default_user_data_dir(Os::Linux, "canary").is_err());
}

#[test]
fn windows_edge_paths() {
    for (channel, expected) in [
        ("stable", "Microsoft/Edge/User Data"),
        ("beta", "Microsoft/Edge Beta/User Data"),
        ("dev", "Microsoft/Edge Dev/User Data"),
        ("canary", "Microsoft/Edge SxS/User Data"),
    ] {
        assert_eq!(Browser::Edge.default_user_data_dir(Os::Windows, channel).unwrap(), expected, "channel {channel}");
    }
}

#[test]
fn ws_endpoint_short_circuits_browser_validation() {
    let ws = resolve_ws_url(Some("ws://127.0.0.1:9222/x"), None, "firefox", "stable", Os::Linux).unwrap();
    match ws {
        WsUrlSource::Endpoint(s) => assert_eq!(s, "ws://127.0.0.1:9222/x"),
        other => panic!("unexpected {other:?}"),
    }
}

#[test]
fn active_port_error_names_the_browser() {
    let msg = BrowserError::ActivePortUnreadable("/tmp/x/DevToolsActivePort".to_string(), Browser::Edge).message();
    assert!(msg.contains("Microsoft Edge is running"), "{msg}");
    assert!(msg.contains("edge://inspect"), "{msg}");
}

#[test]
fn active_port_file_yields_url() {
    let url = ws_url_from_active_port("9222\n/devtools/browser/abc\n", Browser::Chrome).unwrap();
    assert_eq!(url, "ws://127.0.0.1:9222/devtools/browser/abc");
    let url = ws_url_from_active_port("\r\n  9333 \r\n\r\n /x \r\n", Browser::Chrome).unwrap();
    assert_eq!(url, "ws://127.0.0.1:9333/x");
}

#[test]
fn active_port_file_errors() {
    let e = ws_url_from_active_port("9222\n", Browser::Chrome).unwrap_err().message();
    assert_eq!(e, "Invalid DevToolsActivePort content: expected port and path, got: \"9222\"");
    let e = ws_url_from_active_port("http\n/x", Browser::Chrome).unwrap_err().message();
    assert_eq!(e, "Invalid port 'http' in DevToolsActivePort");
    let e = ws_url_from_active_port("70000\n/x", Browser::Chrome).unwrap_err().message();
    assert_eq!(e, "Invalid port '70000' in DevToolsActivePort");
    let e = ws_url_from_active_port("0\n/x", Browser::Edge).unwrap_err().message();
    assert_eq!(e, "Port 0 in DevToolsActivePort \u{2014} Microsoft Edge may not be running");
}

#[test]
fn default_profile_dir_is_resolved_when_no_dir_given() {
    match resolve_ws_url(None, None, "msedge", "beta", Os::Linux).unwrap() {
        WsUrlSource::ActivePort { user_data_dir, default_dir, browser } => {
            assert!(user_data_dir.is_none());
            assert_eq!(default_dir.unwrap(), ".config/microsoft-edge-beta");
            assert_eq!(browser, Browser::Edge);
        }
        other => panic!("unexpected {other:?}"),
    }
    match resolve_ws_url(None, Some("/p"), "chrome", "nightly", Os::Linux).unwrap() {
        WsUrlSource::ActivePort { user_data_dir, default_dir, .. } => {
            assert_eq!(user_data_dir.unwrap(), "/p");
            assert!(default_dir.is_none());
        }
        other => panic!("unexpected {other:?}"),
    }
    let e = resolve_ws_url(None, None, "edge", "canary", Os::Linux).unwrap_err().message();
    assert_eq!(e, "Microsoft Edge Canary is not distributed for Linux");
}
