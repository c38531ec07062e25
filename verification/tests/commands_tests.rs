use chrome_devtools_cli::cdp::TargetInfo;
use chrome_devtools_cli::commands::emulation::{blocklist_summary, parse_viewport, plan_emulation, EmulateParams};
use chrome_devtools_cli::commands::executor::{
    check_dispatched, check_required_args, default_duration_ms, known_args, merge_blocklist,
    opens_session, uses_persistent_session, validate_args,
};
use chrome_devtools_cli::commands::input::{
    center_script, click_probe_outcome, fill_probe_outcome, filled_message, map_key,
    parse_key_combo, script_error_message, typed_message, ClickProbe, FillProbe,
};
use chrome_devtools_cli::commands::navigate::{history_step, nav_action, nav_message, navigation_result, NavAction};
use chrome_devtools_cli::commands::pages::{
    check_header_values, opened_page_message, page_list_text, wait_for_script, wait_step, WaitProbe, WaitStep,
};
use chrome_devtools_cli::commands::screenshot::{
    capture_params, decode_screenshot, screencast_format, screenshot_saved_message,
};
use chrome_devtools_cli::commands::snapshot::{ax_tree_text, AxNode};
use chrome_devtools_cli::commands::third_party::{executed_tool_message, tool_list_text, ToolEntry, ToolGroup};
use chrome_devtools_cli::telemetry::log_file_name;

fn strings(v: &[&str]) -> Vec<String> {
    v.iter().map(|s| s.to_string()).collect()
}

fn params() -> EmulateParams {
    EmulateParams {
        viewport: None,
        has_device_scale_factor: false,
        mobile: false,
        geolocation: None,
        has_accuracy: false,
        clear_viewport: false,
        clear_geolocation: false,
        clear_all: false,
        block_url: Vec::new(),
        unblock_url: Vec::new(),
        clear_blocks: false,
    }
}

// -- keys --

#[test]
fn key_names_map_case_insensitively() {
    let k = map_key("ENTER");
    assert_eq!((k.key.as_str(), k.code.as_str(), k.key_code), ("Enter", "Enter", 13));
    let k = map_key("space");
    assert_eq!((k.key.as_str(), k.code.as_str(), k.key_code), (" ", "Space", 32));
    let k = map_key("Q");
    assert_eq!((k.key.as_str(), k.code.as_str(), k.key_code), ("Q", "Q", 0));
}

#[test]
fn key_combinations_collect_modifiers() {
    let c = parse_key_combo("Ctrl+Shift+a").ok().unwrap();
    assert_eq!(c.modifiers, 10);
    assert_eq!(c.key.code, "KeyA");
    let c = parse_key_combo("Cmd+Alt+Tab").ok().unwrap();
    assert_eq!(c.modifiers, 5);
    assert_eq!(c.key.key, "Tab");
    let c = parse_key_combo("Escape").ok().unwrap();
    assert_eq!(c.modifiers, 0);
    assert_eq!(c.key.key_code, 27);
    assert_eq!(parse_key_combo("Hyper+a").err().unwrap(), "Unknown modifier: Hyper");
}

#[test]
fn click_probe_answers() {
    assert!(matches!(click_probe_outcome("not_option", "#b"), ClickProbe::PointerClick));
    match click_probe_outcome("selected", "#o") {
        ClickProbe::Selected(m) => assert_eq!(m, "Selected option: #o"),
        _ => panic!("expected a selection"),
    }
    match click_probe_outcome("select_disabled", "#o") {
        ClickProbe::Refused(m) => assert_eq!(m, "Cannot click option in disabled select: #o"),
        _ => panic!("expected a refusal"),
    }
    match click_probe_outcome("weird", "#o") {
        ClickProbe::Refused(m) => assert_eq!(m, "Unexpected response from page during click handling: weird"),
        _ => panic!("expected a refusal"),
    }
}

#[test]
fn fill_probe_answers() {
    assert!(matches!(fill_probe_outcome("checkbox_ok", "#c", "true"), FillProbe::Done));
    assert!(matches!(fill_probe_outcome("ok", "#t", "x"), FillProbe::InsertText));
    match fill_probe_outcome("option_not_found", "#s", "Blue") {
        FillProbe::Refused(m) => {
            assert_eq!(m, "Could not find option with text or value 'Blue' in select element: #s")
        }
        _ => panic!("expected a refusal"),
    }
    assert_eq!(filled_message("#name", "Ann"), "Filled '#name' with: Ann");
    assert_eq!(typed_message("hi", Some("Enter")), "Typed: hi + Enter");
    assert_eq!(typed_message("hi", None), "Typed: hi");
    assert_eq!(
        script_error_message("during fill handling", None, Some("SyntaxError")),
        "JavaScript error during fill handling: SyntaxError"
    );
    assert_eq!(
        script_error_message("during click handling", None, None),
        "JavaScript error during click handling: Unknown error"
    );
}

#[test]
fn page_scripts_quote_the_selector() {
    let s = center_script("a[href=\"x\"]");
    assert!(s.contains("document.querySelector(\"a[href=\\\"x\\\"]\")"));
    assert_eq!(wait_for_script("hi \"you\""), "document.body && document.body.innerText.includes(\"hi \\\"you\\\"\")");
}

// -- navigation --

#[test]
fn navigation_moves_and_history() {
    assert!(matches!(nav_action(Some("https://a"), true, true, false), Ok(NavAction::Back)));
    assert!(matches!(nav_action(None, false, true, true), Ok(NavAction::Forward)));
    match nav_action(Some("https://a"), false, false, false) {
        Ok(NavAction::Goto(u)) => assert_eq!(u, "https://a"),
        _ => panic!("expected a load"),
    }
    assert_eq!(
        nav_action(None, false, false, false).err().unwrap(),
        "URL required (or use --back, --forward, --reload)"
    );
    assert_eq!(history_step(2, 3, false), Ok(1));
    assert_eq!(history_step(0, 3, false).err().unwrap(), "Already at the beginning of history");
    assert_eq!(history_step(1, 3, true), Ok(2));
    assert_eq!(history_step(2, 3, true).err().unwrap(), "Already at the end of history");
    assert_eq!(nav_message(1, "https://b"), "Navigated back to https://b");
    assert_eq!(nav_message(3, "https://b"), "Reloaded page");
    let r = navigation_result("Navigated to https://a", "https://a", Some("/tmp/out.txt"));
    assert_eq!(r.output, "Output saved to /tmp/out.txt");
    assert_eq!(r.navigated_to.as_deref(), Some("https://a"));
}

// -- pages --

#[test]
fn page_listing_and_messages() {
    let pages = vec![
        TargetInfo { target_id: "A1".into(), title: "One".into(), url: "https://one".into(), target_type: "page".into() },
        TargetInfo { target_id: "B2".into(), title: "Two".into(), url: "https://two".into(), target_type: "page".into() },
    ];
    let names = strings(&["red-fox", "blue-owl"]);
    assert_eq!(
        page_list_text(&pages, &names),
        "[0] (red-fox) One — https://one\n[1] (blue-owl) Two — https://two\n"
    );
    assert_eq!(page_list_text(&vec![], &vec![]), "No pages open.");
    assert_eq!(opened_page_message("https://x", "T9"), "Opened new page: https://x (target: T9)");
    let headers = vec![("X-A".to_string(), true), ("X-B".to_string(), false)];
    assert_eq!(check_header_values(&headers).err().unwrap(), "Header value for 'X-B' must be a string");
    assert!(check_header_values(&vec![("X-A".to_string(), true)]).is_ok());
}

#[test]
fn wait_for_polling() {
    match wait_step(true, WaitProbe::Answer(true), "Done", 500, "S1") {
        WaitStep::Fail(m) => assert_eq!(m, "Timeout (500ms) waiting for text: Done"),
        _ => panic!("expected a timeout"),
    }
    match wait_step(false, WaitProbe::Answer(true), "Done", 500, "S1") {
        WaitStep::Found(m) => assert_eq!(m, "Found text: Done"),
        _ => panic!("expected the text"),
    }
    assert!(matches!(
        wait_step(false, WaitProbe::Failed("Execution context was destroyed.".into()), "Done", 500, "S1"),
        WaitStep::Again
    ));
    match wait_step(false, WaitProbe::Failed("boom".into()), "Done", 500, "S1") {
        WaitStep::Fail(m) => assert_eq!(m, "wait_for failed for session S1: boom"),
        _ => panic!("expected a failure"),
    }
}

// -- emulation --

#[test]
fn viewport_sizes() {
    assert_eq!(parse_viewport("1280x720"), Ok((1280, 720)));
    assert_eq!(parse_viewport(" 800 X 600 "), Ok((800, 600)));
    assert_eq!(parse_viewport("1280").err().unwrap(), "Viewport must be in WxH format (e.g. 1280x720)");
    assert_eq!(parse_viewport("abcx720").err().unwrap(), "Invalid width: abc");
    assert_eq!(parse_viewport("10x-1").err().unwrap(), "Invalid height: -1");
    assert_eq!(parse_viewport("0x720").err().unwrap(), "Invalid width: 0 (must be > 0)");
}

#[test]
fn emulation_flags_and_block_list() {
    let mut p = params();
    assert!(!p.has_emulation());
    p.mobile = true;
    assert_eq!(p.validate().err().unwrap(), "--mobile requires --viewport");
    p.viewport = Some("400x800".into());
    assert!(p.validate().is_ok());
    assert!(p.has_emulation());

    let mut list = strings(&["*.gif"]);
    let mut q = params();
    q.block_url = strings(&["*.png", "*.gif"]);
    q.unblock_url = strings(&["*.gif"]);
    q.clear_viewport = true;
    let plan = plan_emulation(&mut list, &q);
    assert_eq!(list, strings(&["*.png"]));
    assert_eq!(
        plan.actions,
        strings(&["Blocked URLs: *.png, *.gif", "Un-blocked URLs: *.gif", "Viewport cleared"])
    );
    assert!(plan.network_changed);
    assert!(plan.clear_viewport && !plan.clear_geolocation);

    let mut r = params();
    r.clear_all = true;
    let plan = plan_emulation(&mut list, &r);
    assert!(list.is_empty());
    assert_eq!(plan.actions, strings(&["Network blocks cleared", "Viewport cleared", "Geolocation cleared"]));
    assert_eq!(blocklist_summary(&strings(&["*.png"])), "Blocked URLs:\n  *.png\n");
    assert_eq!(blocklist_summary(&vec![]), "");
}

// -- screenshots --

#[test]
fn capture_parameters_and_decoding() {
    let c = capture_params("JPEG", Some(150), false, true, false);
    assert_eq!(c.format, "jpeg");
    assert_eq!(c.quality, Some(100));
    assert!(c.needs_metrics);
    let c = capture_params("PNG", Some(50), false, false, false);
    assert_eq!(c.quality, None);
    assert!(!c.needs_metrics);
    assert_eq!(decode_screenshot("aGVsbG8=").unwrap(), b"hello".to_vec());
    assert!(decode_screenshot("not base64!").is_err());
    assert_eq!(screenshot_saved_message("/tmp/s.png", 5), "Screenshot saved to /tmp/s.png (5 bytes)");
}

#[test]
fn screencast_formats() {
    assert_eq!(screencast_format("out.WEBM", None).unwrap(), "webm");
    assert_eq!(screencast_format("out", None).unwrap(), "mp4");
    assert_eq!(screencast_format("out.webm", Some("MP4")).unwrap(), "mp4");
    assert_eq!(
        screencast_format("out.gif", None).err().unwrap(),
        "Unsupported screencast format \"gif\". Supported formats: mp4, webm"
    );
}

// -- accessibility tree --

#[test]
fn accessibility_tree_listing() {
    let node = |role: &str, name: &str, id: &str, depth: u64| AxNode {
        role: role.to_string(),
        name: name.to_string(),
        node_id: id.to_string(),
        depth,
    };
    let nodes = vec![
        node("RootWebArea", "Home", "1", 0),
        node("generic", "", "2", 1),
        node("button", "", "3", 2),
    ];
    assert_eq!(ax_tree_text(&nodes), "[RootWebArea] \"Home\" #1\n    [button] #3\n");
}

// -- third-party tools --

#[test]
fn tool_listing() {
    let groups = vec![ToolGroup {
        name: Some("Shop".into()),
        description: Some("Cart tools".into()),
        tools: Some(vec![ToolEntry {
            name: Some("add".into()),
            description: Some("Add item".into()),
            origin: Some("https://shop".into()),
            annotations: strings(&["readOnly=false"]),
        }]),
    }];
    assert_eq!(
        tool_list_text("modelContext", &groups),
        "API: WebMCP\nShop: Cart tools\nAvailable tools:\n  - add: Add item [origin: https://shop]\n    annotations: readOnly=false\n"
    );
    let empty = vec![ToolGroup { name: None, description: None, tools: Some(vec![]) }];
    assert_eq!(tool_list_text("dtmcp", &empty), "No third-party developer tools found on this page.");
    assert_eq!(executed_tool_message("add", "dtmcp", "{}"), "Executed 'add' via DTMCP (legacy):\n{}");
}

// -- dispatch --

#[test]
fn request_checks() {
    assert_eq!(known_args("click"), vec!["selector"]);
    assert!(validate_args("click", &strings(&["selector", "dialog_action"])).is_ok());
    assert_eq!(
        validate_args("click", &strings(&["selector", "x"])).err().unwrap(),
        "Unknown argument(s) for 'click': x. Expected: selector"
    );
    assert!(check_dispatched("read-page").is_ok());
    assert_eq!(check_dispatched("fly").err().unwrap(), "Unknown command: fly");
    assert_eq!(check_required_args("click-at", &strings(&["x"])).err().unwrap(), "x and y required");
    assert!(check_required_args("click-at", &strings(&["y", "x"])).is_ok());
    assert!(check_required_args("snapshot", &vec![]).is_ok());
    assert_eq!(default_duration_ms("sw-logs"), 3000);
    assert_eq!(default_duration_ms("console"), 0);
    assert!(!opens_session("select-page"));
    assert!(uses_persistent_session(true, Some("T1"), "T1"));
    assert!(!uses_persistent_session(true, Some("T1"), "T2"));
    let mut list = strings(&["a", "b"]);
    merge_blocklist(&mut list, &strings(&["c", "a"]), &strings(&["b"]));
    assert_eq!(list, strings(&["a", "c"]));
}

#[test]
fn telemetry_log_files_rotate_daily() {
    assert_eq!(log_file_name(0), "telemetry-0.log");
    assert_eq!(log_file_name(86_399), "telemetry-0.log");
    assert_eq!(log_file_name(1_700_000_000), "telemetry-19675.log");
}

#[test]
fn test_known_args_sync_with_clap() {
    let cli: Vec<(&str, Vec<&str>)> = vec![
        ("list-pages", vec![]),
        (
            "navigate",
            vec![
                "url", "back", "forward", "reload", "extra_headers", "viewport", "device_scale_factor", "mobile",
                "geolocation", "accuracy", "clear_all", "output",
            ],
        ),
        (
            "new-page",
            vec!["url", "viewport", "device_scale_factor", "mobile", "geolocation", "accuracy", "extra_headers"],
        ),
        ("close-page", vec!["id_or_index"]),
        ("select-page", vec!["id_or_index"]),
        ("screenshot", vec!["output", "format", "full_page"]),
        ("evaluate", vec!["expression", "dialog_action", "output", "track_navigation"]),
        ("click", vec!["selector"]),
        ("click-at", vec!["x", "y"]),
        ("fill", vec!["selector", "value"]),
        ("type-text", vec!["text", "submit_key"]),
        ("press-key", vec!["key"]),
        ("hover", vec!["selector"]),
        ("snapshot", vec!["output"]),
        (
            "emulate",
            vec![
                "viewport", "device_scale_factor", "mobile", "geolocation", "accuracy", "clear_viewport",
                "clear_geolocation", "clear_all", "clear_blocks",
            ],
        ),
        ("wait-for", vec!["text", "timeout"]),
        ("list-3p-tools", vec![]),
        ("execute-3p-tool", vec!["name", "params"]),
        ("console", vec!["duration", "type"]),
        ("network", vec!["duration", "type"]),
        ("sw-logs", vec!["duration", "extension_id"]),
        ("kill-daemon", vec![]),
    ];
    for (name, expected) in cli {
        let mut expected: Vec<String> = expected.iter().map(|s| s.to_string()).collect();
        let mut actual: Vec<String> = known_args(name).iter().map(|s| s.to_string()).collect();
        expected.sort();
        actual.sort();
        assert_eq!(actual, expected, "known_args mismatch for command '{}'", name);
    }
}

#[test]
fn screencast_start_message_names_the_output() {
    assert_eq!(
        chrome_devtools_cli::commands::screenshot::screencast_started_message("/tmp/rec.webm"),
        "Screencast recording successfully started. Output will be saved as /tmp/rec.webm."
    );
}
