use chrome_devtools_cli::commands::console::{
    format_console_text, process_console_events, ConsoleArg, ConsoleEvent,
};

fn arg(value: Option<&str>, description: Option<&str>) -> ConsoleArg {
    ConsoleArg { value: value.map(String::from), description: description.map(String::from) }
}

fn api(msg_type: &str, args: Vec<ConsoleArg>) -> ConsoleEvent {
    ConsoleEvent::ApiCalled { msg_type: msg_type.to_string(), args }
}

#[test]
fn test_process_console_events_joins_args() {
    let events = vec![api("log", vec![arg(Some("hello"), None), arg(Some("42"), None)])];
    let timestamps = vec![1000.0_f64];
    let out = process_console_events(&events, &vec![]);
    assert_eq!(out.len(), 1);
    assert_eq!(out[0].msg_type, "log");
    assert_eq!(out[0].text, "hello 42");
    assert_eq!(timestamps[out[0].event_index], 1000.0);
}

#[test]
fn test_process_console_events_uses_description_when_value_missing() {
    let events = vec![api("log", vec![arg(None, Some("Object"))])];
    let out = process_console_events(&events, &vec![]);
    assert_eq!(out[0].text, "Object");
}

#[test]
fn test_process_console_events_exception() {
    let events = vec![ConsoleEvent::ExceptionThrown {
        description: "Cannot read property 'x' of null".to_string(),
    }];
    let out = process_console_events(&events, &vec![]);
    assert_eq!(out.len(), 1);
    assert_eq!(out[0].msg_type, "exception");
    assert_eq!(out[0].text, "Cannot read property 'x' of null");
}

#[test]
fn test_process_console_events_type_filter_excludes() {
    let events = vec![
        api("log", vec![arg(Some("skipped"), None)]),
        api("error", vec![arg(Some("kept"), None)]),
    ];
    let filter = vec!["error".to_string()];
    let out = process_console_events(&events, &filter);
    assert_eq!(out.len(), 1);
    assert_eq!(out[0].text, "kept");
}

#[test]
fn test_process_console_events_error_filter_includes_exceptions() {
    // An exception without a description reads as the details' text.
    let events = vec![ConsoleEvent::ExceptionThrown { description: "oops".to_string() }];
    let filter = vec!["error".to_string()];
    let out = process_console_events(&events, &filter);
    assert_eq!(out.len(), 1);
}

#[test]
fn test_process_console_events_ignores_unknown_methods() {
    let events = vec![ConsoleEvent::Other];
    let out = process_console_events(&events, &vec![]);
    assert!(out.is_empty());
}

#[test]
fn console_arguments_fall_back_to_object_marker() {
    let events = vec![api("warn", vec![arg(None, None), arg(Some("x"), Some("ignored"))])];
    let out = process_console_events(&events, &vec![]);
    assert_eq!(out[0].text, "<object> x");
}

#[test]
fn console_text_listing() {
    let events = vec![
        api("log", vec![arg(Some("a"), None)]),
        ConsoleEvent::Other,
        ConsoleEvent::ExceptionThrown { description: "boom".to_string() },
    ];
    let out = process_console_events(&events, &vec![]);
    assert_eq!(out[1].event_index, 2);
    assert_eq!(format_console_text(&out), "[log] a\n[exception] boom\n");
    assert_eq!(format_console_text(&vec![]), "No console messages collected.");
}
