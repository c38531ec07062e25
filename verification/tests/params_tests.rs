use chrome_devtools_cli::commands::pages::check_extra_headers;
use chrome_devtools_cli::commands::third_party::execute_tool_script;

#[test]
fn tool_script_writes_params_back_compactly() {
    let s = execute_tool_script("tool", Some("{ \"a\" :  1 }")).unwrap();
    assert!(s.contains("const params = {\"a\":1};"));
    assert!(s.contains("executeTool(tool, {\"a\":1})"));
    assert!(s.contains("t.name === \"tool\""));
}

#[test]
fn tool_script_defaults_to_empty_params() {
    let s = execute_tool_script("tool", None).unwrap();
    assert!(s.contains("const params = {};"));
}

#[test]
fn tool_script_quotes_the_name_as_json() {
    let s = execute_tool_script("say \"hi\"", None).unwrap();
    assert!(s.contains("t.name === \"say \\\"hi\\\"\""));
}

#[test]
fn tool_script_rejects_invalid_params() {
    let e = execute_tool_script("tool", Some("not json")).unwrap_err();
    assert!(e.starts_with("Invalid JSON parameters: "));
    assert!(e.len() > "Invalid JSON parameters: ".len());
}

#[test]
fn extra_headers_accepts_string_values() {
    let mut v = check_extra_headers("{\"X-A\": \"1\", \"B\": \"two\"}").unwrap();
    v.sort();
    assert_eq!(
        v,
        vec![("B".to_string(), "two".to_string()), ("X-A".to_string(), "1".to_string())]
    );
}

#[test]
fn extra_headers_empty_object_is_fine() {
    assert_eq!(check_extra_headers("{}").unwrap(), Vec::new());
}

#[test]
fn extra_headers_must_be_an_object() {
    assert_eq!(
        check_extra_headers("[1]").unwrap_err(),
        "--extra-headers must be a JSON object"
    );
    assert_eq!(
        check_extra_headers("\"x\"").unwrap_err(),
        "--extra-headers must be a JSON object"
    );
}

#[test]
fn extra_headers_values_must_be_strings() {
    assert_eq!(
        check_extra_headers("{\"X-A\": 1}").unwrap_err(),
        "Header value for 'X-A' must be a string"
    );
}

#[test]
fn extra_headers_rejects_invalid_json() {
    let e = check_extra_headers("{bad").unwrap_err();
    assert!(e.starts_with("Invalid --extra-headers JSON: "));
    assert!(e.len() > "Invalid --extra-headers JSON: ".len());
}

#[test]
fn tool_name_escapes_control_characters() {
    let s = execute_tool_script("a\u{1}b\n\t\\", None).unwrap();
    assert!(s.contains("t.name === \"a\\u0001b\\n\\t\\\\\""));
}
