use chrome_devtools_cli::commands::evaluate::{
    adapter_iife, script_iife, adapter_target_url, exception_message, parse_adapter_domains, url_matches_any_domain,
    url_matches_domain,
};

#[test]
fn test_parse_adapter_domains() {
    let content = r#"
            // ==UserAdapter==
            // @name         Xiaohongshu Custom Adapter
            // @domain       xiaohongshu.com
            // @domain       creator.xiaohongshu.com
            // ==/UserAdapter==
        "#;
    let domains = parse_adapter_domains(content);
    assert_eq!(domains, vec!["xiaohongshu.com", "creator.xiaohongshu.com"]);
}

#[test]
fn test_url_matches_domain() {
    assert!(url_matches_domain("https://www.xiaohongshu.com/explore", "xiaohongshu.com"));
    assert!(url_matches_domain("http://creator.xiaohongshu.com", "creator.xiaohongshu.com"));
    assert!(url_matches_domain("https://xiaohongshu.com:8080/path", "xiaohongshu.com"));
    assert!(!url_matches_domain("https://google.com", "xiaohongshu.com"));
}

#[test]
fn domain_match_needs_a_label_boundary() {
    assert!(!url_matches_domain("https://notxiaohongshu.com/", "xiaohongshu.com"));
    let domains = vec!["a.example".to_string(), "b.example".to_string()];
    assert!(url_matches_any_domain("https://x.b.example/p", &domains));
    assert!(!url_matches_any_domain("https://c.example/", &domains));
}

#[test]
fn adapter_helpers_render_their_text() {
    assert_eq!(adapter_target_url("example.com"), "https://www.example.com");
    assert_eq!(adapter_target_url("http://x.test/a"), "http://x.test/a");
    assert!(exception_message("ReferenceError: x").starts_with("ReferenceError: x\n\n[HINT:"));
}

#[test]
fn script_iife_wraps_the_script_after_ctx() {
    let s = script_iife("{\"n\":1}", "return ctx.args.n;");
    assert!(s.starts_with("(async () => {\n            const ctx = {\n                args: {\"n\":1},\n"));
    assert!(s.ends_with("};\n\n            return ctx.args.n;\n        })()"));
}

#[test]
fn adapter_iife_calls_the_named_function() {
    let s = adapter_iife("{}", "async function grab(ctx) { return 1; }", "grab");
    assert!(s.contains("args: {},"));
    assert!(s.contains("async function grab(ctx) { return 1; }\n\n            if (typeof grab !== 'function') {"));
    assert!(s.contains("throw new Error(\"Function 'grab' not found in adapter\");"));
    assert!(s.ends_with("return await grab(ctx);\n        })()"));
}
