use chrome_devtools_cli::commands::read_page::{
    decode_html_entities, extract_content, extract_title_from_html, format_output_text,
    text_output, unwrap_iframes, ReadableMeta,
};

#[test]
fn extract_title_normal() {
    let html = "<html><head><title>My Page Title</title></head><body></body></html>";
    assert_eq!(extract_title_from_html(html), Some("My Page Title".to_string()));
}

#[test]
fn extract_title_case_insensitive() {
    let html = "<html><head><TITLE>Upper Title</TITLE></head></html>";
    assert_eq!(extract_title_from_html(html), Some("Upper Title".to_string()));
}

#[test]
fn extract_title_missing() {
    assert_eq!(extract_title_from_html("<html><body>Hello</body></html>"), None);
}

#[test]
fn extract_title_empty() {
    assert_eq!(extract_title_from_html("<html><head><title></title></head></html>"), None);
}

#[test]
fn extract_title_whitespace_trimmed() {
    let html = "<html><head><title>  Trimmed Title  </title></head></html>";
    assert_eq!(extract_title_from_html(html), Some("Trimmed Title".to_string()));
}

#[test]
fn extract_title_decodes_html_entities() {
    let html = "<html><head><title>Foo &amp; Bar</title></head></html>";
    assert_eq!(extract_title_from_html(html), Some("Foo & Bar".to_string()));
}

#[test]
fn extract_title_decodes_multiple_entities() {
    let html = "<html><head><title>&lt;script&gt; &quot;alert&quot;</title></head></html>";
    assert_eq!(extract_title_from_html(html), Some("<script> \"alert\"".to_string()));
}

#[test]
fn extract_title_no_double_decode() {
    let html = "<html><head><title>&amp;lt;escaped&amp;gt;</title></head></html>";
    assert_eq!(extract_title_from_html(html), Some("&lt;escaped&gt;".to_string()));
}

#[test]
fn decode_entities_ampersand() {
    assert_eq!(decode_html_entities("A &amp; B"), "A & B");
}

#[test]
fn decode_entities_all_named() {
    assert_eq!(decode_html_entities("&lt;&gt;&quot;&#39;&apos;&amp;"), "<>\"''&");
}

#[test]
fn decode_entities_no_double_decode() {
    assert_eq!(decode_html_entities("&amp;lt;"), "&lt;");
}

#[test]
fn decode_entities_plain_text_unchanged() {
    assert_eq!(decode_html_entities("no entities here"), "no entities here");
}

#[test]
fn unwrap_iframes_basic() {
    assert_eq!(
        unwrap_iframes("<p>A</p><iframe src=\"x\"><p>B</p></iframe><p>C</p>"),
        "<p>A</p><p>B</p><p>C</p>"
    );
}

#[test]
fn unwrap_iframes_preserves_attributes_in_inner_html() {
    assert_eq!(
        unwrap_iframes("<iframe src=\"x\"><a href=\"/link\">click</a></iframe>"),
        "<a href=\"/link\">click</a>"
    );
}

#[test]
fn unwrap_iframes_mixed_case() {
    assert_eq!(unwrap_iframes("<IFRAME src=\"x\"><P>Content</P></IFRAME>"), "<P>Content</P>");
}

#[test]
fn unwrap_iframes_multiple_siblings() {
    assert_eq!(unwrap_iframes("<iframe src=\"a\">A</iframe><iframe src=\"b\">B</iframe>"), "AB");
}

#[test]
fn unwrap_iframes_nested() {
    assert_eq!(
        unwrap_iframes("<iframe src=\"outer\">O<iframe src=\"inner\">I</iframe>O</iframe>"),
        "OIO"
    );
}

#[test]
fn unwrap_iframes_deeply_nested() {
    assert_eq!(
        unwrap_iframes(
            "<iframe src=\"1\">A<iframe src=\"2\">B<iframe src=\"3\">C</iframe>B</iframe>A</iframe>"
        ),
        "ABCBA"
    );
}

#[test]
fn unwrap_iframes_empty() {
    assert_eq!(unwrap_iframes("<iframe src=\"x\"></iframe>"), "");
}

#[test]
fn unwrap_iframes_no_iframes() {
    assert_eq!(unwrap_iframes("<p>plain html</p>"), "<p>plain html</p>");
}

#[test]
fn unwrap_iframes_unclosed_strips_open_tag() {
    assert_eq!(unwrap_iframes("<p>A</p><iframe src=\"x\"><p>B</p>"), "<p>A</p><p>B</p>");
}

#[test]
fn unwrap_iframes_unclosed_followed_by_well_formed() {
    assert_eq!(
        unwrap_iframes("<iframe src=\"broken\"><iframe src=\"ok\"><p>B</p></iframe>"),
        "<p>B</p>"
    );
}

#[test]
fn unwrap_iframes_stops_when_closing_tag_runs_into_another_tag() {
    let html = "<iframe>x</iframe <b>y</b>";
    assert_eq!(unwrap_iframes(html), html);
}

#[test]
fn text_output_prepends_title_unless_heading() {
    assert_eq!(text_output("Hello", Some("T")), "# T\n\nHello");
    assert_eq!(text_output("  # Heading\nx", Some("T")), "  # Heading\nx");
    assert_eq!(text_output("Hello", Some("")), "Hello");
    assert_eq!(text_output("Hello", None), "Hello");
}

fn no_meta() -> ReadableMeta {
    ReadableMeta { title: None, byline: None, excerpt: None, site_name: None }
}

fn titled(title: &str) -> ReadableMeta {
    ReadableMeta { title: Some(title.to_string()), byline: None, excerpt: None, site_name: None }
}

#[test]
fn extract_content_non_article_returns_raw_html_with_title() {
    let html = "<html><head><title>Login Page</title></head><body><h1>Log In</h1><form><input type='text'/></form></body></html>";
    let (content, meta) = extract_content(html, None);
    assert_eq!(content, html);
    assert_eq!(meta.title, Some("Login Page".to_string()));
    assert!(meta.byline.is_none());
    assert!(meta.excerpt.is_none());
    assert!(meta.site_name.is_none());
}

#[test]
fn extract_content_no_title_anywhere() {
    let html = "<html><body><p>Just some content with no title tag.</p></body></html>";
    let (content, meta) = extract_content(html, None);
    assert_eq!(content, html);
    assert!(meta.title.is_none());
}

#[test]
fn extract_content_passes_url_for_relative_link_resolution() {
    let html = "<html><head><title>Test</title></head><body><a href='/page'>link</a></body></html>";
    let url = "https://example.com/article";
    let (_, _) = extract_content(html, Some(url));
}

#[test]
fn extract_content_readability_article() {
    let html = r#"<html><head><title>Readability Test</title></head><body>
            <article>
                <h1>Article Heading</h1>
                <p>This is the first paragraph of a test article. It contains enough text to be
                considered substantial by the Readability algorithm which typically requires
                paragraphs of reasonable length to score well.</p>
                <p>The second paragraph adds more weight to the article scoring algorithm.
                Readability uses text density, paragraph count, and other signals to determine
                whether a page is article-like.</p>
                <p>A third paragraph for good measure ensures the content density is high enough
                to trigger the readability detection. Without sufficient text the algorithm
                would classify this as a non-article page.</p>
                <p>The fourth paragraph further strengthens the article signal. Real articles
                typically have multiple paragraphs of substantive text which is what the
                algorithm is designed to detect.</p>
                <p>A fifth paragraph makes this unambiguously article-like content. The
                Readability algorithm should have no trouble identifying this as an article
                worth extracting.</p>
            </article>
        </body></html>"#;
    let (content, meta) = extract_content(html, None);
    assert_ne!(content, html);
    assert!(content.contains("first paragraph"));
    assert!(meta.title.is_some());
}

#[test]
fn format_output_text_prepends_title_as_h1() {
    let result = format_output_text("<p>Hello world</p>", &titled("My Article")).unwrap();
    assert!(result.starts_with("# My Article\n\n"));
}

#[test]
fn format_output_text_no_double_h1_when_body_starts_with_heading() {
    let html = "<h1>Already Has Heading</h1><p>Content here</p>";
    let result = format_output_text(html, &titled("Duplicate Title")).unwrap();
    assert!(!result.starts_with("# Duplicate Title\n\n# Already"));
}

#[test]
fn format_output_text_no_title_no_prepend() {
    let result = format_output_text("<p>Just content</p>", &no_meta()).unwrap();
    assert!(!result.starts_with("# "));
}

#[test]
fn format_output_skip_tags_strips_scripts_and_styles() {
    let html = "<head><style>body{color:red}</style></head><script>alert(1)</script><p>Real content</p>";
    let result = format_output_text(html, &no_meta()).unwrap();
    assert!(!result.contains("color:red"));
    assert!(!result.contains("alert"));
    assert!(result.contains("Real content"));
}

#[test]
fn format_output_preserves_nav_footer_aside() {
    let html = "<nav>Navigation</nav><main><p>Main content</p></main><footer>Footer</footer><aside>Sidebar</aside>";
    let result = format_output_text(html, &no_meta()).unwrap();
    assert!(result.contains("Navigation"));
    assert!(result.contains("Main content"));
    assert!(result.contains("Footer"));
    assert!(result.contains("Sidebar"));
}

#[test]
fn format_output_preserves_form_elements() {
    let html = "<form><button>Submit</button><select><option>A</option></select></form>";
    let result = format_output_text(html, &no_meta()).unwrap();
    assert!(result.contains("Submit"));
}

#[test]
fn format_output_recursively_converts_iframe_inner_content() {
    let html = r#"<p>Before</p><iframe src="https://example.com"><p>Embedded <strong>bold</strong> text</p><a href="/link">A link</a></iframe><p>After</p>"#;
    let result = format_output_text(html, &no_meta()).unwrap();
    assert!(result.contains("Embedded **bold** text"));
    assert!(result.contains("[A link](/link)"));
    assert!(result.contains("Before"));
    assert!(result.contains("After"));
}

#[test]
fn format_output_recursively_converts_nested_iframes() {
    let html = r#"<iframe src="/outer"><p>Outer</p><iframe src="/inner"><p>Inner content</p></iframe></iframe>"#;
    let result = format_output_text(html, &no_meta()).unwrap();
    assert!(result.contains("Outer"));
    assert!(result.contains("Inner content"));
}

#[test]
fn format_output_empty_iframe_produces_no_output() {
    let html = "<p>Before</p><iframe src=\"https://example.com\"></iframe><p>After</p>";
    let result = format_output_text(html, &no_meta()).unwrap();
    assert_eq!(result.trim(), "Before\n\nAfter");
}
