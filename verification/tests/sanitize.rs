use local_git_ops::sanitize::{html, markdown, strip_controls};

#[test]
fn strips_ansi_and_osc_sequences() {
    assert_eq!(strip_controls("a\u{1b}[31mred\u{1b}[0mb"), "a[31mred[0mb");
    assert_eq!(strip_controls("t\u{1b}]0;pwned\u{7}"), "t]0;pwned");
    assert_eq!(strip_controls("multi\nline\r\ttext"), "multilinetext");
    assert_eq!(strip_controls("plain text"), "plain text");
}

#[test]
fn escapes_html_metacharacters() {
    assert_eq!(html("<script>"), "&lt;script&gt;");
    assert_eq!(html(r#"a&b"c'd"#), "a&amp;b&quot;c&#39;d");
    assert_eq!(html("x\u{1b}[31m"), "x[31m");
    assert_eq!(html("src/main.rs"), "src/main.rs");
}

#[test]
fn escapes_markdown_metacharacters() {
    assert_eq!(markdown("a|b"), "a\\|b");
    assert_eq!(markdown("<img src=x>"), "\\<img src=x>");
    assert_eq!(markdown("evil`code"), "evil'code");
    assert_eq!(markdown("src/main.rs"), "src/main.rs");
}

#[test]
fn strip_removes_c1_controls_and_keeps_other_unicode() {
    assert_eq!(strip_controls("a\u{85}b\u{9f}c\u{a0}d"), "abc\u{a0}d");
    assert_eq!(strip_controls("\u{7f}é✓"), "é✓");
    assert_eq!(strip_controls(""), "");
}

#[test]
fn strip_is_idempotent_on_example() {
    let once = strip_controls("x\u{1b}[0m\ty");
    assert_eq!(strip_controls(&once), once);
}

#[test]
fn markdown_strips_controls_before_escaping() {
    assert_eq!(markdown("a\u{1b}|`<\n"), "a\\|'\\<");
}

#[test]
fn html_escapes_every_metacharacter_once() {
    assert_eq!(html("&&<>\"'"), "&amp;&amp;&lt;&gt;&quot;&#39;");
}
