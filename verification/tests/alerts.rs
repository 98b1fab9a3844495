use mdbook_plugins::preprocessors::alerts::{find_newline, inject_stylesheet, process_content, render_alerts};

#[test]
fn alert_rendered_from_template() {
    let out = render_alerts("> [!NOTE]\n> hello\n> world\n\ntext", "<div class=\"{kind}\">{body}</div>");
    assert_eq!(out, "<div class=\"note\">\nhello\nworld</div>\n\ntext");
}

#[test]
fn crlf_chapters_keep_their_line_ends() {
    assert_eq!(find_newline("a\r\nb\r\n"), "\r\n");
    assert_eq!(find_newline("a\nb\r\n"), "\n");
    let out = render_alerts("> [!TIP]\r\n> a\r\n", "<p class=\"{kind}\">{body}</p>");
    assert_eq!(out, "<p class=\"tip\">\r\na</p>\r\n");
}

#[test]
fn stylesheet_first() {
    assert_eq!(inject_stylesheet("body", "p{}"), "<style>\np{}\n</style>\nbody");
    let out = process_content("plain", "css", "{kind}");
    assert!(out.starts_with("<style>\ncss\n</style>\nplain"));
}
