use mdbook_plugins::preprocessors::langtabs::{process_chapter, render_tabs};

#[test]
fn tab_group_rendered() {
    let md = "x<!-- langtabs-start -->\n```rust\nfn a() {}\n```\n```py\nprint(1)\n```\n<!-- langtabs-end -->y";
    let expected = "x<div class=\"langtabs\">\n<ul class=\"langtabs-tabs\" role=\"tablist\">\n  <li class=\"langtabs-tab active\" role=\"tab\" data-langtabs-tab=\"0-0\">rust</li>\n  <li class=\"langtabs-tab\" role=\"tab\" data-langtabs-tab=\"0-1\">py</li>\n</ul>\n<div class=\"langtabs-panel active\" role=\"tabpanel\" data-langtabs-panel=\"0-0\">\n<pre><code>fn a() {}</code></pre>\n</div>\n<div class=\"langtabs-panel\" role=\"tabpanel\" data-langtabs-panel=\"0-1\">\n<pre><code>print(1)</code></pre>\n</div>\n</div>\ny";
    assert_eq!(process_chapter(md), expected);
}

#[test]
fn groups_numbered_in_order() {
    let g = "<!-- langtabs-start -->\n```c\nx\n```\n<!-- langtabs-end -->";
    let md = format!("{g}\n<!-- langtabs-start -->none<!-- langtabs-end -->\n{g}");
    let out = process_chapter(&md);
    assert!(out.contains("data-langtabs-tab=\"0-0\""));
    assert!(out.contains("data-langtabs-tab=\"1-0\""));
    assert!(!out.contains("data-langtabs-tab=\"2-0\""));
}

#[test]
fn code_escaped_like_escape_default() {
    let (html, used) = render_tabs("```py\nprint(\"你\")\t\n```", 7);
    assert!(used);
    assert!(html.contains("<pre><code>print(\\\"\\u{4f60}\\\")</code></pre>"));
    assert!(html.contains("data-langtabs-panel=\"7-0\""));
    assert_eq!(render_tabs("no code", 0), (String::new(), false));
}

#[test]
fn markers_out_of_order_left_alone() {
    let md = "<!-- langtabs-end --> a <!-- langtabs-start -->";
    assert_eq!(process_chapter(md), md);
}
