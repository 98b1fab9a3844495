use mdbook_plugins::preprocessors::mermaid::process_chapter;

#[test]
fn test_process_chapter_escapes_angle_brackets() {
    // mermaid 语法含 `<-->`（如 "A9 <--> B9"），必须转义避免 pulldown-cmark
    // 的 HTML 解析器误判为标签（"Saw - in state TagOpen" 警告）
    let md = "```mermaid\ngraph TB\n    A9 <--> B9\n```\n";
    let out = process_chapter(md);
    assert!(out.contains("&lt;--&gt;"), "尖括号未转义: {}", out);
    assert!(!out.contains("<-->"), "原始 <--> 残留: {}", out);
    assert!(out.starts_with("<div class=\"mermaid-container\""), "HTML 包装缺失: {}", out);
}

#[test]
fn test_process_chapter_plain_diagram() {
    let md = "```mermaid\ngraph TB\n    a-->b\n```\n";
    let out = process_chapter(md);
    assert!(out.contains("graph TB"), "内容缺失: {}", out);
    assert!(out.contains("a--&gt;b") || out.contains("a--&gt;b"), "内容被破坏: {}", out);
    assert!(out.contains("</div></div>"), "闭合缺失: {}", out);
}
