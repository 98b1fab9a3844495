use mdbook_plugins::preprocessors::pdf_preview::{process_chapter, process_content, resolve_mode};

#[test]
fn test_web_preview_link_is_rendered() {
    let md = "参考[线性代数](./线性代数应该这样学-第四版.pdf \"web-preview\")文档\n";
    let out = process_content(md, None, "");
    assert!(
        out.contains("data-pdf-src="),
        "带 web-preview 标题的 PDF 链接应渲染为预览容器: {}",
        out
    );
    assert!(
        out.contains("data-pdf-src=\"./线性代数应该这样学-第四版.pdf\""),
        "预览容器应保留原始 pdf 路径: {}",
        out
    );
}

#[test]
fn test_plain_pdf_link_not_rendered() {
    let md = "[产品手册](https://www.st.com/resource/en/datasheet/stm8s103f2.pdf) 和 [NIST](a.pdf)\n";
    let out = process_content(md, None, "");
    assert!(
        !out.contains("data-pdf-src="),
        "普通 .pdf 链接不应被渲染为预览容器: {}",
        out
    );
    // 原始链接保持原样
    assert!(out.contains("[产品手册](https://www.st.com/resource/en/datasheet/stm8s103f2.pdf)"));
}

#[test]
fn test_single_quote_title_also_matches() {
    let md = "[x](./a.pdf 'web-preview')\n";
    assert!(
        process_content(md, None, "").contains("data-pdf-src="),
        "单引号 web-preview 标题也应匹配"
    );
}

#[test]
fn test_other_title_not_rendered() {
    let md = "[x](./a.pdf \"other-title\")\n";
    assert!(
        !process_content(md, None, "").contains("data-pdf-src="),
        "非 web-preview 标题不应渲染"
    );
}

#[test]
fn pdfjs_mode_and_escaping() {
    let out = process_chapter("x[a](dir/a&b.pdf 'web-preview')", "pdfjs");
    assert_eq!(
        out,
        "x<div class=\"pdfviewer-container\" data-pdf-src=\"dir/a&amp;b.pdf\" data-preview-mode=\"pdfjs\"><div class=\"ppv-placeholder\"><div class=\"ppv-icon\">📄</div><div class=\"ppv-filename\">a&amp;b.pdf</div><div class=\"ppv-hint\">点击加载 PDF 预览</div></div></div>"
    );
    assert_eq!(resolve_mode(Some("pdfjs")), "pdfjs");
    assert_eq!(resolve_mode(Some("other")), "embed");
    assert_eq!(resolve_mode(None), "embed");
}

#[test]
fn image_links_are_not_previews() {
    let md = "![x](a.pdf \"web-preview\")";
    assert_eq!(process_chapter(md, "embed"), md);
    assert!(process_content(md, None, "CSS").starts_with("CSS\n"));
}
