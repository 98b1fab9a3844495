use mdbook_plugins::renderers::pdf_html_preprocess::{
    chapter_path_to_id, extract_svg_element, fix_links, inject_font_css, inject_js, inject_print_css,
    inject_svg_width_style, inject_toc_fix, insert_before, remove_cdn_module_scripts,
    remove_external_resources, replace_emoji_with, replace_emoji_with_text, replace_pdf_containers,
    rewrite_svg_ids, inline_svg_images, svg_image_names, svg_bounds_cross, preprocess_head,
    preprocess_tail, emoji_font_file,
};

#[test]
fn test_chapter_path_to_id() {
    assert_eq!(chapter_path_to_id("intro.md"), "intro");
    assert_eq!(chapter_path_to_id("chapter/01-setup.md"), "chapter-01-setup");
    assert_eq!(chapter_path_to_id("guide/getting-started.md"), "guide-getting-started");
}

#[test]
fn test_inject_toc_fix_basic() {
    let html = "<html><body>content</body></html>";
    let paths = vec!["intro.md".to_string(), "chapter/01-setup.md".to_string()];
    let result = inject_toc_fix(html, &paths);
    assert!(result.contains(r#"<a id="intro">"#));
    assert!(result.contains(r#"<a id="chapter-01-setup">"#));
    // 插入在 </body> 前
    assert!(result.ends_with("</body></html>") || result.contains("</body></html>"));
}

#[test]
fn test_inject_js_inserts_before_body_end() {
    let html = "<html><body><p>hello</p></body></html>";
    let result = inject_js(html, false);
    assert!(result.contains("__pdfRenderLatch"));
    assert!(result.contains("content-has-all-loaded-for-mdbook-pdf-generation"));
    assert!(result.contains("<script"));
}

#[test]
fn test_inject_js_with_emoji_enabled() {
    let html = "<html><body><p>hello</p></body></html>";
    let result = inject_js(html, true);
    assert!(result.contains("processEmojiSync"));
    assert!(result.contains("isEmoji"));
    assert!(result.contains("hasEmoji"));
    assert!(result.contains("EMOJI_RANGES"));
}

#[test]
fn test_inject_js_with_emoji_disabled() {
    let html = "<html><body><p>hello</p></body></html>";
    let result = inject_js(html, false);
    assert!(!result.contains("processEmojiParallel"));
    assert!(!result.contains("isEmoji"));
}

#[test]
fn test_inject_print_css() {
    let html = "<html><head></head><body>content</body></html>";
    let result = inject_print_css(html);
    assert!(result.contains("@media print"));
    assert!(result.contains("page-break-inside: avoid"));
}

#[test]
fn test_inject_font_css() {
    let html = "<html><head></head><body>content</body></html>";
    let result = inject_font_css(html);
    assert!(result.contains("Noto Sans SC"));
    assert!(result.contains("Microsoft YaHei"));
}

#[test]
fn test_chapter_path_to_id_with_special_chars() {
    assert_eq!(chapter_path_to_id("01-Introduction.md"), "01-introduction");
}

#[test]
fn test_insert_before_found() {
    let result = insert_before("hello world", "world", "beautiful ");
    assert_eq!(result, "hello beautiful world");
}

#[test]
fn test_insert_before_not_found() {
    let result = insert_before("hello", "xyz", "extra");
    assert_eq!(result, "helloextra");
}

    #[test]
    fn test_replace_pdf_containers_basic() {
        let html = r#"<p>some text</p>
<div class="pdfviewer-container" data-pdf-src="./test.pdf">
<div class="ppv-placeholder">
<div class="ppv-icon">📄</div>
<div class="ppv-filename">test.pdf</div>
<div class="ppv-hint">点击加载 PDF 预览</div>
</div>
</div>
<p>more text</p>"#;
        let result = replace_pdf_containers(html);
        assert!(result.contains(r#"<a href="./test.pdf">"#));
        assert!(result.contains("📄"));
        assert!(result.contains("test.pdf"));
        assert!(!result.contains("pdfviewer-container"));
        assert!(!result.contains("ppv-placeholder"));
    }

#[test]
fn test_replace_pdf_containers_no_container() {
    let html = r#"<p>no pdf container here</p>"#;
    let result = replace_pdf_containers(html);
    assert_eq!(result, html);
}

    #[test]
    fn test_replace_pdf_containers_multiple() {
        let html = r#"
<div class="pdfviewer-container" data-pdf-src="./doc1.pdf">
<div class="ppv-placeholder">
<div class="ppv-icon">📄</div>
<div class="ppv-filename">doc1.pdf</div>
<div class="ppv-hint">点击加载 PDF 预览</div>
</div>
</div>
<p>separator</p>
<div class="pdfviewer-container" data-pdf-src="./doc2.pdf">
<div class="ppv-placeholder">
<div class="ppv-icon">📄</div>
<div class="ppv-filename">doc2.pdf</div>
<div class="ppv-hint">点击加载 PDF 预览</div>
</div>
</div>"#;
        let result = replace_pdf_containers(html);
        assert!(result.contains(r#"<a href="./doc1.pdf">"#));
        assert!(result.contains(r#"<a href="./doc2.pdf">"#));
        assert!(!result.contains("pdfviewer-container"));
    }

#[test]
fn test_extract_svg_element() {
    let svg = "<!-- Source: test.md -->\n<svg viewBox=\"0 0 1 1\"><path/></svg>\n";
    let out = extract_svg_element(svg).unwrap();
    assert!(out.starts_with("<svg") && out.ends_with("</svg>"), "提取失败: {}", out);
    assert!(!out.contains("Source"), "注释未剥离: {}", out);
    assert_eq!(extract_svg_element("no svg"), None);
}

#[test]
fn test_inject_svg_width_style() {
    let svg = r#"<svg viewBox="0 0 1 1" xmlns="http://www.w3.org/2000/svg"><path/></svg>"#;
    let out = inject_svg_width_style(svg);
    assert!(out.contains("width:100%;height:auto;max-width:100%"), "宽度样式未注入: {}", out);
    let svg2 = r#"<svg viewBox="0 0 1 1" style="color:red"><path/></svg>"#;
    let out2 = inject_svg_width_style(svg2);
    assert!(out2.contains("color:red"), "原 style 被破坏: {}", out2);
    assert!(out2.contains("width:100%"), "宽度样式未注入: {}", out2);
}

    #[test]
    fn test_remove_external_resources_css() {
        // katex CSS 必须保留（公式样式依赖），font-awesome 删除，其他外部 CSS 转 media="print"
        let html = r#"<link rel="stylesheet" href="https://cdn.jsdelivr.net/npm/katex@0.17.0/dist/katex.min.css">
<link rel="stylesheet" href="https://cdnjs.cloudflare.com/ajax/libs/font-awesome/4.7.0/css/font-awesome.min.css">
<link rel="stylesheet" href="https://example.com/other.css">
<script async src="https://example.com/lib.js"></script>
<link rel="stylesheet" href="local.css">"#;
        let out = remove_external_resources(html);
        // katex link 原样保留（不转 media="print"）
        assert!(out.contains(r#"<link rel="stylesheet" href="https://cdn.jsdelivr.net/npm/katex@0.17.0/dist/katex.min.css">"#), "katex CSS 被改动: {}", out);
        assert!(!out.contains("font-awesome.min.css"), "font-awesome 未删除: {}", out);
        assert!(out.contains(r#"<link media="print" rel="stylesheet" href="https://example.com/other.css">"#), "其他外部 CSS 未转 media=print: {}", out);
        assert!(out.contains("CDN removed for PDF"), "外部 script 未删除: {}", out);
        assert!(out.contains("href=\"local.css\""), "本地 CSS 被误删: {}", out);
    }

#[test]
fn test_rewrite_svg_ids_prefix() {
    let svg = r##"<defs><path id="g0"/><clipPath id="c1"/></defs><use xlink:href="#g0"/><path clip-path="url(#c1)"/>"##;
    let out = rewrite_svg_ids(svg, "abc");
    assert!(out.contains(r##"id="abcg0""##), "defs id: {}", out);
    assert!(out.contains(r##"id="abcc1""##), "clipPath id: {}", out);
    assert!(out.contains(r##"xlink:href="#abcg0""##), "use ref: {}", out);
    assert!(out.contains(r##"clip-path="url(#abcc1)""##), "clip-path ref: {}", out);
    assert!(!out.contains(r##"#g0"##) && !out.contains(r##"#c1"##), "old refs left: {}", out);
}

#[test]
fn test_rewrite_svg_ids_leaves_other_ids() {
    let svg = r##"<g id="main"/><use href="#main"/>"##;
    assert_eq!(rewrite_svg_ids(svg, "p"), svg);
}

#[test]
fn test_remove_cdn_module_scripts() {
    let html = "<p>a</p><script type=\"module\">import x from \"https://cdn.example.com/x.js\";\nrun();</script><p>b</p>";
    let out = remove_cdn_module_scripts(html);
    assert_eq!(out, "<p>a</p><script>/* CDN module removed for PDF */</script><p>b</p>");
}

#[test]
fn test_remove_cdn_keeps_local_module() {
    let html = "<script type=\"module\">import x from \"./x.js\";</script><script>var a = 1;</script>";
    assert_eq!(remove_cdn_module_scripts(html), html);
}

#[test]
fn test_fix_links_with_base_url() {
    let html = r#"<a href="../images/foo.png">img</a>"#;
    let result = fix_links(html, "https://example.com/book");
    assert!(result.contains(r#"href="https://example.com/book/../images/foo.png""#));
}

#[test]
fn test_fix_links_anchor_skipped() {
    let html = r##"<a href="#section">link</a>"##;
    let result = fix_links(html, "https://example.com/book");
    assert_eq!(result, html);
}

#[test]
fn test_fix_links_empty_base() {
    let html = r#"<a href="../page.html">link</a>"#;
    let result = fix_links(html, "");
    assert_eq!(result, html);
}

#[test]
fn test_fix_links_trailing_slash_and_backslash() {
    let html = r#"<p><a href="../img\a.png">a</a> <a href="https://x.org/y">b</a></p>"#;
    let result = fix_links(html, "https://example.com/book//");
    assert_eq!(
        result,
        r#"<p><a href="https://example.com/book/../img/a.png">a</a> <a href="https://x.org/y">b</a></p>"#
    );
}

#[test]
fn test_replace_emoji_with_text() {
    let html = "<p>点击 📄 查看</p>";
    let result = replace_emoji_with_text(html);
    assert!(result.contains("noto-emoji@main/svg/emoji_u"));
    assert!(result.contains("1f4c4.svg"));
    assert!(result.contains("<img"));
    assert!(!result.contains("📄"));
}

#[test]
fn test_replace_emoji_with_text_no_emoji() {
    let html = "<p>纯文本内容 123</p>";
    let result = replace_emoji_with_text(html);
    assert_eq!(result, html);
}

#[test]
fn test_replace_emoji_with_text_multiple() {
    let html = "📄🚀😊";
    let result = replace_emoji_with_text(html);
    assert!(result.contains("1f4c4"));
    assert!(result.contains("1f680"));
    assert!(result.contains("1f60a"));
    assert!(!result.contains("📄"));
    assert!(!result.contains("🚀"));
}

#[test]
fn test_replace_country_flag_emoji_with_text() {
    let html = "<p>🇨🇳</p>";
    let result = replace_emoji_with_text(html);
    assert!(result.contains("region-flags/svg/CN.svg"));
    assert!(result.contains("<img"));
}

#[test]
fn test_replace_non_country_flag_emoji() {
    let html = "<p>🏁</p>";
    let result = replace_emoji_with_text(html);
    assert!(result.contains("svg/emoji_u1f3c1.svg"));
    assert!(result.contains("<img"));
}

#[test]
fn test_replace_emoji_longest_and_vs16() {
    let list = vec!["a".to_string(), "ab".to_string(), "\u{2764}\u{fe0f}".to_string()];
    let out = replace_emoji_with("xab\u{2764}\u{fe0f}a", &list);
    let img = |code: &str| {
        format!(
            "<img src=\"https://cdn.jsdelivr.net/gh/googlefonts/noto-emoji@main/svg/emoji_u{}.svg\" alt=\"emoji\" class=\"noto-emoji\" style=\"height:1em;vertical-align:middle;\">",
            code
        )
    };
    assert_eq!(out, format!("x{}{}{}", img("61_62"), img("2764"), img("61")));
}

#[test]
fn test_svg_image_names() {
    let html = r#"<p><img src="../images/ab12.svg" alt="x"></p><img src="pic.png"><img class="c" src="./images/cd.svg">"#;
    assert_eq!(svg_image_names(html), vec!["ab12.svg".to_string(), "cd.svg".to_string()]);
}

#[test]
fn test_inline_svg_images() {
    let html = r#"<p><img src="../images/ab.svg" alt="x"></p><img src="./images/missing.svg">"#;
    let files = vec![
        Some("<?xml version=\"1.0\"?>\n<!-- Source: a.md -->\n<svg viewBox=\"0 0 1 1\"><path id=\"g0\"/><use href=\"#g0\"/></svg>\n".to_string()),
        None,
    ];
    let out = inline_svg_images(html, &files);
    assert_eq!(
        out,
        r##"<p><div style="text-align:center;margin:8px 0;"><svg viewBox="0 0 1 1" style="width:100%;height:auto;max-width:100%"><path id="abg0"/><use href="#abg0"/></svg></div></p><img src="./images/missing.svg">"##
    );
}

#[test]
fn test_inline_svg_images_file_without_svg_kept() {
    let html = r#"<img src="/images/x.svg">"#;
    let out = inline_svg_images(html, &vec![Some("not an svg".to_string())]);
    assert_eq!(out, html);
}

#[test]
fn test_svg_bounds_cross() {
    assert!(svg_bounds_cross("</svg> junk <svg"));
    assert!(!svg_bounds_cross("<svg></svg>"));
    assert!(!svg_bounds_cross("none"));
}

#[test]
fn test_preprocess_head_composes_steps() {
    let html = r#"<html><head></head><body><a href="../x.html">x</a></body></html>"#;
    let paths = vec!["intro.md".to_string()];
    let out = preprocess_head(html, &paths, "https://ex.org/book/");
    let expected = inject_font_css(&inject_print_css(&inject_toc_fix(
        &fix_links(html, "https://ex.org/book/"),
        &paths,
    )));
    assert_eq!(out, expected);
    assert!(out.contains(r#"href="https://ex.org/book/../x.html""#));
    let plain = preprocess_head(html, &paths, "");
    assert!(plain.contains(r#"href="../x.html""#));
}

#[test]
fn test_emoji_font_file_picks_first_in_name_order() {
    let names = vec![
        "z-emoji.woff2".to_string(),
        "a.woff2".to_string(),
        "b-emoji.woff2".to_string(),
        "c-emoji.ttf".to_string(),
    ];
    assert_eq!(emoji_font_file(&names), Some("b-emoji.woff2".to_string()));
    assert_eq!(emoji_font_file(&vec!["a.woff2".to_string()]), None);
}

#[test]
fn test_preprocess_tail_emoji_font() {
    let html = "<html><head><title>t</title></head><body><p>x</p></body></html>";
    let out = preprocess_tail(html, None, false, Some("e-emoji.woff2"));
    assert!(out.contains("src: url('../../theme/fonts/e-emoji.woff2') format('woff2'); }"));
    let head_end = out.rfind("</head>").unwrap();
    let style_at = out.find("<style>@font-face").unwrap();
    assert!(style_at < head_end);
    let without = preprocess_tail(html, None, false, None);
    assert!(!without.contains("Emoji PDF"));
    assert_eq!(without, inject_js(html, false));
}

#[test]
fn test_fix_relative_link() {
    let html = r#"<a href="page.html">link</a>"#;
    let result = fix_links(html, "https://example.com/book");
    assert!(result.contains(r#"href="https://example.com/book/page.html""#));
}

#[test]
fn fix_links_leaves_mailto_and_schemes() {
    let html = r#"<a href="mailto:a@b.c">m</a><a href="ftp://h/x">f</a>"#;
    assert_eq!(fix_links(html, "https://example.com/book"), html);
}

#[test]
fn pdf_container_replaced_whole() {
    let html = [
        "<p>some text</p>",
        r#"<div class="pdfviewer-container" data-pdf-src="./test.pdf">"#,
        r#"<div class="ppv-placeholder">"#,
        r#"<div class="ppv-icon">📄</div>"#,
        r#"<div class="ppv-filename">test.pdf</div>"#,
        r#"<div class="ppv-hint">点击加载 PDF 预览</div>"#,
        "</div>",
        "</div>",
        "<p>more text</p>",
    ]
    .join("\n");
    let expected = ["<p>some text</p>", r#"<a href="./test.pdf">📄 test.pdf</a>"#, "<p>more text</p>"].join("\n");
    assert_eq!(replace_pdf_containers(&html), expected);
}

#[test]
fn pdf_container_on_one_line_replaced() {
    let html = r#"a<div class="pdfviewer-container" data-pdf-src="x.pdf"><div class="ppv-placeholder"><div class="ppv-icon">📄</div><div class="ppv-filename">x.pdf</div><div class="ppv-hint">h</div></div></div>b"#;
    assert_eq!(replace_pdf_containers(html), r#"a<a href="x.pdf">📄 x.pdf</a>b"#);
}

#[test]
fn unclosed_pdf_container_kept() {
    let html = r#"<div class="pdfviewer-container" data-pdf-src="x.pdf"><div class="ppv-filename">x.pdf</div>"#;
    assert_eq!(replace_pdf_containers(html), html);
}

#[test]
fn svg_width_merged_into_existing_style() {
    let out = inject_svg_width_style(r#"<svg viewBox="0 0 1 1" style="color:red"><path/></svg>"#);
    assert_eq!(out, r#"<svg viewBox="0 0 1 1" style="color:red;width:100%;height:auto;max-width:100%"><path/></svg>"#);
    assert!(out.ends_with("><path/></svg>"));
}

#[test]
fn svg_width_added_as_style_attribute() {
    assert_eq!(
        inject_svg_width_style(r#"<svg a="1"/>"#),
        r#"<svg a="1" style="width:100%;height:auto;max-width:100%"/>"#
    );
    assert_eq!(inject_svg_width_style("no svg"), "no svg");
}

#[test]
fn first_listed_face_becomes_an_image() {
    let out = replace_emoji_with_text("<p>😀</p>");
    assert_ne!(out, "<p>😀</p>");
    assert!(out.contains("emoji_u1f600.svg"));
}
