use mdbook_plugins::preprocessors::svgbob::{process_chapter, run, SvgbobPreprocessor};

#[test]
fn test_svgbob_block_becomes_svg() {
    let out = process_chapter("```bob\n+--+\n|  |\n+--+\n```\n");
    assert!(out.starts_with("<svg"), "{}", out);
    assert!(out.ends_with("</svg>\n"), "{}", out);
    assert!(!out.contains("```"));
}

#[test]
fn test_svgbob_other_code_block_kept() {
    let out = process_chapter("```rust\nfn main() {}\n```\n");
    assert_eq!(out, "```rust\nfn main() {}\n```\n\n");
}

#[test]
fn test_svgbob_info_trimmed() {
    let out = process_chapter("``` bob \n-->\n```\n");
    assert!(out.starts_with("<svg"), "{}", out);
}

#[test]
fn test_svgbob_text_code_and_breaks() {
    let out = process_chapter("a `b` c\nd  \ne");
    assert_eq!(out, "a `b` c\nd  \ne");
}

#[test]
fn test_svgbob_run_and_names() {
    let chapters = vec!["x".to_string(), "```\ny\n```".to_string()];
    let r = run(&chapters);
    assert_eq!(r, vec!["x".to_string(), "```\ny\n```\n\n".to_string()]);
    let p = SvgbobPreprocessor;
    assert_eq!(p.name(), "mdbook-svgbob");
    assert!(p.supports_renderer("html"));
    assert!(!p.supports_renderer("not-supported"));
}
