use mdbook_plugins::preprocessors::{admonish, emojicodes, image_viewer, kroki, langtabs, mermaid};

const TEXT: &str = "# Title\n\n```mermaid\ngraph TD; A-->B\n```\n\n```admonish note\nbody\n```\n:smile: ![alt](img.png)\n";

#[test]
fn test_entries_match_chapter_functions() {
    assert_eq!(admonish::process_content(TEXT), admonish::process_chapter(TEXT));
    assert_eq!(mermaid::process_content(TEXT), mermaid::process_chapter(TEXT));
    assert_eq!(langtabs::process_content(TEXT), langtabs::process_chapter(TEXT));
    assert_eq!(emojicodes::process_content(TEXT), emojicodes::replace_emoji_shortcode(TEXT));
    assert!(emojicodes::process_content(":smile:").contains('😄'));
}

#[test]
fn test_image_viewer_entry_wraps_chapter() {
    let out = image_viewer::process_content("![a](b.png)", "<style/>", "<script/>");
    assert_eq!(
        out,
        "<style/>\n<img src=\"b.png\" alt=\"a\" class=\"miv_mdbook-image-viewer\" onclick=\"miv_openModal(this.src)\">\n<script/>"
    );
}

#[test]
fn test_kroki_entry_without_diagrams() {
    assert_eq!(kroki::process_content("no diagrams", &vec![]), "no diagrams");
}
