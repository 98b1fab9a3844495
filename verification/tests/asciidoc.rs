use mdbook_plugins::renderers::asciidoc::markdown_to_asciidoc;

#[test]
fn headings_paragraphs_and_code() {
    assert_eq!(markdown_to_asciidoc("## Title\n\nSome text.\n"), "== Title\nSome text.\n\n");
    assert_eq!(markdown_to_asciidoc("```rust\nfn x() {}\n```\n"), "[source,rust]\n----\nfn x() {}\n----\n\n");
}

#[test]
fn lists_links_and_inline_code() {
    assert_eq!(markdown_to_asciidoc("- a\n- b\n"), "* a\n* b\n\n");
    assert_eq!(markdown_to_asciidoc("[x](http://e.org) `c`\n"), "http://e.org[x] `c`\n\n");
}

#[test]
fn breaks() {
    assert_eq!(markdown_to_asciidoc("a\nb\n"), "a\nb\n\n");
    assert_eq!(markdown_to_asciidoc("a  \nb\n"), "a +\nb\n\n");
}
