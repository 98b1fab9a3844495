use mdbook_plugins::preprocessors::toc::{generate_toc, process_chapter};

#[test]
fn toc_is_inserted_after_the_marker_and_the_text_kept() {
    let r = process_chapter("<!-- toc -->\n# A\ntext\n");
    assert!(r.starts_with("<!-- toc -->\n* [A](#a)\n"), "{}", r);
    assert!(r.ends_with("# A\ntext\n"), "{}", r);
    assert_eq!(r, "<!-- toc -->\n* [A](#a)\n\n# A\ntext\n");
}

#[test]
fn no_marker_no_change() {
    assert_eq!(process_chapter("# A\ntext\n"), "# A\ntext\n");
}

#[test]
fn toc_indents_by_level() {
    assert_eq!(generate_toc("# A\n## B\n##### E\n"), "* [A](#a)\n  * [B](#b)\n");
}
