use mdbook_plugins::book::{BookItem, Chapter};
use mdbook_plugins::renderers::linkcheck::{collect_links, head_status_ok, is_remote_link, link_live, retries_with_get};

fn chapter(content: &str, subs: Vec<BookItem>) -> BookItem {
    BookItem::Chapter(Chapter { name: "c".into(), content: content.into(), path: None, sub_items: subs })
}

#[test]
fn links_collected_once_sorted() {
    let book = vec![
        chapter("[a](https://b.org) [m](mailto:x@y) [s](#sec)", vec![chapter("[c](./local.md) [d](https://a.org)", vec![])]),
        BookItem::PartTitle("[not](https://part.org)".into()),
        chapter("[again](https://b.org)", vec![]),
    ];
    assert_eq!(collect_links(&book), vec!["./local.md", "https://a.org", "https://b.org"]);
}

#[test]
fn which_links_are_asked() {
    assert!(is_remote_link("http://x"));
    assert!(is_remote_link("https://x"));
    assert!(!is_remote_link("./a.md"));
    assert!(head_status_ok(200));
    assert!(head_status_ok(204));
    assert!(!head_status_ok(405));
    assert!(!head_status_ok(404));
    assert!(!head_status_ok(301));
}

#[test]
fn head_405_is_retried_with_get() {
    assert!(retries_with_get(405));
    assert!(!retries_with_get(404));
    assert!(link_live(200, None));
    assert!(link_live(405, Some(200)));
    assert!(!link_live(405, Some(404)));
    assert!(!link_live(405, None));
    assert!(!link_live(404, Some(200)));
}
