use mdbook_plugins::book::{all_chapters, extract_chapter_paths, BookItem, Chapter};

fn chapter(name: &str, path: Option<&str>, sub_items: Vec<BookItem>) -> BookItem {
    BookItem::Chapter(Chapter {
        name: name.to_string(),
        content: format!("# {}", name),
        path: path.map(|p| p.to_string()),
        sub_items,
    })
}

fn sample() -> Vec<BookItem> {
    vec![
        chapter("Intro", Some("intro.md"), vec![]),
        BookItem::PartTitle("Part".to_string()),
        chapter(
            "Guide",
            Some("guide/index.md"),
            vec![
                chapter("Setup", Some("guide/setup.md"), vec![]),
                chapter("Draft", None, vec![chapter("Deep", Some("guide/deep.md"), vec![])]),
            ],
        ),
        BookItem::Separator,
        chapter("End", Some("end.md"), vec![]),
    ]
}

#[test]
fn test_extract_chapter_paths_in_book_order() {
    assert_eq!(
        extract_chapter_paths(&sample()),
        vec!["intro.md", "guide/index.md", "guide/setup.md", "guide/deep.md", "end.md"]
    );
}

#[test]
fn test_all_chapters_in_book_order() {
    let names: Vec<String> = all_chapters(&sample()).into_iter().map(|(n, _)| n).collect();
    assert_eq!(names, vec!["Intro", "Guide", "Setup", "Draft", "Deep", "End"]);
}
