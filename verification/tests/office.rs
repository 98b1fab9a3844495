use mdbook_plugins::book::{collect_chapters, BookItem, Chapter};
use mdbook_plugins::renderers::office::{clean_text, combine_md, get_formats, run, OfficeOutput};

fn chapter(name: &str, content: &str, subs: Vec<BookItem>) -> BookItem {
    BookItem::Chapter(Chapter {
        name: name.to_string(),
        content: content.to_string(),
        path: None,
        sub_items: subs,
    })
}

#[test]
fn clean_text_strips_tags_and_blocks() {
    let html = "<h1>Title</h1><p>a &amp; b</p><script>var x = 1;</script><p>c</p>";
    assert_eq!(clean_text(html), "Title\n\na & b\n\nc");
}

#[test]
fn clean_text_collapses_newlines() {
    assert_eq!(clean_text("a\n\n\n\nb\r\n"), "a\n\nb");
    assert_eq!(clean_text("&lt;x&gt; &quot;y&quot; &#39;z&#39;&nbsp;!"), "<x> \"y\" 'z' !");
}

#[test]
fn combine_md_headings() {
    let ch = vec![
        ("A".to_string(), "".to_string()),
        ("B".to_string(), "text".to_string()),
        ("C".to_string(), "# Own\nbody".to_string()),
    ];
    assert_eq!(combine_md(&ch), "# A\n\n\n\n# B\n\ntext\n\n# Own\nbody\n\n");
}

#[test]
fn chapters_in_book_order() {
    let book = vec![
        chapter("One", "1", vec![chapter("One.a", "1a", vec![]), BookItem::PartTitle("x".into())]),
        BookItem::Separator,
        BookItem::PartTitle("Part".to_string()),
        chapter("Two", "2", vec![]),
    ];
    let ch = collect_chapters(&book);
    let names: Vec<&str> = ch.iter().map(|c| c.0.as_str()).collect();
    assert_eq!(names, vec!["One", "One.a", "Part", "Two"]);
    assert_eq!(ch[2].1, "# Part\n");
}

#[test]
fn formats_default_and_filtered() {
    assert_eq!(get_formats(None), vec!["docx", "xlsx", "pptx"]);
    assert_eq!(get_formats(Some(vec![Some("pptx".to_string()), None])), vec!["pptx"]);
}

#[test]
fn run_plans_outputs() {
    let book = vec![chapter("One", "<p>hi</p>", vec![])];
    let formats = vec!["docx".to_string(), "odt".to_string()];
    let job = run(&formats, &book).unwrap();
    assert_eq!(job.markdown, "# One\n\nhi\n\n");
    assert!(matches!(job.outputs[0], OfficeOutput::Docx));
    assert!(matches!(&job.outputs[1], OfficeOutput::Unsupported(f) if f == "odt"));
    assert!(run(&vec![], &book).is_none());
    assert!(run(&formats, &vec![]).is_none());
}
