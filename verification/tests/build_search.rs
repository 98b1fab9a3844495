use mdbook_plugins::build_search::{
    build_index, cjk_bigram_from_buf, cjk_bigram_tokenize, entry_url, extract_body, extract_text,
    extract_title, is_cjk, is_indexed_page, search_index_js, strip_old_search,
};

#[test]
fn cjk_ranges() {
    assert!(is_cjk('中'));
    assert!(is_cjk('\u{3400}'));
    assert!(is_cjk('\u{F900}'));
    assert!(!is_cjk('a'));
    assert!(!is_cjk('。'));
}

#[test]
fn unigrams_then_bigrams() {
    assert_eq!(cjk_bigram_from_buf(&['中', '文', '搜']), vec!["中", "文", "搜", "中文", "文搜"]);
    assert_eq!(cjk_bigram_from_buf(&['字']), vec!["字"]);
    assert!(cjk_bigram_from_buf(&[]).is_empty());
}

#[test]
fn tokens_sorted_and_distinct() {
    let t = cjk_bigram_tokenize("Hello 世界 hello 世界");
    assert_eq!(t, vec!["Hello", "hello", "世", "世界", "界"]);
}

#[test]
fn tokens_split_on_punctuation() {
    let t = cjk_bigram_tokenize("abc,def 中文abc");
    assert_eq!(t, vec!["abc", "def", "中", "中文", "文"]);
}

#[test]
fn title_of_page() {
    assert_eq!(extract_title("<html><head><TITLE> My Book </TITLE></head></html>"), "My Book");
    assert_eq!(extract_title("<html></html>"), "");
}

#[test]
fn body_of_page() {
    assert_eq!(extract_body(r#"<div id="mdbook-content"><p>Hi</p></div>"#), "<p>Hi</p>");
    assert_eq!(extract_body(r#"<main class="x">M</main>"#), "M");
    assert_eq!(extract_body("<p>none</p>"), "");
}

#[test]
fn text_of_fragment() {
    assert_eq!(extract_text("<p>a &amp; b</p><script>x</script>  c"), "a & b c");
    assert_eq!(extract_text("<style>p{}</style><svg><path/></svg>&lt;ok&gt;"), "<ok>");
}

#[test]
fn index_of_two_pages() {
    let pages = vec![
        ("a.html".to_string(), "<title>T</title><main>中文</main>".to_string()),
        ("b.html".to_string(), "<title>U</title><main>文</main>".to_string()),
    ];
    let idx = build_index(&pages);
    assert_eq!(idx.documents.len(), 2);
    assert_eq!(idx.documents[0].id, 0);
    assert_eq!(idx.documents[1].url, "b.html");
    assert_eq!(idx.documents[0].title, "T");
    assert_eq!(idx.documents[0].body, "中文");
    let find = |t: &str| {
        let i = idx.tokens.iter().position(|x| x == t).expect(t);
        idx.postings[i].clone()
    };
    assert_eq!(find("文"), vec![0, 1]);
    assert_eq!(find("中文"), vec![0]);
    assert_eq!(find("t"), vec![0]);
    assert_eq!(find("u"), vec![1]);
    assert_eq!(idx.tokens.len(), idx.postings.len());
}

#[test]
fn pages_and_urls() {
    assert!(is_indexed_page("intro.html"));
    assert!(!is_indexed_page("print.html"));
    assert!(!is_indexed_page("404.html"));
    assert!(!is_indexed_page("style.css"));
    assert_eq!(entry_url("", "a.html"), "a.html");
    assert_eq!(entry_url("guide", "a.html"), "guide/a.html");
}

#[test]
fn old_search_scripts_removed() {
    let html = r#"<head><script src="elasticlunr.min.js"></script><script src="x.js"></script></head>"#;
    assert_eq!(strip_old_search(html).unwrap(), r#"<head><script src="x.js"></script></head>"#);
    assert_eq!(strip_old_search("<p>none</p>"), None);
    assert_eq!(search_index_js("{}"), "window.searchData = {};");
}

#[test]
fn tokens_are_runs_unigrams_and_bigrams() {
    assert_eq!(
        cjk_bigram_tokenize("中文搜索 abc"),
        vec!["abc", "中", "中文", "搜", "搜索", "文", "文搜", "索"]
    );
}
