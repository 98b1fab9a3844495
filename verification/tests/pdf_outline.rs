use mdbook_plugins::renderers::pdf_outline::{
    build_xmp, extract_bookmark_entries, find_heading_by_id, hex_val, pdf_string, percent_decode_to_lossy,
    tag_to_level, PdfString,
};

#[test]
fn test_percent_decode_ascii() {
    assert_eq!(percent_decode_to_lossy(b"hello"), "hello");
}

#[test]
fn test_percent_decode_chinese() {
    // "引言" 的 UTF-8 编码: E5 BC 95 E8 A8 80
    assert_eq!(
        percent_decode_to_lossy(b"%E5%BC%95%E8%A8%80"),
        "引言"
    );
}

#[test]
fn test_percent_decode_space() {
    assert_eq!(percent_decode_to_lossy(b"a%20b"), "a b");
}

#[test]
fn test_tag_to_level() {
    assert_eq!(tag_to_level("h1"), 1);
    assert_eq!(tag_to_level("h6"), 6);
    assert_eq!(tag_to_level("div"), 0);
    assert_eq!(tag_to_level("H2"), 2); // 大小写不敏感
}

#[test]
fn percent_decode_keeps_incomplete_escapes() {
    assert_eq!(percent_decode_to_lossy(b"a%2"), "a%2");
    assert_eq!(percent_decode_to_lossy(b"%zz%41"), "%zzA");
    assert_eq!(percent_decode_to_lossy(b"%4a%4A"), "JJ");
}

#[test]
fn percent_decode_invalid_utf8_is_replaced() {
    assert_eq!(percent_decode_to_lossy(b"%FFok"), "\u{FFFD}ok");
}

#[test]
fn hex_val_digits() {
    assert_eq!(hex_val(b'0'), Some(0));
    assert_eq!(hex_val(b'9'), Some(9));
    assert_eq!(hex_val(b'a'), Some(10));
    assert_eq!(hex_val(b'F'), Some(15));
    assert_eq!(hex_val(b'g'), None);
}

#[test]
fn xmp_packet_with_title_and_author() {
    let x = build_xmp(Some("A & <B>"), Some("Me"));
    assert!(x.starts_with("<?xpacket begin=\"\\u{FEFF}\" id=\"W5M0MpCehiHzreSzNTczkc9d\"?>\n"));
    assert!(x.contains("\n<dc:title><rdf:Alt><rdf:li xml:lang=\"x-default\">A &amp; &lt;B&gt;</rdf:li></rdf:Alt></dc:title>\n"));
    assert!(x.contains("\n<dc:creator><rdf:Seq><rdf:li>Me</rdf:li></rdf:Seq></dc:creator>\n"));
    assert!(x.ends_with("</rdf:Description>\n</rdf:RDF>\n</x:xmpmeta>\n<?xpacket end=\"w\"?>"));
}

#[test]
fn xmp_packet_without_metadata() {
    let x = build_xmp(None, None);
    assert!(!x.contains("dc:title"));
    assert!(!x.contains("dc:creator"));
    assert!(x.contains("xmlns:dc=\"http://purl.org/dc/elements/1.1/\">\n</rdf:Description>"));
}

#[test]
fn test_extract_bookmarks_by_header_anchors() {
    let html = r##"<html><body>
<h1 id="intro"><a class="header" href="#intro">Intro</a></h1>
<h2 id="setup"><a class="header" href="#setup">  Setup  </a></h2>
<h2 id="intro-again"><a class="header" href="#intro">Again</a></h2>
<a class="header" href="#missing">x</a>
</body></html>"##;
    let es = extract_bookmark_entries(html);
    let got: Vec<(u32, String, String)> =
        es.iter().map(|e| (e.level, e.title.clone(), e.dest_name.clone())).collect();
    assert_eq!(
        got,
        vec![
            (1, "Intro".to_string(), "intro".to_string()),
            (2, "Setup".to_string(), "setup".to_string()),
        ]
    );
}

#[test]
fn test_extract_bookmarks_fallback_to_headings() {
    let html = r#"<h1 id="a">A</h1><p id="p">para</p><h3 id="b">B <em>x</em></h3><h2 id="a">dup</h2><h2 id="e"> </h2><h4>no id</h4>"#;
    let es = extract_bookmark_entries(html);
    let got: Vec<(u32, String, String)> =
        es.iter().map(|e| (e.level, e.title.clone(), e.dest_name.clone())).collect();
    assert_eq!(
        got,
        vec![(1, "A".to_string(), "a".to_string()), (3, "B x".to_string(), "b".to_string())]
    );
}

#[test]
fn test_extract_bookmarks_none() {
    assert!(extract_bookmark_entries("<p>text</p>").is_empty());
}

#[test]
fn test_find_heading_by_id_quotes() {
    let html = r#"<h2 id="say &quot;hi&quot;">Hello</h2><p id="x">p</p>"#;
    let e = find_heading_by_id(html, "say \"hi\"").unwrap();
    assert_eq!((e.level, e.title.as_str(), e.dest_name.as_str()), (2, "Hello", "say \"hi\""));
    assert!(find_heading_by_id(html, "x").is_none());
    assert!(find_heading_by_id(html, "nope").is_none());
}

fn make_html(body: &str) -> String {
    format!("<html><head><title>T</title></head><body>{}</body></html>", body)
}

#[test]
fn test_extract_with_header_class() {
    let html = make_html(
        r##"<a class="header" href="#intro"></a><h1 id="intro">Introduction</h1>
           <a class="header" href="#setup"></a><h2 id="setup">Setup</h2>"##,
    );
    let es = extract_bookmark_entries(&html);
    assert_eq!(es.len(), 2);
    assert_eq!(es[0].level, 1);
    assert_eq!(es[0].title, "Introduction");
    assert_eq!(es[1].level, 2);
}

#[test]
fn test_extract_fallback_direct_scan() {
    let html = make_html(
        r#"<h1 id="ch1">第一章</h1>
           <h2 id="ch1-s1">第一节</h2>
           <h1 id="ch2">Chapter 2</h1>"#,
    );
    let es = extract_bookmark_entries(&html);
    assert_eq!(es.len(), 3);
    assert_eq!(es[0].title, "第一章");
    assert_eq!(es[0].level, 1);
    assert_eq!(es[1].title, "第一节");
    assert_eq!(es[2].title, "Chapter 2");
}

#[test]
fn test_extract_chinese_titles() {
    let html = make_html(
        r##"<a class="header" href="#yin-yan"></a><h1 id="yin-yan">引言</h1>
           <a class="header" href="#an-zhuang"></a><h2 id="an-zhuang">安装指南</h2>"##,
    );
    let es = extract_bookmark_entries(&html);
    assert_eq!(es.len(), 2);
    assert_eq!(es[0].title, "引言");
    assert_eq!(es[1].title, "安装指南");
}

#[test]
fn test_extract_empty_html() {
    let es = extract_bookmark_entries("<html><body></body></html>");
    assert!(es.is_empty());
}

#[test]
fn test_pdf_string_ascii() {
    let obj = pdf_string("Hello World");
    assert!(matches!(obj, PdfString::Literal(ref t) if t == "Hello World"));
}

#[test]
fn test_pdf_string_chinese() {
    let obj = pdf_string("你好世界");
    match &obj {
        PdfString::Hexadecimal(bytes) => {
            assert_eq!(bytes[0], 0xFE);
            assert_eq!(bytes[1], 0xFF);
            assert_eq!(bytes[2], 0x4F);
            assert_eq!(bytes[3], 0x60);
        }
        _ => panic!("Expected hexadecimal string for Chinese text"),
    }
}

#[test]
fn test_pdf_string_mixed() {
    let obj = pdf_string("Chapter 1: 引言");
    assert!(matches!(obj, PdfString::Hexadecimal(_)));
}

#[test]
fn test_pdf_string_surrogate_pair() {
    match pdf_string("a😀") {
        PdfString::Hexadecimal(b) => assert_eq!(b, vec![0xFE, 0xFF, 0x00, 0x61, 0xD8, 0x3D, 0xDE, 0x00]),
        _ => panic!("expected hexadecimal"),
    }
}

use mdbook_plugins::renderers::pdf_outline::{outline_links, outline_root, OutlineLinks, OutlineRoot};

fn links(parent: Option<usize>, first: Option<usize>, last: Option<usize>, prev: Option<usize>, next: Option<usize>, count: usize) -> OutlineLinks {
    OutlineLinks { parent, first, last, prev, next, count }
}

#[test]
fn outline_of_nested_headings() {
    let levels = vec![1, 2, 3, 2, 1];
    let l = outline_links(&levels);
    assert_eq!(l[0], links(None, Some(1), Some(3), None, Some(4), 3));
    assert_eq!(l[1], links(Some(0), Some(2), Some(2), None, Some(3), 1));
    assert_eq!(l[2], links(Some(1), None, None, None, None, 0));
    assert_eq!(l[3], links(Some(0), None, None, Some(1), None, 0));
    assert_eq!(l[4], links(None, None, None, Some(0), None, 0));
    assert_eq!(outline_root(&levels), Some(OutlineRoot { first: 0, last: 4, count: 5 }));
}

#[test]
fn outline_of_uneven_levels() {
    // A level-3 heading right under a level-1 one is its child; a later
    // level-2 heading is its sibling.
    let levels = vec![2, 1, 3, 2];
    let l = outline_links(&levels);
    assert_eq!(l[0], links(None, None, None, None, Some(1), 0));
    assert_eq!(l[1], links(None, Some(2), Some(3), Some(0), None, 2));
    assert_eq!(l[2], links(Some(1), None, None, None, Some(3), 0));
    assert_eq!(l[3], links(Some(1), None, None, Some(2), None, 0));
    assert_eq!(outline_root(&levels), Some(OutlineRoot { first: 0, last: 1, count: 4 }));
}

#[test]
fn outline_of_nothing() {
    assert!(outline_links(&vec![]).is_empty());
    assert_eq!(outline_root(&vec![]), None);
}

#[test]
fn outline_of_equal_levels_is_flat() {
    let levels = vec![2, 2, 2];
    let l = outline_links(&levels);
    assert_eq!(l[1], links(None, None, None, Some(0), Some(2), 0));
    assert_eq!(outline_root(&levels), Some(OutlineRoot { first: 0, last: 2, count: 3 }));
}

use mdbook_plugins::renderers::pdf_outline::{outline_items, BEntry as Bookmark, OutlineDest};

fn bookmark(level: u32, title: &str, dest: &str) -> Bookmark {
    Bookmark { level, title: title.to_string(), dest_name: dest.to_string() }
}

#[test]
fn outline_items_point_at_pages_or_names() {
    let entries = vec![bookmark(1, "Intro", "intro"), bookmark(2, "引言", "sec")];
    let dests = vec![("intro".to_string(), 7, 0), ("intro".to_string(), 9, 0), ("other".to_string(), 3, 0)];
    let items = outline_items(&entries, &dests);
    assert_eq!(items.len(), 2);
    assert!(matches!(&items[0].title, PdfString::Literal(t) if t == "Intro"));
    assert!(matches!(items[0].dest, OutlineDest::Page(9, 0)));
    assert!(matches!(&items[1].dest, OutlineDest::Named(PdfString::Literal(n)) if n == "sec"));
    assert!(matches!(&items[1].title, PdfString::Hexadecimal(b) if b[..2] == [0xFE, 0xFF]));
    assert_eq!(items[0].links, links(None, Some(1), Some(1), None, None, 1));
    assert_eq!(items[1].links, links(Some(0), None, None, None, None, 0));
}
