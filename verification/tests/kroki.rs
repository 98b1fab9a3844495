use base64::Engine;
use mdbook_plugins::preprocessors::kroki::{base64_encode, kroki_diagrams, kroki_url, process_chapter};
use std::io::Read;

fn decode(e: &str) -> String {
    let bytes = base64::engine::general_purpose::URL_SAFE_NO_PAD.decode(e).unwrap();
    let mut out = String::new();
    flate2::read::DeflateDecoder::new(bytes.as_slice()).read_to_string(&mut out).unwrap();
    out
}

#[test]
fn encoding_round_trips() {
    let e = base64_encode("A -> B: hello");
    assert_ne!(e, "A -> B: hello");
    assert!(e.chars().all(|c| c.is_ascii_alphanumeric() || c == '-' || c == '_'));
    assert_eq!(decode(&e), "A -> B: hello");
}

#[test]
fn url_shape() {
    let u = kroki_url("https://kroki.io", "plantuml", "A->B");
    assert!(u.starts_with("https://kroki.io/plantuml/svg/"));
    assert_eq!(decode(&u["https://kroki.io/plantuml/svg/".len()..]), "A->B");
}

#[test]
fn diagrams_and_answers() {
    let md = "x\n```kroki-mermaid\ngraph TD\n```\ny";
    assert_eq!(kroki_diagrams(md), vec![("mermaid".to_string(), "graph TD\n".to_string())]);
    assert_eq!(
        process_chapter(md, &vec![Some("<svg/>".to_string())]),
        "x\n<div class=\"kroki-wrapper kroki-mermaid\"><svg/></div>\ny"
    );
    assert_eq!(
        process_chapter(md, &vec![None]),
        "x\n<pre><code class=\"language-kroki-mermaid\">graph TD\n</code></pre>\ny"
    );
    assert_eq!(process_chapter("plain", &vec![]), "plain");
}
