use mdbook_plugins::preprocessors::embedify::{process_chapter, replace_codepen, replace_giscus, replace_youtube};

#[test]
fn youtube_tag() {
    assert_eq!(
        replace_youtube("a {% youtube 'abc_D-1' %} b"),
        "a <div class=\"embedify-wrapper embedify-youtube\">\n<iframe width=\"560\" height=\"315\" src=\"https://www.youtube.com/embed/abc_D-1\" \nframeborder=\"0\" allowfullscreen></iframe>\n</div> b"
    );
}

#[test]
fn codepen_default_tab() {
    let out = replace_codepen("{% codepen me pen1 %}");
    assert!(out.contains("src=\"https://codepen.io/me/embed/pen1?default-tab=result\""));
    let out = replace_codepen("{% codepen me pen1 default-tab=css %}");
    assert!(out.contains("?default-tab=css\""));
}

#[test]
fn giscus_tag() {
    let out = replace_giscus("{% giscus repo=o/r repo-id=R1 category=General %}");
    assert!(out.contains("data-repo=\"o/r\"\ndata-repo-id=\"R1\"\ndata-category=\"General\""));
    assert!(out.starts_with("<div class=\"embedify-wrapper embedify-giscus\">"));
}

#[test]
fn text_without_tags_unchanged() {
    let md = "# Title\n\nplain {% unknown %} text\n";
    assert_eq!(process_chapter(md), md);
}
