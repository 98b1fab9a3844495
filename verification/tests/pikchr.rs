use mdbook_plugins::preprocessors::pikchr::{find_closing_fence, find_line_end};

fn chars(s: &str) -> Vec<char> {
    s.chars().collect()
}

#[test]
fn closing_fence() {
    assert_eq!(find_closing_fence(&chars("ab```cd"), 0), 5);
    assert_eq!(find_closing_fence(&chars("```x```"), 1), 7);
    assert_eq!(find_closing_fence(&chars("abc"), 0), 0);
}

#[test]
fn line_end() {
    assert_eq!(find_line_end(&chars("ab\r\ncd"), 0), 3);
    assert_eq!(find_line_end(&chars("ab\ncd"), 0), 2);
    assert_eq!(find_line_end(&chars("abc"), 0), 2);
    assert_eq!(find_line_end(&chars("a\nb"), 2), 2);
}

use mdbook_plugins::preprocessors::pikchr::{
    pikchr_blocks, process_content, scan_gets_stuck, wrap_pikchr_output,
};

const CHAPTER: &str = "intro\n```pikchr center\nbox \"A\"\n```\n\nafter\n";

#[test]
fn pikchr_blocks_with_alignment() {
    let blocks = pikchr_blocks(CHAPTER);
    assert_eq!(blocks, vec![("box \"A\"".to_string(), "center".to_string())]);
}

#[test]
fn pikchr_block_replaced_by_drawing() {
    let out = process_content(CHAPTER, &vec![Some("<svg/>".to_string())]);
    assert_eq!(out, "intro\n<svg/>\n\nafter\n");
}

#[test]
fn pikchr_block_that_failed_is_shown_as_code() {
    let out = process_content(CHAPTER, &vec![None]);
    assert_eq!(out, "intro\n<pre><code class=\"language-pikchr\">box \"A\"</code></pre>\nafter\n");
}

#[test]
fn other_code_blocks_unchanged() {
    let text = "```rust\nx\n```\n";
    assert!(pikchr_blocks(text).is_empty());
    assert_eq!(process_content(text, &vec![]), text);
}

#[test]
fn unclosed_pikchr_block_keeps_rest() {
    let text = "```pikchr\nbox\n";
    assert_eq!(pikchr_blocks(text), vec![(String::new(), String::new())]);
    assert_eq!(
        process_content(text, &vec![None]),
        "<pre><code class=\"language-pikchr\"></code></pre>\n```pikchr\nbox\n"
    );
}

#[test]
fn fence_at_the_very_end_gets_stuck() {
    assert!(scan_gets_stuck("a\n```"));
    assert!(!scan_gets_stuck(CHAPTER));
    assert!(!scan_gets_stuck("```pikchr\nbox\n```"));
}

#[test]
fn pikchr_output_wrapped() {
    assert_eq!(
        wrap_pikchr_output("<svg>x</svg>"),
        Some("<div class=\"pikchr-wrapper\"><svg>x</svg></div>".to_string())
    );
    assert_eq!(wrap_pikchr_output("<pre>error</pre>"), None);
}
