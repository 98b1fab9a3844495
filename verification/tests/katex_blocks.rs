use mdbook_plugins::preprocessors::katex_blocks::{
    protect_code_blocks, protect_html_blocks, restore_blocks,
};

fn is_placeholder(k: &str) -> bool {
    let cs: Vec<char> = k.chars().collect();
    cs.len() == 38
        && cs[0] == '\u{1}'
        && cs[37] == '\u{1}'
        && k[1..5] == *"KPH_"
        && cs[5..37].iter().all(|c| c.is_ascii_digit() || ('a'..='f').contains(c))
}

#[test]
fn test_protect_code_block() {
    let content = "a $x$\n```rust\nlet y = $z$;\n```\n\nb $w$";
    let (t, mut m) = protect_code_blocks(content);
    assert_eq!(m.len(), 1);
    assert!(is_placeholder(&m[0].0));
    assert_eq!(m[0].1, "```rust\nlet y = $z$;\n```\n\n");
    assert_eq!(t, format!("a $x$\n{}b $w$", m[0].0));
    assert_eq!(restore_blocks(&t, &mut m), content);
    assert!(m.is_empty());
}

#[test]
fn test_protect_unclosed_code_block() {
    let content = "x\n```\ncode $a$";
    let (t, mut m) = protect_code_blocks(content);
    assert_eq!(m.len(), 1);
    assert_eq!(m[0].1, "```\ncode $a$");
    assert_eq!(t, format!("x\n{}", m[0].0));
    assert_eq!(restore_blocks(&t, &mut m), content);
    assert!(m.is_empty());
}

#[test]
fn test_closing_fence_must_start_a_line() {
    let content = "```\na ``` b\n```\nafter";
    let (t, mut m) = protect_code_blocks(content);
    assert_eq!(m.len(), 1);
    assert_eq!(m[0].1, "```\na ``` b\n```\n");
    assert_eq!(t, format!("{}after", m[0].0));
}

#[test]
fn test_two_code_blocks_distinct_placeholders() {
    let content = "```\n1\n```\nmid\n```\n2\n```";
    let (t, mut m) = protect_code_blocks(content);
    assert_eq!(m.len(), 2);
    assert_ne!(m[0].0, m[1].0);
    assert_eq!(t, format!("{}mid\n{}", m[0].0, m[1].0));
    assert_eq!(restore_blocks(&t, &mut m), content);
    assert!(m.is_empty());
}

#[test]
fn test_no_code_block() {
    let (t, m) = protect_code_blocks("plain $x$ text");
    assert!(m.is_empty());
    assert_eq!(t, "plain $x$ text");
}

#[test]
fn test_protect_script_and_style() {
    let content = "<p>$a$</p><SCRIPT>var s = '$b$';</script>\n<style>.x{}</Style>end";
    let (t, mut m) = protect_html_blocks(content);
    assert_eq!(m.len(), 2);
    assert_eq!(m[0].1, "<SCRIPT>var s = '$b$';</script>");
    assert_eq!(m[1].1, "<style>.x{}</Style>");
    assert_eq!(t, format!("<p>$a$</p>{}\n{}end", m[0].0, m[1].0));
    assert_eq!(restore_blocks(&t, &mut m), content);
    assert!(m.is_empty());
}

#[test]
fn test_unclosed_script_stops_protection() {
    let content = "<script>x <style>y</style>";
    let (t, mut m) = protect_html_blocks(content);
    assert!(m.is_empty());
    assert_eq!(t, content);
}

#[test]
fn test_restore_replaces_every_occurrence() {
    let mut m = vec![("K1".to_string(), "one".to_string()), ("K2".to_string(), "two".to_string())];
    assert_eq!(restore_blocks("K1-K2-K1", &mut m), "one-two-one");
    assert!(m.is_empty());
}

#[test]
fn placeholders_end_with_the_block_position() {
    let content = "ab\n```\n1\n```\n";
    let (_, m) = protect_code_blocks(content);
    assert_eq!(m.len(), 1);
    assert!(m[0].0.ends_with("0000000000000003\u{1}"));
}
