use mdbook_plugins::preprocessors::katex::{
    display_formulas, inline_formulas, katex_fallback, process_display_math, process_inline_math,
};

#[test]
fn display_formulas_found() {
    let md = "a $$x^2$$ b $$$$ c $$\"q\"\ny$$";
    assert_eq!(display_formulas(md), vec!["x^2", "\"q\"\ny"]);
    let out = process_display_math(md, &vec!["<X>".to_string(), "<Y>".to_string()], &mut 0);
    assert_eq!(
        out,
        "a <data class=\"katex-src\" value=\"x^2\"><X></data> b $$ c <data class=\"katex-src\" value=\"&quot;q&quot;&#10;y\"><Y></data>"
    );
}

#[test]
fn unclosed_display_formula_kept() {
    assert!(display_formulas("a $$x").is_empty());
    assert_eq!(process_display_math("a $$x", &vec![], &mut 0), "a $$x");
}

#[test]
fn inline_formulas_found() {
    let md = "price $5 and $x+y$ end";
    assert_eq!(inline_formulas(md), vec!["x+y"]);
    assert_eq!(
        process_inline_math(md, &vec!["<M>".to_string()], &mut 0),
        "price $5 and <data class=\"katex-src\" value=\"x+y\"><M></data> end"
    );
}

#[test]
fn inline_formula_cut_by_newline() {
    assert!(inline_formulas("a $x\nb").is_empty());
    assert_eq!(process_inline_math("a $x\nb", &vec![], &mut 0), "a $x\nb");
    assert_eq!(process_inline_math("a $x", &vec![], &mut 0), "a $x");
}

#[test]
fn fallback_keeps_source() {
    assert_eq!(katex_fallback("x", true), "$$x$$");
    assert_eq!(katex_fallback("x", false), "$x$");
}

#[test]
fn unclosed_dollar_at_end_is_kept_as_is() {
    assert_eq!(process_inline_math("price $x", &vec![], &mut 0), "price $x");
    assert_eq!(process_inline_math("a $x\nb", &vec![], &mut 0), "a $x\nb");
}

#[test]
fn formulas_are_counted() {
    let mut n: u64 = 5;
    process_display_math("$$a$$ and $$b$$", &vec!["A".to_string(), "B".to_string()], &mut n);
    assert_eq!(n, 7);
    process_inline_math("x $c$ y", &vec!["C".to_string()], &mut n);
    assert_eq!(n, 8);
}
