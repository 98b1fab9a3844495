use mdbook_plugins::tikz::engine::{build_source, extract_documentclass};
use mdbook_plugins::tikz::{relative_svg_prefix, tikz_content_hash};

#[test]
fn test_build_source_keeps_non_standalone_class() {
    // article 文档类必须保留（多页支持），只附加 tikz 宏包
    let input = "\\documentclass[a4paper]{article}\n\\usepackage{geometry}\n\\begin{document}\nHello\n\\end{document}\n";
    let out = build_source(input);
    assert!(out.contains("\\documentclass[a4paper]{article}"), "应保留 article 文档类: {}", out);
    assert!(!out.contains("standalone"), "不应使用 standalone: {}", out);
    assert!(out.contains("\\usepackage{tikz}"), "应附加 tikz 宏包: {}", out);
    assert!(out.contains("\\begin{document}"), "应保留 document 环境: {}", out);
}

#[test]
fn test_build_source_standalone_class_keeps_old_behavior() {
    // standalone（含 [tikz] 选项）→ 回退 standalone 模板（与旧行为一致）
    let input = "\\documentclass[tikz]{standalone}\n\\begin{document}\n\\begin{tikzpicture}\\draw (0,0) -- (1,1);\\end{tikzpicture}\n\\end{document}\n";
    let out = build_source(input);
    assert!(out.contains("\\documentclass[margin=0pt]{standalone}"), "应使用 standalone 模板: {}", out);
    assert!(!out.contains("\\documentclass[tikz]{standalone}"), "用户的 standalone 行应被剥离: {}", out);
    assert!(out.contains("\\usepackage{tikz}"), "应包含 tikz 宏包: {}", out);
}

#[test]
fn test_build_source_bare_snippet_uses_standalone() {
    // 裸 TikZ 片段（无 documentclass/无 document 环境）→ standalone 模板包裹
    let input = "\\begin{tikzpicture}\\draw (0,0) -- (1,1);\\end{tikzpicture}\n";
    let out = build_source(input);
    assert!(out.contains("\\documentclass[margin=0pt]{standalone}"), "裸片段应使用 standalone: {}", out);
    assert!(out.contains("\\begin{document}"), "应包裹 document 环境: {}", out);
    assert!(out.contains("\\end{document}"), "应包裹 document 环境: {}", out);
}

#[test]
fn test_extract_documentclass() {
    assert_eq!(
        extract_documentclass("\\documentclass[a4paper,11pt]{article}\n\\begin{document}").as_deref(),
        Some("\\documentclass[a4paper,11pt]{article}")
    );
    assert_eq!(extract_documentclass("\\documentclass{standalone}\nfoo"), Some("\\documentclass{standalone}".to_string()));
    assert_eq!(extract_documentclass("\\begin{tikzpicture}"), None);
}

#[test]
fn test_documentclass_with_trailing_comment() {
    // 行尾 % 注释：extract 应能识别，strip 应能剥离（避免双 documentclass）
    let input = "\\documentclass[a4paper]{article} % main class\n\\usepackage{geometry}\n\\begin{document}\nHi\n\\end{document}\n";
    let out = build_source(input);
    assert!(out.contains("\\documentclass[a4paper]{article}"), "应保留带注释的 article 类: {}", out);
    assert_eq!(
        out.matches("\\documentclass").count(),
        1,
        "只能有一个 documentclass，避免双 documentclass 编译错误: {}",
        out
    );
    let extracted = extract_documentclass(input);
    assert_eq!(extracted.as_deref(), Some("\\documentclass[a4paper]{article} % main class"));
}

#[test]
fn test_relative_prefix() {
    assert_eq!(relative_svg_prefix("index.md"), "./images/");
    assert_eq!(relative_svg_prefix("test/7.md"), "../images/");
    assert_eq!(relative_svg_prefix("a/b/c.md"), "../../images/");
}

#[test]
fn mod_test_content_hash() {
    let h1 = tikz_content_hash("hello");
    let h2 = tikz_content_hash("hello");
    let h3 = tikz_content_hash("world");
    assert_eq!(h1, h2);
    assert_ne!(h1, h3);
    assert_eq!(h1.len(), 64); // SHA256 hex
}

#[test]
fn preamble_block_ends_when_braces_balance() {
    let content = [r"\tikzset{", "x", "}", r"\draw (0,0);"].join("\n");
    let (pre, body) = mdbook_plugins::tikz::engine::split_preamble(&content);
    assert_eq!(pre, [r"\tikzset{", "x", "}", ""].join("\n"));
    assert_eq!(body, format!("{}\n", r"\draw (0,0);"));
}

#[test]
fn preamble_line_without_braces_stands_alone() {
    let (pre, body) = mdbook_plugins::tikz::engine::split_preamble("\\input{a}\n\\draw (0,0);");
    assert_eq!(pre, "\\input{a}\n");
    assert_eq!(body, "\\draw (0,0);\n");
}
