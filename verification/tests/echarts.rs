use mdbook_plugins::hashing::content_hash;
use mdbook_plugins::preprocessors::echarts::{
    bytefield_gen_html, clean_codeblock, collect_referenced_diagram_hashes, clean_typst_fence, collect_referenced_from_content,
    echarts_gen_html, echarts_html_with, is_orphan_diagram, latex_document_source, latex_gen_file,
    latex_gen_html, pikchr_gen_html, tikz_diagram_source, tikz_gen_file, typst_diagram_source,
    typst_gen_file, wavedrom_gen_html,
};
use mdbook_plugins::preprocessors::echarts::{
    block_matches, bob_pass, process_content, compiled_pass, echarts_pass, plain_pass, replace_each, svgbob_gen_html,
    CompiledKind, PlainKind, BYTEFIELD_BLOCK, LATEX_TIKZ_BLOCK,
};
use mdbook_plugins::typst::{svg_file_contents, text2svg_file, typst_content_hash};

fn hash_hex(seed: &str) -> String {
    content_hash(seed)
}

#[test]
fn test_collect_referenced_from_content() {
    let a = hash_hex("a");
    let b = hash_hex("b");
    let c = hash_hex("c");
    let content = format!(
        r#"<div data-pdf-hash="{}" class="diagram-inline">inline svg</div>
<img src="../images/{}.svg" alt="tikz">
![fig](images/{}.pdf)
<div data-pdf-hash="{}">x</div>
普通文本里出现 {} 无扩展名不应收集
"#,
        a, b, c, a, c
    );
    let mut refs = Vec::new();
    collect_referenced_from_content(&content, &mut refs);
    assert_eq!(refs.len(), 3, "应收集 3 个 hash: {:?}", refs);
    assert!(refs.contains(&a));
    assert!(refs.contains(&b));
    assert!(refs.contains(&c));
}

#[test]
fn block_content() {
    assert_eq!(clean_codeblock("```echarts\nvar a;\n```", "```echarts"), "var a;");
}

#[test]
fn echarts_names_made_unique() {
    let out = echarts_html_with("```echarts\nvar myChart = echarts.init(chartDom);\n\n--k\n```", "abc");
    assert!(out.starts_with("<div>\n    <div id=\"abc\" style=\"height: 500px; text-align: center;\">"));
    assert!(out.contains("var chart_abc = echarts.init(chartDom_abc);\n(k-=1,k)\n"));
    let g = echarts_gen_html("```echarts\nx\n```");
    let id = &g["<div>\n    <div id=\"".len().."<div>\n    <div id=\"".len() + 32];
    assert!(id.chars().all(|c| c.is_ascii_hexdigit() && !c.is_ascii_uppercase()));
}

#[test]
fn text_blocks() {
    let b = bytefield_gen_html("```bytefield\n(a < b)\n\n\nx\n```");
    assert!(b.contains("data-lang=\"bytefield\">\n(a &lt; b)\nx\n    </code></pre>"));
    let l = latex_gen_html("```latex tex\n\\section{A & B}\n```");
    assert!(l.contains("<code>\n\\section{A &amp; B}\n    </code></latex-js>"));
    assert_eq!(pikchr_gen_html("```pikchr\nbox\n```"), "<pre><code class=\"language-pikchr\">\nbox\n</code></pre>");
    assert_eq!(
        wavedrom_gen_html("```wavedrom\n{signal: []}\n```"),
        "<div class=\"diagram-wavedrom\" style=\"text-align:center;\">\n<script type=\"WaveDrom\">\n{signal: []}\n</script>\n</div>"
    );
}

#[test]
fn typst_directive_dropped() {
    assert_eq!(clean_typst_fence("svg\n#set page()\nHi"), "#set page()\nHi");
    assert_eq!(clean_typst_fence(" pdf \nx\r\ny\n"), "x\ny");
    assert_eq!(clean_typst_fence("#a\nb"), "#a\nb");
    assert_eq!(clean_typst_fence(""), "");
}

#[test]
fn orphan_cache_files() {
    let a = hash_hex("a");
    let b = hash_hex("b");
    assert!(is_orphan_diagram(&format!("{a}.svg"), &vec![b.clone()]));
    assert!(!is_orphan_diagram(&format!("{a}.p2.pdf"), &vec![a.clone()]));
    assert!(!is_orphan_diagram("notes.txt", &vec![a.clone()]));
    assert!(!is_orphan_diagram(&format!("{a}.svg"), &vec![]));
}

const TIKZ_BLOCK: &str = "```latex tikz\n\\begin{tikzpicture}\n\n\\draw (0,0) -- (1,1);\n\\end{tikzpicture}\n```";

#[test]
fn test_tikz_source_drops_blank_lines() {
    assert_eq!(
        tikz_diagram_source(TIKZ_BLOCK),
        "\\begin{tikzpicture}\n\\draw (0,0) -- (1,1);\n\\end{tikzpicture}"
    );
}

#[test]
fn test_tikz_gen_file_with_image() {
    let out = tikz_gen_file(TIKZ_BLOCK, Some("<img src=\"./images/x.svg\">"));
    let hash = content_hash(&tikz_diagram_source(TIKZ_BLOCK));
    assert_eq!(
        out,
        format!(
            "<div data-pdf-hash=\"{}\" align=\"center\" class=\"diagram-inline\">\n<style>.diagram-inline img{{width:100%;height:auto;max-width:100%}}@media print{{.diagram-inline img{{width:auto;max-width:100%}}}}</style>\n<img src=\"./images/x.svg\">\n</div>",
            hash
        )
    );
}

#[test]
fn test_tikz_gen_file_fallback() {
    let out = tikz_gen_file(TIKZ_BLOCK, None);
    assert_eq!(
        out,
        "<div><details><summary>TikZ 渲染失败 (点击展开源码)</summary>\n<pre><code>tikz 渲染引擎未编译</code></pre>\n<pre><code>\\begin{tikzpicture}\n\\draw (0,0) -- (1,1);\n\\end{tikzpicture}</code></pre></details></div>"
    );
}

#[test]
fn test_latex_gen_file() {
    let block = "```latex tex\n\\documentclass{article}\n\n\\begin{document}Hi\\end{document}\n```";
    assert_eq!(latex_gen_file(block, None), latex_gen_html(block));
    assert_eq!(
        latex_document_source(block),
        "\\documentclass{article}\n\\begin{document}Hi\\end{document}"
    );
    let out = latex_gen_file(block, Some("<img>"));
    assert!(out.starts_with(&format!("<div data-pdf-hash=\"{}\"", content_hash(&latex_document_source(block)))));
    assert!(out.ends_with("\n<img>\n</div>"));
}

#[test]
fn test_typst_gen_file() {
    let block = "```typst svg\n#set page(width: auto)\n\n$x$\n```";
    assert_eq!(typst_diagram_source(block), "#set page(width: auto)\n$x$");
    let out = typst_gen_file(block, Some("<svg/>"));
    assert!(out.starts_with(&format!(
        "<div data-pdf-hash=\"{}\" align=\"center\" class=\"diagram-inline\"\nstyle=\"cursor:zoom-in;\"",
        typst_content_hash("#set page(width: auto)\n$x$")
    )));
    assert!(out.ends_with("\">\n<svg/>\n</div>"));
    let fallback = typst_gen_file(block, None);
    assert!(fallback.contains("<pre><code>typst 渲染引擎未编译</code></pre>"));
    assert!(fallback.contains("<pre><code>#set page(width: auto)\n$x$</code></pre>"));
}

#[test]
fn test_typst_hash_and_tags() {
    assert_eq!(
        typst_content_hash(""),
        "e3b0c44298fc1c149afbf4c8996fb92427ae41e4649b934ca495991b7852b855"
    );
    assert_eq!(
        text2svg_file("../images/", "abc"),
        "<img src=\"../images/abc.svg\" alt=\"Typst diagram\" class=\"miv_mdbook-image-viewer\"\nonclick=\"miv_openModal(this.src)\" style=\"max-width:100%;cursor:zoom-in;\">"
    );
    assert_eq!(svg_file_contents("a.md", "<svg/>"), "<!-- Source: a.md -->\n<svg/>");
}

#[test]
fn test_collect_referenced_diagram_hashes() {
    let h1 = hash_hex("one");
    let h2 = hash_hex("two");
    let chapters = vec![
        format!("<div data-pdf-hash=\"{}\">", h2),
        format!("see {}.pdf and {}.p2.svg", h1, h2),
        "nothing here".to_string(),
    ];
    let mut expected = vec![h1.clone(), h2.clone()];
    expected.sort();
    assert_eq!(collect_referenced_diagram_hashes(&chapters), expected);
    assert!(collect_referenced_diagram_hashes(&[]).is_empty());
}

#[test]
fn test_block_matches_and_replace_each() {
    let text = "a\n```bytefield\n(x)\n```\nb\n```bytefield\n(y)\n```\n";
    let ms = block_matches(BYTEFIELD_BLOCK, text);
    assert_eq!(ms, vec!["```bytefield\n(x)\n```".to_string(), "```bytefield\n(y)\n```".to_string()]);
    let out = replace_each(text, &ms, &vec!["X".to_string(), "Y".to_string()]);
    assert_eq!(out, "a\nX\nb\nY\n");
    assert_eq!(replace_each("k k", &vec!["k".to_string()], &vec!["z".to_string()]), "z z");
}

#[test]
fn test_plain_pass_bytefield() {
    let block = "```bytefield\n(draw-column-headers)\n```";
    let text = format!("intro\n{}\nend", block);
    assert_eq!(
        plain_pass(&text, &PlainKind::Bytefield),
        format!("intro\n{}\nend", bytefield_gen_html(block))
    );
    assert_eq!(plain_pass("no blocks", &PlainKind::Wavedrom), "no blocks");
}

#[test]
fn test_compiled_pass_tikz() {
    let text = format!("x\n{}\ny", TIKZ_BLOCK);
    assert_eq!(block_matches(LATEX_TIKZ_BLOCK, &text), vec![TIKZ_BLOCK.to_string()]);
    let out = compiled_pass(&text, &CompiledKind::Tikz, &vec![Some("<img>".to_string())]);
    assert_eq!(out, format!("x\n{}\ny", tikz_gen_file(TIKZ_BLOCK, Some("<img>"))));
    let failed = compiled_pass(&text, &CompiledKind::Tikz, &vec![]);
    assert_eq!(failed, format!("x\n{}\ny", tikz_gen_file(TIKZ_BLOCK, None)));
}

#[test]
fn test_random_id_passes() {
    let out = echarts_pass("```echarts\nvar myChart = 1;\n```");
    assert!(out.starts_with("<div>\n    <div id=\""));
    assert!(out.contains("var chart_"));
    assert!(!out.contains("```"));
    let drawn = bob_pass("```bob\n-->\n```");
    assert!(drawn.starts_with("<pre class=\"diagram-svgbob\""), "{}", drawn);
    assert!(drawn.contains("svgbob_"));
    assert_eq!(svgbob_gen_html("```bob\n```"), "");
}

#[test]
fn test_process_content_without_compilers() {
    let wave = "```wavedrom\n{ signal: [] }\n```";
    let text = format!("# T\n{}\n\n{}\n", TIKZ_BLOCK, wave);
    let out = process_content(&text);
    assert_eq!(
        out,
        format!("# T\n{}\n\n{}\n", tikz_gen_file(TIKZ_BLOCK, None), wavedrom_gen_html(wave))
    );
    assert_eq!(process_content("plain text"), "plain text");
}
