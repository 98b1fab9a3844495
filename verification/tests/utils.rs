use pulldown_cmark::{html, Options, Parser};
use mdbook_plugins::utils::{
    diagram_toggle_html, escape_xml, svg_to_inline, DIAGRAM_SVG_CSS, SVG_TEXT_LAYER_STYLE,
};

#[test]
fn test_inline_injects_style() {
    let svg = r#"<svg viewBox="0 0 10 10" xmlns="http://www.w3.org/2000/svg"><path d="M0 0"/></svg>"#;
    let out = svg_to_inline(svg);
    assert!(
        out.contains(r#"style="height:auto;font-family:serif;""#),
        "缺少注入的 style: {}",
        out
    );
    assert!(out.contains("class=\"diagram-inline-svg\""), "缺少 class: {}", out);
    assert!(out.starts_with("<style>"), "缺少响应式 <style>: {}", out);
    assert!(out.contains("@media print"), "缺少打印样式: {}", out);
    assert!(out.contains(r#"<svg viewBox="0 0 10 10""#), "根元素必须保留: {}", out);
    assert!(out.ends_with("</svg>"), "svg 必须完整闭合: {}", out);
}

#[test]
fn test_inline_merges_existing_style() {
    let svg = r#"<svg style="background-color:red;" viewBox="0 0 1 1"><path/></svg>"#;
    let out = svg_to_inline(svg);
    assert!(
        out.contains(r#"style="background-color:red;height:auto;font-family:serif;""#),
        "style 合并失败: {}",
        out
    );
    assert!(out.contains("class=\"diagram-inline-svg\""), "缺少 class: {}", out);
}

#[test]
fn test_inline_single_quote_style() {
    let svg = r#"<svg style='background-color:blue' viewBox="0 0 1 1"><path/></svg>"#;
    let out = svg_to_inline(svg);
    assert!(
        out.contains(r#"style='background-color:blue;height:auto;font-family:serif;'"#),
        "单引号 style 合并失败: {}",
        out
    );
    // 单引号场景下 viewBox 属性必须完好
    assert!(out.contains(r#"viewBox="0 0 1 1""#), "后续属性被破坏: {}", out);
}

#[test]
fn test_inline_strips_source_comment_and_blank_lines() {
    let svg = "<!-- Source: test/7.latex_pictures.md -->\n\n<svg viewBox=\"0 0 1 1\">\n\n<path d=\"M0 0\"/>\n</svg>\n";
    let out = svg_to_inline(svg);
    assert!(!out.contains("Source:"), "注释应被剥离: {}", out);
    assert!(!out.contains("\n\n"), "空行应被压缩: {}", out);
    assert!(out.starts_with("<style>"), "应以 <style> 开头: {}", out);
    assert!(out.contains("<svg viewBox=\"0 0 1 1\""), "svg 应在 style 后: {}", out);
}

#[test]
fn test_inline_no_svg_tag() {
    let out = svg_to_inline("not an svg");
    assert_eq!(out, "not an svg");
}

#[test]
fn test_text_layer_isolation() {        // 文本层兜底规则必须存在：内联 SVG 的 <text> 锁定透明 + serif，
    // 防止页面 CSS 覆盖 fill 后字形与 path 轮廓叠加成"字体重叠混乱"
    assert!(
        DIAGRAM_SVG_CSS.contains(".diagram-inline-svg text{fill:transparent!important;font-family:serif!important}"),
        "缺少文本层隔离规则: {}",
        DIAGRAM_SVG_CSS
    );
    // 生成端注入的内联 style：fill:transparent + font-family:serif，均 !important
    assert_eq!(
        SVG_TEXT_LAYER_STYLE,
        "style=\"fill:transparent!important;font-family:serif!important\""
    );
}

#[test]
fn test_inline_attribute_value_with_gt() {
    // 属性值（data URI）中包含 '>' 不应提前终止根标签扫描
    let svg = r#"<svg viewBox="0 0 1 1"><image href="data:image/png;base64,AAA>BBB"/></svg>"#;
    let out = svg_to_inline(svg);
    assert!(out.contains(r#"<svg viewBox="0 0 1 1" style="height:auto;font-family:serif;" class="diagram-inline-svg""#), "根标签注入失败: {}", out);
    assert!(out.contains("AAA>BBB"), "data URI 内容被破坏: {}", out);
}

#[test]
fn test_diagram_toggle_html_structure() {
    let out = diagram_toggle_html("<img src=\"x.svg\" alt=\"tikz\">", "\\begin{tikzpicture}\\end{tikzpicture}");
    // 默认显示图片、隐藏源码
    assert!(out.contains("<div class=\"diagram-box\">"), "缺少外层容器: {}", out);
    assert!(out.contains("diagram-toggle-btn"), "缺少切换按钮: {}", out);
    assert!(out.contains("<div class=\"diagram-toggle-image\"><img src=\"x.svg\" alt=\"tikz\"></div>"), "图片视图缺省可见: {}", out);
    assert!(out.contains("<pre class=\"diagram-toggle-source\" hidden><code>"), "源码默认 hidden: {}", out);
    // 源码视图边框更柔和（更浅边框色 + 圆角增大 + 轻阴影），不再是粗重 rgba(...,.25)
    assert!(out.contains("border:1px solid rgba(127,127,127,.12)"), "源码框边框应柔和: {}", out);
    assert!(out.contains("border-radius:6px"), "源码框应圆角增大: {}", out);
    assert!(out.contains("box-shadow:0 1px 3px"), "源码框应加轻阴影: {}", out);
    // 源码必须被 HTML 转义，不能破坏外层结构
    assert!(out.contains("\\begin{tikzpicture}\\end{tikzpicture}"), "源码应保留: {}", out);
    assert!(out.ends_with("</div>"), "容器必须闭合: {}", out);
    // 内联样式含居中规则
    assert!(out.contains(".diagram-box{position:relative;text-align:center"), "缺少居中样式: {}", out);
    // 按钮在左上角（与 mdbook 右上角复制按钮错开）、无文字、只显示眼睛图标
    let btn_css = out[out.find("diagram-toggle-btn{").unwrap()..out.find(".diagram-toggle-btn svg").unwrap()].to_string();
    assert!(btn_css.contains("left:8px"), "按钮应在左上角: {}", btn_css);
    assert!(!btn_css.contains("right:8px"), "按钮不应在右上角（避免与复制按钮重叠）: {}", btn_css);
    // 平时隐藏（opacity/visibility 双隐藏），悬停容器才显现（仿 mdbook 复制按钮）
    assert!(btn_css.contains("opacity:0") && btn_css.contains("visibility:hidden"), "按钮应默认隐藏: {}", btn_css);
    assert!(out.contains(".diagram-box:hover .diagram-toggle-btn"), "缺少悬停显示规则: {}", out);
    // 用 :focus-visible 而非 :focus，避免点击后焦点残留一直显示
    assert!(out.contains(":focus-visible"), "缺少 focus-visible: {}", out);
    assert!(!out.contains("diagram-toggle-btn:focus{"), "不应用 :focus: {}", out);
    // 悬停按钮时悬浮文字气泡（仿 mdbook Copy to clipboard，文字为英文）
    assert!(out.contains("diagram-toggle-btn::after") && out.contains("attr(data-tooltip)"), "缺少悬浮提示气泡: {}", out);
    assert!(out.contains("data-tooltip=\"View source\""), "缺少 data-tooltip: {}", out);
    assert!(out.contains("title=\"View source\""), "按钮缺少 title: {}", out);
    assert!(!out.contains(">源码<") && !out.contains(">图片<"), "按钮不应有可见文字: {}", out);
    // 气泡位于按钮正上方（而非右侧）
    let after_css = out[out.find(".diagram-toggle-btn::after").unwrap()..].to_string();
    let a_end = after_css.find("}").unwrap();
    assert!(after_css[..a_end].contains("bottom:calc(100% + 8px)"), "气泡应在按钮正上方: {}", &after_css[..a_end]);
    // 按钮内含一个眼睛 <svg>
    let btn = &out[out.find("<button").unwrap()..];
    let btn_end = btn.find("</button>").unwrap();
    let btn_html = &btn[..btn_end];
    assert!(btn_html.contains("<svg"), "按钮缺少眼睛图标: {}", btn_html);
}

#[test]
fn test_diagram_toggle_html_escapes_source() {
    let out = diagram_toggle_html("<img>", "a < b & c > d \"q\" 's'");
    assert!(out.contains("a &lt; b &amp; c &gt; d &quot;q&quot; &apos;s&apos;"), "源码未转义: {}", out);
}

#[test]
fn test_diagram_toggle_html_strips_source_blank_lines() {
    // 源码含空行时，容器内不能出现空行（空行会让 pulldown-cmark 截断 HTML 块）
    let src = "\\begin{tikzpicture}\n\n\n\\draw (0,0) -- (1,1);\n\n\\end{tikzpicture}";
    let out = diagram_toggle_html("<svg/>", src);
    assert_ne!(out.contains("\n\n"), true, "容器内不应出现空行: {:?}", out);
    // 且源码内容仍完整保留（空行被移除）
    assert!(out.contains("\\begin{tikzpicture}"), "缺失首行: {}", out);
    assert!(out.contains("\\draw (0,0) -- (1,1);"), "缺失中间行: {}", out);
    assert!(out.contains("\\end{tikzpicture}"), "缺失末行: {}", out);
    assert!(out.ends_with("</div>"), "容器必须完整闭合: {}", out);
}

#[test]
fn test_diagram_toggle_html_roundtrip_pulldown_cmark() {
    // 回归测试：切换容器经 pulldown-cmark 二次解析后，源码必须原样保留，
    // 不能被空行/行首特殊字符（如 svgbob SVG <style> 内多行 CSS 之间的空行、
    // pikchr 源码的 # 注释行）提前结束 type-6 HTML 块而打散成段/标题。
    // 模拟 svgbob 的 SVG：<style> 里 CSS 规则之间带空行，且含 <text>
    let image = "<div class=\"diagram-svgbob\"><svg><style>.x {\ncolor: red;\n}\n\n.x2 {\ncolor: blue;\n}</style><text>hi</text></svg></div>";
    let src = "box \"a\"\n# First row of objects\nbox \"b\"\n- item\n> quote";
    let out = diagram_toggle_html(image, src);
    // 输出必须无空行（type-6 块不被截断）
    assert!(!out.contains("\n\n"), "容器内含空行会被 pulldown-cmark 截断: {:?}", out);
    let mut buf = String::new();
    let parser = Parser::new_ext(&out, Options::all());
    html::push_html(&mut buf, parser);
    // 源码 + SVG <style> 内容原样保留
    assert!(buf.contains("# First row of objects"), "源码被打散: {}", buf);
    assert!(buf.contains("color: red;"), "SVG <style> 被打散: {}", buf);
    assert!(buf.contains("color: blue;"), "SVG <style> 被打散: {}", buf);
    // 不得被当成标题/段落
    assert!(!buf.contains("First row of objects</h1>"), "源码被解析成标题: {}", buf);
    assert!(!buf.contains("<p>color: red"), "SVG <style> 被解析成段落: {}", buf);
}

#[test]
fn test_escape_xml_replaces_illegal_chars() {
    // U+FFFF（PDF 未映射字形占位符）等非法 XML 字符必须被替换（保持长度）
    let input = format!("a{}b\u{7}c\u{FFFE}\u{FFFF}", '\u{0}');
    let out = escape_xml(&input);
    assert!(!out.contains('\u{FFFF}'), "U+FFFF 未被替换: {:?}", out);
    assert!(!out.contains('\u{FFFE}'), "U+FFFE 未被替换: {:?}", out);
    assert_eq!(out.chars().count(), input.chars().count(), "字符数必须不变（坐标对齐）");
    // 合法字符保留且顺序不变（\u{0} 和 \u{7} 被替换为 U+FFFD）
    assert_eq!(out.chars().collect::<Vec<_>>()[0], 'a');
    assert!(out.contains('b') && out.contains('c'));
    // 非法字符替换为 U+FFFD
    assert!(out.contains('\u{FFFD}'));
    // 常规转义不受影响
    assert_eq!(escape_xml("<a&b>\"'"), "&lt;a&amp;b&gt;&quot;&apos;");
    // 中文等合法 Unicode 保留
    assert_eq!(escape_xml("你好 ∇"), "你好 ∇");
}
