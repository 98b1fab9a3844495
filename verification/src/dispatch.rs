//! The single binary serves every plugin: which one runs, and with which
//! arguments, is read from the command line (`mdbook-plugins <name> …`, or
//! a link named `mdbook-<name>`).
use vstd::prelude::*;
use crate::text::{starts_with, starts_with_str, str_eq, sviews, to_chars};
use crate::preprocessors::{
    admonish, alerts, echarts, embedify, emojicodes, image_viewer, katex, kroki, langtabs, mermaid,
    pdf_preview, pikchr, svgbob, toc, unified, wavedrom,
};

verus! {

broadcast use vstd::string::group_string_axioms;

/// The plugins.
pub enum Plugin {
    Admonish,
    Alerts,
    Echarts,
    EmojiCodes,
    Embedify,
    ImageViewer,
    Katex,
    Kroki,
    LangTabs,
    Mermaid,
    Pikchr,
    PdfPreview,
    Unified,
    Svgbob,
    Toc,
    Wavedrom,
    AsciiDoc,
    LinkCheck,
    BuildSearch,
    Office,
    Pdf,
    PdfPreviewAssets,
}

/// The short names a plugin can be asked for by (without `mdbook-`).
pub open spec fn known_short_name(n: Seq<char>) -> bool {
    n == "admonish"@ || n == "alerts"@ || n == "echarts"@ || n == "emojicodes"@ || n == "embedify"@
        || n == "image-viewer"@ || n == "katex"@ || n == "kroki-preprocessor"@ || n == "langtabs"@
        || n == "mermaid"@ || n == "pikchr"@ || n == "pdf-preview"@ || n == "pdf-preview-assets"@ || n == "plugins"@ || n == "svgbob"@ || n == "toc"@
        || n == "wavedrom-rs"@ || n == "asciidoc"@ || n == "linkcheck"@ || n == "office"@ || n
        == "pdf"@ || n == "build-search"@
}

/// Whether `n` is a known short name.
fn is_known_short_name(n: &str) -> (r: bool)
    ensures
        r == known_short_name(n@),
{
    str_eq(n, "admonish") || str_eq(n, "alerts") || str_eq(n, "echarts") || str_eq(n, "emojicodes")
        || str_eq(n, "embedify") || str_eq(n, "image-viewer") || str_eq(n, "katex") || str_eq(
        n,
        "kroki-preprocessor",
    ) || str_eq(n, "langtabs") || str_eq(n, "mermaid") || str_eq(n, "pikchr") || str_eq(n, "pdf-preview")
        || str_eq(n, "pdf-preview-assets") || str_eq(n, "plugins")
        || str_eq(n, "svgbob") || str_eq(n, "toc") || str_eq(n, "wavedrom-rs") || str_eq(n, "asciidoc")
        || str_eq(n, "linkcheck") || str_eq(n, "office") || str_eq(n, "pdf") || str_eq(
        n,
        "build-search",
    )
}

/// The plugin a full name (`mdbook-…`) designates.
pub open spec fn plugin_named(n: Seq<char>) -> Option<Plugin> {
    if n == "mdbook-admonish"@ {
        Some(Plugin::Admonish)
    } else if n == "mdbook-alerts"@ {
        Some(Plugin::Alerts)
    } else if n == "mdbook-echarts"@ {
        Some(Plugin::Echarts)
    } else if n == "mdbook-emojicodes"@ {
        Some(Plugin::EmojiCodes)
    } else if n == "mdbook-embedify"@ {
        Some(Plugin::Embedify)
    } else if n == "mdbook-image-viewer"@ {
        Some(Plugin::ImageViewer)
    } else if n == "mdbook-katex"@ {
        Some(Plugin::Katex)
    } else if n == "mdbook-kroki-preprocessor"@ {
        Some(Plugin::Kroki)
    } else if n == "mdbook-langtabs"@ {
        Some(Plugin::LangTabs)
    } else if n == "mdbook-mermaid"@ {
        Some(Plugin::Mermaid)
    } else if n == "mdbook-pikchr"@ {
        Some(Plugin::Pikchr)
    } else if n == "mdbook-pdf-preview"@ {
        Some(Plugin::PdfPreview)
    } else if n == "mdbook-pdf-preview-assets"@ {
        Some(Plugin::PdfPreviewAssets)
    } else if n == "mdbook-plugins"@ {
        Some(Plugin::Unified)
    } else if n == "mdbook-svgbob"@ {
        Some(Plugin::Svgbob)
    } else if n == "mdbook-toc"@ {
        Some(Plugin::Toc)
    } else if n == "mdbook-wavedrom-rs"@ {
        Some(Plugin::Wavedrom)
    } else if n == "mdbook-asciidoc"@ {
        Some(Plugin::AsciiDoc)
    } else if n == "mdbook-linkcheck"@ {
        Some(Plugin::LinkCheck)
    } else if n == "mdbook-build-search"@ {
        Some(Plugin::BuildSearch)
    } else if n == "mdbook-office"@ {
        Some(Plugin::Office)
    } else if n == "mdbook-pdf"@ {
        Some(Plugin::Pdf)
    } else {
        None
    }
}

/// The plugin a full name designates (see `plugin_named`).
pub fn plugin_by_name(n: &str) -> (r: Option<Plugin>)
    ensures
        r == plugin_named(n@),
{
    if str_eq(n, "mdbook-admonish") {
        Some(Plugin::Admonish)
    } else if str_eq(n, "mdbook-alerts") {
        Some(Plugin::Alerts)
    } else if str_eq(n, "mdbook-echarts") {
        Some(Plugin::Echarts)
    } else if str_eq(n, "mdbook-emojicodes") {
        Some(Plugin::EmojiCodes)
    } else if str_eq(n, "mdbook-embedify") {
        Some(Plugin::Embedify)
    } else if str_eq(n, "mdbook-image-viewer") {
        Some(Plugin::ImageViewer)
    } else if str_eq(n, "mdbook-katex") {
        Some(Plugin::Katex)
    } else if str_eq(n, "mdbook-kroki-preprocessor") {
        Some(Plugin::Kroki)
    } else if str_eq(n, "mdbook-langtabs") {
        Some(Plugin::LangTabs)
    } else if str_eq(n, "mdbook-mermaid") {
        Some(Plugin::Mermaid)
    } else if str_eq(n, "mdbook-pikchr") {
        Some(Plugin::Pikchr)
    } else if str_eq(n, "mdbook-pdf-preview") {
        Some(Plugin::PdfPreview)
    } else if str_eq(n, "mdbook-pdf-preview-assets") {
        Some(Plugin::PdfPreviewAssets)
    } else if str_eq(n, "mdbook-plugins") {
        Some(Plugin::Unified)
    } else if str_eq(n, "mdbook-svgbob") {
        Some(Plugin::Svgbob)
    } else if str_eq(n, "mdbook-toc") {
        Some(Plugin::Toc)
    } else if str_eq(n, "mdbook-wavedrom-rs") {
        Some(Plugin::Wavedrom)
    } else if str_eq(n, "mdbook-asciidoc") {
        Some(Plugin::AsciiDoc)
    } else if str_eq(n, "mdbook-linkcheck") {
        Some(Plugin::LinkCheck)
    } else if str_eq(n, "mdbook-build-search") {
        Some(Plugin::BuildSearch)
    } else if str_eq(n, "mdbook-office") {
        Some(Plugin::Office)
    } else if str_eq(n, "mdbook-pdf") {
        Some(Plugin::Pdf)
    } else {
        None
    }
}

/// The plugins that are preprocessors (the others are renderers).
pub open spec fn preprocessor(p: Plugin) -> bool {
    !(p is AsciiDoc || p is LinkCheck || p is BuildSearch || p is Office || p is Pdf
        || p is PdfPreviewAssets)
}

/// The plugin name and its arguments: `args[1]` names the plugin when it
/// is a known short name (then `mdbook-` is put before it) or a full
/// `mdbook-…` name; otherwise the plugin is the name the binary was run
/// under (`bin_name`, the stem of `args[0]`) and every argument after
/// `args[0]` is the plugin's.
pub open spec fn resolved(bin_name: Seq<char>, args: Seq<Seq<char>>) -> (Seq<char>, Seq<Seq<char>>) {
    if args.len() < 2 {
        (bin_name, seq![])
    } else if known_short_name(args[1]) {
        ("mdbook-"@ + args[1], args.skip(2))
    } else if starts_with(args[1], "mdbook-"@) {
        (args[1], args.skip(2))
    } else {
        (bin_name, args.skip(1))
    }
}

/// Copies `args[from..]`.
fn tail_args(args: &[String], from: usize) -> (r: Vec<String>)
    requires
        from <= args.len(),
    ensures
        sviews(r@) == sviews(args@).skip(from as int),
{
    let mut r: Vec<String> = Vec::new();
    let mut i = from;
    while i < args.len()
        invariant
            from <= i <= args.len(),
            sviews(r@) == sviews(args@).subrange(from as int, i as int),
        decreases args.len() - i,
    {
        let ghost before = sviews(r@);
        r.push(args[i].clone());
        assert(sviews(r@) =~= before.push(args@[i as int]@));
        assert(sviews(args@).subrange(from as int, i + 1) =~= sviews(args@).subrange(from as int, i as int).push(args@[i as int]@));
        i = i + 1;
    }
    assert(sviews(args@).subrange(from as int, args@.len() as int) =~= sviews(args@).skip(from as int));
    r
}

/// Reads the plugin name and its arguments from the command line (see
/// `resolved`).
pub fn resolve_plugin(bin_name: &str, args: &[String]) -> (r: (String, Vec<String>))
    ensures
        (r.0@, sviews(r.1@)) == resolved(bin_name@, sviews(args@)),
{
    if args.len() < 2 {
        let v: Vec<String> = Vec::new();
        assert(sviews(v@) =~= seq![]);
        return (bin_name.to_string(), v);
    }
    let first = args[1].as_str();
    if is_known_short_name(first) {
        let mut name = String::new();
        name.append("mdbook-");
        name.append(first);
        return (name, tail_args(args, 2));
    }
    let fc = to_chars(first);
    if starts_with_str(&fc, "mdbook-") {
        return (args[1].clone(), tail_args(args, 2));
    }
    (bin_name.to_string(), tail_args(args, 1))
}

/// What the binary does.
pub enum Command {
    /// Build the search index of the HTML directory given.
    BuildSearch(String),
    /// Answer whether a preprocessor supports a renderer.
    Supports(Plugin, String),
    /// Run a plugin (on the book mdbook hands over).
    Run(Plugin),
    /// The name ends up as no plugin's: an error.
    Unknown(String),
    /// No plugin name could be found: print the usage.
    Usage,
}

/// What a command line asks for: `build-search DIR` builds the index;
/// otherwise the plugin is resolved, and a preprocessor whose first
/// argument is `supports` is asked about the renderer that follows (none
/// read as empty).
pub open spec fn command_of(bin_name: Seq<char>, args: Seq<Seq<char>>) -> CommandView {
    if args.len() >= 3 && args[1] == "build-search"@ {
        CommandView::BuildSearch(args[2])
    } else {
        let (name, pargs) = resolved(bin_name, args);
        if !starts_with(name, "mdbook-"@) {
            CommandView::Usage
        } else {
            match plugin_named(name) {
                Some(p) => if preprocessor(p) && pargs.len() > 0 && pargs[0] == "supports"@ {
                    CommandView::Supports(
                        p,
                        if pargs.len() > 1 {
                            pargs[1]
                        } else {
                            seq![]
                        },
                    )
                } else {
                    CommandView::Run(p)
                },
                None => CommandView::Unknown(name),
            }
        }
    }
}

/// The mathematical value of a command.
pub enum CommandView {
    BuildSearch(Seq<char>),
    Supports(Plugin, Seq<char>),
    Run(Plugin),
    Unknown(Seq<char>),
    Usage,
}

impl View for Command {
    type V = CommandView;

    open spec fn view(&self) -> CommandView {
        match self {
            Command::BuildSearch(d) => CommandView::BuildSearch(d@),
            Command::Supports(p, r) => CommandView::Supports(*p, r@),
            Command::Run(p) => CommandView::Run(*p),
            Command::Unknown(n) => CommandView::Unknown(n@),
            Command::Usage => CommandView::Usage,
        }
    }
}

/// Reads what a command line asks for (see `command_of`).
pub fn command(bin_name: &str, args: &[String]) -> (r: Command)
    ensures
        r@ == command_of(bin_name@, sviews(args@)),
{
    if args.len() >= 3 && str_eq(args[1].as_str(), "build-search") {
        return Command::BuildSearch(args[2].clone());
    }
    let (name, pargs) = resolve_plugin(bin_name, args);
    let nc = to_chars(name.as_str());
    if !starts_with_str(&nc, "mdbook-") {
        return Command::Usage;
    }
    match plugin_by_name(name.as_str()) {
        Some(p) => {
            let pre = match p {
                Plugin::AsciiDoc | Plugin::LinkCheck | Plugin::BuildSearch | Plugin::Office | Plugin::Pdf
                | Plugin::PdfPreviewAssets => false,
                _ => true,
            };
            if pre && pargs.len() > 0 && str_eq(pargs[0].as_str(), "supports") {
                let renderer = if pargs.len() > 1 {
                    pargs[1].clone()
                } else {
                    String::new()
                };
                Command::Supports(p, renderer)
            } else {
                Command::Run(p)
            }
        },
        None => Command::Unknown(name),
    }
}

/// Whether a preprocessor supports a renderer, as the preprocessor itself
/// answers; `None` for a renderer plugin.
pub fn supports(p: Plugin, renderer: &str) -> (r: Option<bool>)
    ensures
        r is None <==> !preprocessor(p),
        r matches Some(b) ==> b == (if p is Alerts || p is Echarts || p is Embedify || p is ImageViewer
            || p is LangTabs || p is PdfPreview {
            renderer@ == "html"@
        } else {
            renderer@ != "not-supported"@
        }),
{
    match p {
        Plugin::Admonish => Some(admonish::AdmonishPreprocessor.supports_renderer(renderer)),
        Plugin::Alerts => Some(alerts::AlertsPreprocessor.supports_renderer(renderer)),
        Plugin::Echarts => Some(echarts::ChartPreprocessor.supports_renderer(renderer)),
        Plugin::EmojiCodes => Some(emojicodes::EmojiCodesPreprocessor.supports_renderer(renderer)),
        Plugin::Embedify => Some(embedify::EmbedifyPreprocessor.supports_renderer(renderer)),
        Plugin::ImageViewer => Some(image_viewer::ImageViewerPreprocessor.supports_renderer(renderer)),
        Plugin::Katex => Some(katex::KatexPreprocessor.supports_renderer(renderer)),
        Plugin::Kroki => Some(kroki::KrokiPreprocessor.supports_renderer(renderer)),
        Plugin::LangTabs => Some(langtabs::LangTabsPreprocessor.supports_renderer(renderer)),
        Plugin::Mermaid => Some(mermaid::MermaidPreprocessor.supports_renderer(renderer)),
        Plugin::Pikchr => Some(pikchr::PikchrPreprocessor.supports_renderer(renderer)),
        Plugin::PdfPreview => Some(pdf_preview::PdfPreviewPreprocessor.supports_renderer(renderer)),
        Plugin::Unified => Some(unified::UnifiedPreprocessor.supports_renderer(renderer)),
        Plugin::Svgbob => Some(svgbob::SvgbobPreprocessor.supports_renderer(renderer)),
        Plugin::Toc => Some(toc::TocPreprocessor.supports_renderer(renderer)),
        Plugin::Wavedrom => Some(wavedrom::WavedromPreprocessor.supports_renderer(renderer)),
        _ => None,
    }
}

} // verus!
