use mdbook_plugins::dispatch::{command, plugin_by_name, resolve_plugin, supports, Command, Plugin};

fn args(v: &[&str]) -> Vec<String> {
    v.iter().map(|s| s.to_string()).collect()
}

#[test]
fn short_name_argument() {
    let (name, rest) = resolve_plugin("mdbook-plugins", &args(&["mdbook-plugins", "katex", "supports", "html"]));
    assert_eq!(name, "mdbook-katex");
    assert_eq!(rest, args(&["supports", "html"]));
}

#[test]
fn full_name_and_link_name() {
    let (name, rest) = resolve_plugin("x", &args(&["x", "mdbook-toc", "a"]));
    assert_eq!((name.as_str(), rest), ("mdbook-toc", args(&["a"])));
    let (name, rest) = resolve_plugin("mdbook-toc", &args(&["/usr/bin/mdbook-toc"]));
    assert_eq!((name.as_str(), rest.len()), ("mdbook-toc", 0));
    let (name, rest) = resolve_plugin("mdbook-pdf", &args(&["mdbook-pdf", "other"]));
    assert_eq!((name.as_str(), rest), ("mdbook-pdf", args(&["other"])));
}

#[test]
fn commands() {
    assert!(matches!(command("x", &args(&["x", "build-search", "dir"])), Command::BuildSearch(d) if d == "dir"));
    assert!(matches!(command("x", &args(&["x", "katex", "supports", "html"])), Command::Supports(Plugin::Katex, r) if r == "html"));
    assert!(matches!(command("x", &args(&["x", "katex", "supports"])), Command::Supports(Plugin::Katex, r) if r.is_empty()));
    assert!(matches!(command("x", &args(&["x", "pdf", "supports", "html"])), Command::Run(Plugin::Pdf)));
    assert!(matches!(command("x", &args(&["x", "foo"])), Command::Usage));
    assert!(matches!(command("x", &args(&["x", "mdbook-nope"])), Command::Unknown(n) if n == "mdbook-nope"));
    assert!(matches!(command("mdbook-mermaid", &args(&["mdbook-mermaid"])), Command::Run(Plugin::Mermaid)));
}

#[test]
fn renderer_support() {
    assert_eq!(supports(Plugin::Alerts, "html"), Some(true));
    assert_eq!(supports(Plugin::Alerts, "pdf"), Some(false));
    assert_eq!(supports(Plugin::Toc, "pdf"), Some(true));
    assert_eq!(supports(Plugin::Toc, "not-supported"), Some(false));
    assert_eq!(supports(Plugin::Pdf, "html"), None);
    assert!(matches!(plugin_by_name("mdbook-plugins"), Some(Plugin::Unified)));
    assert!(plugin_by_name("plugins").is_none());
}

#[test]
fn pdf_preview_short_names_run_their_plugins() {
    assert_eq!(
        resolve_plugin("mdbook-plugins", &args(&["mdbook-plugins", "pdf-preview"])),
        ("mdbook-pdf-preview".to_string(), vec![])
    );
    assert!(matches!(command("x", &args(&["x", "pdf-preview"])), Command::Run(Plugin::PdfPreview)));
    assert!(matches!(
        command("x", &args(&["x", "pdf-preview-assets"])),
        Command::Run(Plugin::PdfPreviewAssets)
    ));
    assert_eq!(supports(Plugin::PdfPreview, "html"), Some(true));
    assert_eq!(supports(Plugin::PdfPreview, "pdf"), Some(false));
}
