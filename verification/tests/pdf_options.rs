use mdbook_plugins::renderers::pdf::{chrome_timeout, HeaderFooterOptions};

#[test]
fn test_header_footer_enabled_no_header_overrides() {
    let mut cfg = HeaderFooterOptions::default();
    cfg.display_header_footer = true;
    cfg.no_header = Some(true);
    assert!(!cfg.header_footer_enabled());
}

#[test]
fn test_header_footer_enabled_default_off() {
    let cfg = HeaderFooterOptions::default();
    assert!(!cfg.header_footer_enabled());
}

#[test]
fn test_header_footer_enabled_on() {
    let mut cfg = HeaderFooterOptions::default();
    cfg.display_header_footer = true;
    assert!(cfg.header_footer_enabled());
}

#[test]
fn header_footer_defaults() {
    let cfg = HeaderFooterOptions::default();
    assert_eq!(cfg.no_header, None);
    assert!(!cfg.use_native_header_footer);
    assert!(cfg.css_header_footer);
}

#[test]
fn no_header_false_leaves_display_in_charge() {
    let mut cfg = HeaderFooterOptions::default();
    cfg.no_header = Some(false);
    assert!(!cfg.header_footer_enabled());
    cfg.display_header_footer = true;
    assert!(cfg.header_footer_enabled());
}

#[test]
fn css_and_native_header_footer_exclude_each_other() {
    let mut cfg = HeaderFooterOptions::default();
    cfg.display_header_footer = true;
    assert!(cfg.css_header_footer_applies());
    assert!(!cfg.native_header_footer_applies());
    cfg.use_native_header_footer = true;
    assert!(!cfg.css_header_footer_applies());
    assert!(cfg.native_header_footer_applies());
    cfg.no_header = Some(true);
    assert!(!cfg.css_header_footer_applies());
    assert!(!cfg.native_header_footer_applies());
}

#[test]
fn chrome_page_args_when_off() {
    let cfg = HeaderFooterOptions::default();
    assert_eq!(cfg.chrome_cli_page_args(false, "<b>h</b>", "f"), vec!["--print-to-pdf-no-header".to_string()]);
    assert_eq!(
        cfg.chrome_cli_page_args(true, "", ""),
        vec!["--print-to-pdf-no-header".to_string(), "--landscape".to_string()]
    );
}

#[test]
fn chrome_page_args_with_native_templates() {
    let mut cfg = HeaderFooterOptions::default();
    cfg.display_header_footer = true;
    cfg.use_native_header_footer = true;
    assert_eq!(
        cfg.chrome_cli_page_args(false, "<span class='title'></span>", "p"),
        vec![
            "--header-template=<span class='title'></span>".to_string(),
            "--footer-template=p".to_string()
        ]
    );
    assert_eq!(cfg.chrome_cli_page_args(false, "", "p"), vec!["--footer-template=p".to_string()]);
}

#[test]
fn chrome_page_args_css_header_footer_passes_no_template() {
    let mut cfg = HeaderFooterOptions::default();
    cfg.display_header_footer = true;
    assert!(cfg.chrome_cli_page_args(false, "h", "f").is_empty());
}

#[test]
fn chrome_timeout_is_at_least_thirty_seconds() {
    assert_eq!(chrome_timeout(None), 600);
    assert_eq!(chrome_timeout(Some(5)), 30);
    assert_eq!(chrome_timeout(Some(-1)), 30);
    assert_eq!(chrome_timeout(Some(120)), 120);
}
