use mdbook_plugins::preprocessors::unified::{all_plugin_names, parse_enabled_list};

#[test]
fn enabled_defaults_to_all() {
    assert_eq!(parse_enabled_list(None), all_plugin_names());
    assert_eq!(all_plugin_names().len(), 14);
    assert_eq!(all_plugin_names()[13], "image-viewer");
}

#[test]
fn enabled_subset_in_running_order() {
    let l = vec![Some("KATEX".to_string()), None, Some("toc".to_string()), Some("nope".to_string())];
    assert_eq!(parse_enabled_list(Some(l)), vec!["toc", "katex"]);
}

#[test]
fn all_enables_everything() {
    let l = vec![Some("toc".to_string()), Some("All".to_string())];
    assert_eq!(parse_enabled_list(Some(l)), all_plugin_names());
    assert!(parse_enabled_list(Some(vec![])).is_empty());
}
