pub mod asciidoc;
pub mod build_search;
pub mod linkcheck;
pub mod office;
pub mod pdf;
pub mod pdf_html_preprocess;
pub mod pdf_outline;
pub mod pdf_preview_assets;
pub mod pdf_names;
