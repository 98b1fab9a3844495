pub mod admonish;
pub mod alerts;
pub mod echarts;
pub mod embedify;
pub mod emojicodes;
pub mod image_viewer;
pub mod katex;
pub mod katex_blocks;
pub mod kroki;
pub mod langtabs;
pub mod mermaid;
pub mod pdf_preview;
pub mod pikchr;
pub mod svgbob;
pub mod toc;
pub mod unified;
pub mod wavedrom;
