//! TikZ diagrams: the LaTeX source handed to the TeX engine, the cache key
//! of a diagram and the markup that references its SVG.
pub mod engine;

use vstd::prelude::*;
use crate::hashing::{content_hash, lower_hex, sha256_of};
use crate::utils::{inline_svg, svg_prefix};

verus! {

broadcast use vstd::string::group_string_axioms;

/// The SHA-256 of a diagram's source in hexadecimal, used as its cache key
/// (the SVG is stored as `{hash}.svg`).
pub fn tikz_content_hash(content: &str) -> (r: String)
    ensures
        r@ == lower_hex(sha256_of(content@)),
        r@.len() == 64,
{
    content_hash(content)
}

/// The `<img>` tag of a compiled diagram whose SVG is `{hash}.svg` under
/// `rel_prefix` (clicking it opens the image viewer).
pub open spec fn tikz_img_tag(rel_prefix: Seq<char>, hash: Seq<char>) -> Seq<char> {
    "<img src=\""@ + rel_prefix + hash + ".svg\" alt=\"TikZ diagram\" class=\"miv_mdbook-image-viewer\"\nonclick=\"miv_openModal(this.src)\" style=\"max-width:100%;cursor:zoom-in;\">"@
}

/// The tag that references the SVG of a diagram compiled and cached under
/// the hash `hash` (compiling and writing the files is the caller's part).
pub fn text2svg_file(rel_prefix: &str, hash: &str) -> (r: String)
    ensures
        r@ == tikz_img_tag(rel_prefix@, hash@),
{
    let mut r = String::new();
    r.append("<img src=\"");
    r.append(rel_prefix);
    r.append(hash);
    r.append(".svg\" alt=\"TikZ diagram\" class=\"miv_mdbook-image-viewer\"\nonclick=\"miv_openModal(this.src)\" style=\"max-width:100%;cursor:zoom-in;\">");
    r
}

/// The relative prefix from a chapter's page (its path relative to the
/// book's `src/`) to the `images/` directory: `./images/` for a top-level
/// chapter, one `../` per enclosing directory otherwise.
pub fn relative_svg_prefix(chapter_path: &str) -> (r: String)
    ensures
        r@ == svg_prefix(chapter_path@),
{
    crate::utils::relative_svg_prefix(chapter_path)
}

/// The SVG of a compiled diagram in the form that is inlined into the page
/// (see `inline_svg`; compiling is the caller's part).
pub fn text2svg_inline(svg: &str) -> (r: String)
    ensures
        r@ == inline_svg(svg@),
{
    crate::utils::svg_to_inline(svg)
}

} // verus!
