//! Typst diagrams: the cache key of a diagram and the markup that
//! references its SVG. Compiling Typst and writing the files is left to the
//! caller.
use vstd::prelude::*;
use crate::hashing::{content_hash, lower_hex, sha256_of};

verus! {

/// The SHA-256 of a diagram's source in hexadecimal, used as its cache key
/// (the SVG is stored as `{hash}.svg`, the PDF as `{hash}.pdf`).
pub fn typst_content_hash(content: &str) -> (r: String)
    ensures
        r@ == lower_hex(sha256_of(content@)),
        r@.len() == 64,
{
    content_hash(content)
}

/// The `<img>` tag of a compiled diagram whose SVG is `{hash}.svg` under
/// `rel_prefix` (clicking it opens the image viewer).
pub open spec fn typst_img_tag(rel_prefix: Seq<char>, hash: Seq<char>) -> Seq<char> {
    "<img src=\""@ + rel_prefix + hash + ".svg\" alt=\"Typst diagram\" class=\"miv_mdbook-image-viewer\"\nonclick=\"miv_openModal(this.src)\" style=\"max-width:100%;cursor:zoom-in;\">"@
}

/// The tag that references the SVG of a diagram compiled and cached under
/// the hash `hash`.
pub fn text2svg_file(rel_prefix: &str, hash: &str) -> (r: String)
    ensures
        r@ == typst_img_tag(rel_prefix@, hash@),
{
    let mut r = String::new();
    r.append("<img src=\"");
    r.append(rel_prefix);
    r.append(hash);
    r.append(".svg\" alt=\"Typst diagram\" class=\"miv_mdbook-image-viewer\"\nonclick=\"miv_openModal(this.src)\" style=\"max-width:100%;cursor:zoom-in;\">");
    r
}

/// The header a cached SVG file starts with, naming the chapter it came from.
pub open spec fn svg_file_text(source_path: Seq<char>, svg: Seq<char>) -> Seq<char> {
    "<!-- Source: "@ + source_path + " -->\n"@ + svg
}

/// The text of the SVG file cached for a diagram (see `svg_file_text`).
pub fn svg_file_contents(source_path: &str, svg: &str) -> (r: String)
    ensures
        r@ == svg_file_text(source_path@, svg@),
{
    let mut r = String::new();
    r.append("<!-- Source: ");
    r.append(source_path);
    r.append(" -->\n");
    r.append(svg);
    r
}

} // verus!
