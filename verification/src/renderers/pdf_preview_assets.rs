//! Copies the PDF files that previews point at into the built site.
use vstd::prelude::*;

verus! {

/// The renderer.
pub struct PdfPreviewAssetsRenderer;

impl PdfPreviewAssetsRenderer {
    /// The name mdbook knows the renderer by.
    pub fn name(&self) -> (r: &'static str)
        ensures
            r@ == "mdbook-pdf-preview-assets"@,
    {
        "mdbook-pdf-preview-assets"
    }
}

} // verus!
