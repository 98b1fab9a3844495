//! mdbook-pdf: the book printed to PDF through Chrome.
use crate::text::{extend_str, from_chars, to_chars};
use vstd::prelude::*;

verus! {

/// The renderer.
pub struct PdfRenderer;

impl PdfRenderer {
    /// The name mdbook knows the renderer by.
    pub fn name(&self) -> (r: &'static str)
        ensures
            r@ == "pdf"@,
    {
        "pdf"
    }
}

/// The seconds Chrome is given to print (`timeout` of `[output.pdf]`): the
/// configured value, raised to 30 at least; 600 when none is configured.
pub fn chrome_timeout(configured: Option<i64>) -> (r: u64)
    ensures
        r == match configured {
            Some(v) => if v < 30 {
                30
            } else {
                v as int
            },
            None => 600,
        },
{
    match configured {
        Some(v) => if v < 30 {
            30
        } else {
            v as u64
        },
        None => 600,
    }
}

/// The header and footer switches of `[output.pdf]`: `no-header`,
/// `display-header-footer`, `use-native-header-footer` and `css-header-footer`.
#[derive(Clone, Copy, Debug)]
pub struct HeaderFooterOptions {
    /// `no-header`: `Some(true)` turns the header and footer off, whatever else says.
    pub no_header: Option<bool>,
    /// `display-header-footer`: the header and footer are shown.
    pub display_header_footer: bool,
    /// `use-native-header-footer`: Chrome draws them from its own templates.
    pub use_native_header_footer: bool,
    /// `css-header-footer`: they are drawn by CSS injected into the page.
    pub css_header_footer: bool,
}

impl HeaderFooterOptions {
    /// Whether the header and footer are on: `no-header = true` wins over everything.
    pub open spec fn enabled(self) -> bool {
        self.no_header != Some(true) && self.display_header_footer
    }

    /// Whether the header and footer are on.
    pub fn header_footer_enabled(&self) -> (r: bool)
        ensures
            r == self.enabled(),
            self.no_header == Some(true) ==> !r,
    {
        match self.no_header {
            Some(true) => false,
            _ => self.display_header_footer,
        }
    }

    /// Whether they are injected as CSS into the page: on, drawn by CSS, and
    /// not left to Chrome's own templates.
    pub fn css_header_footer_applies(&self) -> (r: bool)
        ensures
            r == (self.css_header_footer && !self.use_native_header_footer && self.enabled()),
    {
        self.css_header_footer && !self.use_native_header_footer && self.header_footer_enabled()
    }

    /// Whether Chrome draws them from its own templates.
    pub fn native_header_footer_applies(&self) -> (r: bool)
        ensures
            r == (self.enabled() && self.use_native_header_footer),
    {
        self.header_footer_enabled() && self.use_native_header_footer
    }

    /// The page arguments of the Chrome command line, in order: no header when
    /// the header and footer are off, `--landscape` when asked, and Chrome's own
    /// templates, each where it is not empty, when Chrome draws them.
    pub open spec fn page_args(self, landscape: bool, header: Seq<char>, footer: Seq<char>) -> Seq<
        Seq<char>,
    > {
        (if !self.enabled() {
            seq!["--print-to-pdf-no-header"@]
        } else {
            Seq::empty()
        }) + (if landscape {
            seq!["--landscape"@]
        } else {
            Seq::empty()
        }) + (if self.enabled() && self.use_native_header_footer {
            (if header.len() > 0 {
                seq!["--header-template="@ + header]
            } else {
                Seq::empty()
            }) + (if footer.len() > 0 {
                seq!["--footer-template="@ + footer]
            } else {
                Seq::empty()
            })
        } else {
            Seq::empty()
        })
    }

    /// The page arguments of the Chrome command line (see `page_args`).
    pub fn chrome_cli_page_args(&self, landscape: bool, header_template: &str, footer_template: &str) -> (r:
        Vec<String>)
        ensures
            r@.map_values(|a: String| a@) == self.page_args(landscape, header_template@, footer_template@),
    {
        let on = self.header_footer_enabled();
        let mut args: Vec<String> = Vec::new();
        if !on {
            args.push("--print-to-pdf-no-header".to_owned());
        }
        if landscape {
            args.push("--landscape".to_owned());
        }
        let ghost first = args@.map_values(|a: String| a@);
        let mut native: Vec<String> = Vec::new();
        if on && self.use_native_header_footer {
            let header = to_chars(header_template);
            if header.len() > 0 {
                let mut v = to_chars("--header-template=");
                extend_str(&mut v, header_template);
                native.push(from_chars(&v));
            }
            let footer = to_chars(footer_template);
            if footer.len() > 0 {
                let mut v = to_chars("--footer-template=");
                extend_str(&mut v, footer_template);
                native.push(from_chars(&v));
            }
        }
        let ghost second = native@.map_values(|a: String| a@);
        args.append(&mut native);
        proof {
            assert(args@.map_values(|a: String| a@) =~= first + second);
        }
        args
    }
}

impl Default for HeaderFooterOptions {
    /// The defaults of `[output.pdf]`: off, and drawn by CSS once turned on.
    fn default() -> (r: Self)
        ensures
            r.no_header is None,
            !r.display_header_footer,
            !r.use_native_header_footer,
            r.css_header_footer,
    {
        HeaderFooterOptions {
            no_header: None,
            display_header_footer: false,
            use_native_header_footer: false,
            css_header_footer: true,
        }
    }
}

} // verus!
