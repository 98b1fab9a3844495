//! What the renderers read of an HTML document: the elements a CSS selector
//! picks, as scraper parses and selects them.
use vstd::prelude::*;

verus! {

/// An element a selector picked: its tag name, the value of the one
/// attribute asked for (when it has it), and its text (the text below it,
/// in document order, joined).
pub struct Picked {
    pub name: String,
    pub attr: Option<String>,
    pub text: String,
}

/// The mathematical value of a picked element.
pub struct PickedView {
    pub name: Seq<char>,
    pub attr: Option<Seq<char>>,
    pub text: Seq<char>,
}

impl View for Picked {
    type V = PickedView;

    open spec fn view(&self) -> PickedView {
        PickedView {
            name: self.name@,
            attr: match &self.attr {
                Some(a) => Some(a@),
                None => None,
            },
            text: self.text@,
        }
    }
}

/// The views of picked elements.
pub open spec fn picked_views(v: Seq<Picked>) -> Seq<PickedView> {
    v.map_values(|p: Picked| p@)
}

/// What scraper picks out of `html` (parsed as a document) with the CSS
/// selector `selector`, each element read with its attribute `attr`, in
/// document order; none when the selector does not parse.
pub uninterp spec fn html_picked(html: Seq<char>, selector: Seq<char>, attr: Seq<char>) -> Option<
    Seq<PickedView>,
>;

/// `scraper::Html::parse_document` and `select` (see `html_picked`).
#[verifier::external_body]
pub fn select_elements(html: &str, selector: &str, attr: &str) -> (r: Option<Vec<Picked>>)
    ensures
        match r {
            Some(v) => html_picked(html@, selector@, attr@) == Some(picked_views(v@)),
            None => html_picked(html@, selector@, attr@) is None,
        },
{
    let sel = scraper::Selector::parse(selector).ok()?;
    let doc = scraper::Html::parse_document(html);
    let mut v = Vec::new();
    for el in doc.select(&sel) {
        v.push(Picked {
            name: el.value().name().to_string(),
            attr: el.value().attr(attr).map(|a| a.to_string()),
            text: el.text().collect(),
        });
    }
    Some(v)
}

} // verus!
