//! Pieces of the PDF post-processing that work on text: heading levels of
//! the outline, the XMP metadata packet, and URL percent-decoding of
//! destination names.
use vstd::prelude::*;
use crate::text::{ascii_lower, ascii_lower_exec, ascii_lowercase, opt_int, push_char, replaced, to_chars, trim};
use crate::html::{html_picked, picked_views, select_elements, Picked, PickedView};
use vstd::utf8::{decode_utf8, valid_utf8};

verus! {

broadcast use vstd::string::group_string_axioms;

/// A bookmark of the PDF outline.
#[derive(Debug, Clone)]
pub struct BEntry {
    pub level: u32,
    pub title: String,
    pub dest_name: String,
}

/// The outline level of a heading tag name (`h1`…`h6`, in any case); 0 for
/// any other tag. (`str::to_lowercase` maps no other text to `h1`…`h6`, so
/// the ASCII lowercase is compared.)
pub open spec fn heading_level(tag: Seq<char>) -> u32 {
    let l = ascii_lowercase(tag);
    if l == "h1"@ {
        1
    } else if l == "h2"@ {
        2
    } else if l == "h3"@ {
        3
    } else if l == "h4"@ {
        4
    } else if l == "h5"@ {
        5
    } else if l == "h6"@ {
        6
    } else {
        0
    }
}

/// Heading tag name → outline level (see `heading_level`).
pub fn tag_to_level(tag: &str) -> (r: u32)
    ensures
        r == heading_level(tag@),
{
    proof {
        reveal_strlit("h1");
        reveal_strlit("h2");
        reveal_strlit("h3");
        reveal_strlit("h4");
        reveal_strlit("h5");
        reveal_strlit("h6");
    }
    let cs = to_chars(tag);
    if cs.len() != 2 {
        assert(ascii_lowercase(tag@).len() != 2);
        return 0;
    }
    let a = ascii_lower_exec(cs[0]);
    let b = ascii_lower_exec(cs[1]);
    assert(ascii_lowercase(tag@) =~= seq![a, b]);
    if a != 'h' {
        assert(ascii_lowercase(tag@)[0] != 'h');
        return 0;
    }
    if b == '1' {
        assert(ascii_lowercase(tag@) =~= "h1"@);
        1
    } else if b == '2' {
        assert(ascii_lowercase(tag@) =~= "h2"@);
        2
    } else if b == '3' {
        assert(ascii_lowercase(tag@) =~= "h3"@);
        3
    } else if b == '4' {
        assert(ascii_lowercase(tag@) =~= "h4"@);
        4
    } else if b == '5' {
        assert(ascii_lowercase(tag@) =~= "h5"@);
        5
    } else if b == '6' {
        assert(ascii_lowercase(tag@) =~= "h6"@);
        6
    } else {
        assert(ascii_lowercase(tag@)[1] == b);
        0
    }
}

/// A heading tag `h1`…`h6`, with its `h` in either case, has its number as
/// outline level; every other tag name has none (level 0).
pub proof fn law_heading_levels(tag: Seq<char>)
    ensures
        (tag.len() == 2 && (tag[0] == 'h' || tag[0] == 'H') && '1' <= tag[1] <= '6') ==> heading_level(tag)
            == (tag[1] as u32) - 48,
        !(tag.len() == 2 && (tag[0] == 'h' || tag[0] == 'H') && '1' <= tag[1] <= '6') ==> heading_level(tag)
            == 0,
{
    reveal_strlit("h1");
    reveal_strlit("h2");
    reveal_strlit("h3");
    reveal_strlit("h4");
    reveal_strlit("h5");
    reveal_strlit("h6");
    let l = ascii_lowercase(tag);
    if tag.len() == 2 {
        assert(l[0] == ascii_lower(tag[0]) && l[1] == ascii_lower(tag[1]));
        assert(l =~= seq![ascii_lower(tag[0]), ascii_lower(tag[1])]);
        assert("h1"@ =~= seq!['h', '1']);
        assert("h2"@ =~= seq!['h', '2']);
        assert("h3"@ =~= seq!['h', '3']);
        assert("h4"@ =~= seq!['h', '4']);
        assert("h5"@ =~= seq!['h', '5']);
        assert("h6"@ =~= seq!['h', '6']);
    } else {
        assert(l.len() != 2);
    }
}

// ───────────────────────── bookmarks from the page ─────────────────────────

/// The value of a bookmark: level, title, destination name.
pub open spec fn entry_view(e: BEntry) -> (u32, Seq<char>, Seq<char>) {
    (e.level, e.title@, e.dest_name@)
}

/// The values of bookmarks.
pub open spec fn entry_views(v: Seq<BEntry>) -> Seq<(u32, Seq<char>, Seq<char>)> {
    v.map_values(|e: BEntry| entry_view(e))
}

/// The attribute selector that picks the element whose `id` is `id` (`\`
/// and `"` escaped).
pub open spec fn id_selector(id: Seq<char>) -> Seq<char> {
    "[id=\""@ + replaced(replaced(id, "\\"@, "\\\\"@), "\""@, "\\\""@) + "\"]"@
}

/// The bookmark a picked element makes for `id`: none unless it is a
/// heading with some text besides whitespace.
pub open spec fn entry_of(p: PickedView, id: Seq<char>) -> Option<(u32, Seq<char>, Seq<char>)> {
    let level = heading_level(p.name);
    let title = trim(p.text);
    if level == 0 || title.len() == 0 {
        None
    } else {
        Some((level, title, id))
    }
}

/// The bookmark of the first element of the page whose `id` is `id`.
pub open spec fn heading_by_id(html: Seq<char>, id: Seq<char>) -> Option<(u32, Seq<char>, Seq<char>)> {
    match html_picked(html, id_selector(id), "id"@) {
        Some(ps) => if ps.len() > 0 {
            entry_of(ps[0], id)
        } else {
            None
        },
        None => None,
    }
}

/// Bookmarks by the `.header` anchors, in order: an anchor `#id` not seen
/// before gives the bookmark of the heading with that id, if there is one.
pub open spec fn by_anchors(html: Seq<char>, hs: Seq<PickedView>, seen: Seq<Seq<char>>) -> Seq<
    (u32, Seq<char>, Seq<char>),
>
    decreases hs.len(),
{
    if hs.len() == 0 {
        seq![]
    } else {
        let rest = by_anchors(html, hs.drop_first(), seen);
        match hs[0].attr {
            Some(h) => if h.len() > 0 && h[0] == '#' && !seen.contains(h.skip(1)) {
                match heading_by_id(html, h.skip(1)) {
                    Some(e) => seq![e] + by_anchors(html, hs.drop_first(), seen.push(h.skip(1))),
                    None => rest,
                }
            } else {
                rest
            },
            None => rest,
        }
    }
}

/// Bookmarks straight from the headings with an `id`, in order, each id
/// once.
pub open spec fn by_headings(hs: Seq<PickedView>, seen: Seq<Seq<char>>) -> Seq<(u32, Seq<char>, Seq<char>)>
    decreases hs.len(),
{
    if hs.len() == 0 {
        seq![]
    } else {
        let rest = by_headings(hs.drop_first(), seen);
        match hs[0].attr {
            Some(id) => if id.len() > 0 && !seen.contains(id) {
                match entry_of(hs[0], id) {
                    Some(e) => seq![e] + by_headings(hs.drop_first(), seen.push(id)),
                    None => rest,
                }
            } else {
                rest
            },
            None => rest,
        }
    }
}

/// The bookmarks of a page: by its `.header` anchors (mdbook's own
/// layout); when that gives none, straight from its `h1`…`h6` with an `id`.
pub open spec fn bookmark_entries(html: Seq<char>) -> Seq<(u32, Seq<char>, Seq<char>)> {
    let first = match html_picked(html, "a.header[href]"@, "href"@) {
        Some(hs) => by_anchors(html, hs, seq![]),
        None => seq![],
    };
    if first.len() > 0 {
        first
    } else {
        match html_picked(html, "h1[id], h2[id], h3[id], h4[id], h5[id], h6[id]"@, "id"@) {
            Some(hs) => by_headings(hs, seq![]),
            None => seq![],
        }
    }
}

fn seen_contains(seen: &Vec<Vec<char>>, id: &Vec<char>) -> (r: bool)
    ensures
        r == crate::text::vviews(seen@).contains(id@),
{
    let mut i: usize = 0;
    while i < seen.len()
        invariant
            i <= seen.len(),
            forall|k: int| 0 <= k < i ==> seen@[k]@ != id@,
        decreases seen.len() - i,
    {
        if crate::text::chars_eq(&seen[i], id) {
            assert(crate::text::vviews(seen@)[i as int] == id@);
            return true;
        }
        i = i + 1;
    }
    assert forall|k: int| 0 <= k < crate::text::vviews(seen@).len() implies crate::text::vviews(seen@)[k] != id@ by {
        assert(crate::text::vviews(seen@)[k] == seen@[k]@);
    }
    false
}

fn entry_from(p: &Picked, id: &Vec<char>) -> (r: Option<BEntry>)
    ensures
        match r {
            Some(e) => entry_of(p@, id@) == Some(entry_view(e)),
            None => entry_of(p@, id@) is None,
        },
{
    let level = tag_to_level(p.name.as_str());
    let t = to_chars(p.text.as_str());
    let (a, b) = crate::text::trim_range(&t, 0, t.len());
    assert(t@.subrange(0, t.len() as int) =~= t@);
    if level == 0 || a == b {
        return None;
    }
    let mut title = String::new();
    crate::text::push_range(&mut title, &t, a, b);
    Some(BEntry { level, title, dest_name: crate::text::from_chars(id) })
}

/// The bookmark of the first element whose `id` is `target_id` (see
/// `heading_by_id`).
pub fn find_heading_by_id(html: &str, target_id: &str) -> (r: Option<BEntry>)
    ensures
        match r {
            Some(e) => heading_by_id(html@, target_id@) == Some(entry_view(e)),
            None => heading_by_id(html@, target_id@) is None,
        },
{
    let id = to_chars(target_id);
    proof {
        reveal_strlit("\\");
        reveal_strlit("\"");
    }
    let e1 = crate::text::replace_str(&id, "\\", "\\\\");
    let e2 = crate::text::replace_str(&e1, "\"", "\\\"");
    let mut sel = String::new();
    sel.append("[id=\"");
    crate::text::push_all(&mut sel, &e2);
    sel.append("\"]");
    proof {
        reveal_strlit("\\");
        reveal_strlit("\"");
    }
    match select_elements(html, sel.as_str(), "id") {
        Some(ps) => {
            if ps.len() > 0 {
                assert(picked_views(ps@)[0] == ps@[0]@);
                entry_from(&ps[0], &id)
            } else {
                None
            }
        },
        None => None,
    }
}

fn anchor_entries(html: &str, hs: &Vec<Picked>) -> (r: Vec<BEntry>)
    ensures
        entry_views(r@) == by_anchors(html@, picked_views(hs@), seq![]),
{
    let mut out: Vec<BEntry> = Vec::new();
    let mut seen: Vec<Vec<char>> = Vec::new();
    let mut i: usize = 0;
    let ghost ps = picked_views(hs@);
    assert(ps.skip(0) =~= ps);
    assert(crate::text::vviews(seen@) =~= seq![]);
    assert(entry_views(out@) =~= seq![]);
    while i < hs.len()
        invariant
            i <= hs.len(),
            ps == picked_views(hs@),
            by_anchors(html@, ps, seq![]) == entry_views(out@) + by_anchors(
                html@,
                ps.skip(i as int),
                crate::text::vviews(seen@),
            ),
        decreases hs.len() - i,
    {
        let ghost rest = ps.skip(i as int);
        let ghost sv = crate::text::vviews(seen@);
        assert(rest.drop_first() =~= ps.skip(i + 1));
        assert(rest[0] == hs@[i as int]@);
        match &hs[i].attr {
            Some(h) => {
                let hv = to_chars(h.as_str());
                if hv.len() > 0 && hv[0] == '#' {
                    let mut idv: Vec<char> = Vec::new();
                    crate::text::extend_range(&mut idv, &hv, 1, hv.len());
                    assert(idv@ =~= h@.skip(1));
                    if !seen_contains(&seen, &idv) {
                        let ids = crate::text::from_chars(&idv);
                        match find_heading_by_id(html, ids.as_str()) {
                            Some(e) => {
                                let ghost prev = entry_views(out@);
                                let ghost ev = entry_view(e);
                                let ghost tail = by_anchors(html@, rest.drop_first(), sv.push(h@.skip(1)));
                                assert(by_anchors(html@, rest, sv) == seq![ev] + tail);
                                out.push(e);
                                seen.push(idv);
                                assert(entry_views(out@) =~= prev.push(ev));
                                assert(crate::text::vviews(seen@) =~= sv.push(h@.skip(1)));
                                assert(prev + (seq![ev] + tail) =~= prev.push(ev) + tail);
                            },
                            None => {},
                        }
                    }
                }
            },
            None => {},
        }
        i = i + 1;
    }
    assert(ps.skip(i as int) =~= seq![]);
    assert(entry_views(out@) + seq![] =~= entry_views(out@));
    out
}

fn heading_entries(hs: &Vec<Picked>) -> (r: Vec<BEntry>)
    ensures
        entry_views(r@) == by_headings(picked_views(hs@), seq![]),
{
    let mut out: Vec<BEntry> = Vec::new();
    let mut seen: Vec<Vec<char>> = Vec::new();
    let mut i: usize = 0;
    let ghost ps = picked_views(hs@);
    assert(ps.skip(0) =~= ps);
    assert(crate::text::vviews(seen@) =~= seq![]);
    assert(entry_views(out@) =~= seq![]);
    while i < hs.len()
        invariant
            i <= hs.len(),
            ps == picked_views(hs@),
            by_headings(ps, seq![]) == entry_views(out@) + by_headings(ps.skip(i as int), crate::text::vviews(seen@)),
        decreases hs.len() - i,
    {
        let ghost rest = ps.skip(i as int);
        let ghost sv = crate::text::vviews(seen@);
        assert(rest.drop_first() =~= ps.skip(i + 1));
        assert(rest[0] == hs@[i as int]@);
        match &hs[i].attr {
            Some(h) => {
                let idv = to_chars(h.as_str());
                if idv.len() > 0 && !seen_contains(&seen, &idv) {
                    match entry_from(&hs[i], &idv) {
                        Some(e) => {
                            let ghost prev = entry_views(out@);
                            let ghost ev = entry_view(e);
                            let ghost tail = by_headings(rest.drop_first(), sv.push(h@));
                            assert(by_headings(rest, sv) == seq![ev] + tail);
                            out.push(e);
                            seen.push(idv);
                            assert(entry_views(out@) =~= prev.push(ev));
                            assert(crate::text::vviews(seen@) =~= sv.push(h@));
                            assert(prev + (seq![ev] + tail) =~= prev.push(ev) + tail);
                        },
                        None => {},
                    }
                }
            },
            None => {},
        }
        i = i + 1;
    }
    assert(ps.skip(i as int) =~= seq![]);
    assert(entry_views(out@) + seq![] =~= entry_views(out@));
    out
}

/// The bookmarks of a page (see `bookmark_entries`).
pub fn extract_bookmark_entries(html: &str) -> (r: Vec<BEntry>)
    ensures
        entry_views(r@) == bookmark_entries(html@),
{
    let first = match select_elements(html, "a.header[href]", "href") {
        Some(hs) => anchor_entries(html, &hs),
        None => Vec::new(),
    };
    if first.len() > 0 {
        return first;
    }
    assert(entry_views(first@).len() == 0);
    match select_elements(html, "h1[id], h2[id], h3[id], h4[id], h5[id], h6[id]", "id") {
        Some(hs) => heading_entries(&hs),
        None => {
            let v: Vec<BEntry> = Vec::new();
            assert(entry_views(v@) =~= seq![]);
            v
        },
    }
}

// ───────────────────────── the XMP packet ─────────────────────────

/// A metadata value with `&`, `<` and `>` written as entities.
pub open spec fn xmp_escaped(s: Seq<char>) -> Seq<char>
    decreases s.len(),
{
    if s.len() == 0 {
        seq![]
    } else {
        let c = s.last();
        xmp_escaped(s.drop_last()) + if c == '&' {
            "&amp;"@
        } else if c == '<' {
            "&lt;"@
        } else if c == '>' {
            "&gt;"@
        } else {
            seq![c]
        }
    }
}

/// Appends a metadata value, escaped.
fn push_xmp_escaped(out: &mut String, s: &str)
    ensures
        final(out)@ == old(out)@ + xmp_escaped(s@),
{
    let cs = to_chars(s);
    let mut i: usize = 0;
    while i < cs.len()
        invariant
            i <= cs.len(),
            cs@ == s@,
            out@ == old(out)@ + xmp_escaped(cs@.take(i as int)),
        decreases cs.len() - i,
    {
        assert(cs@.take(i + 1).drop_last() =~= cs@.take(i as int));
        let c = cs[i];
        if c == '&' {
            out.append("&amp;");
        } else if c == '<' {
            out.append("&lt;");
        } else if c == '>' {
            out.append("&gt;");
        } else {
            push_char(out, c);
        }
        i = i + 1;
    }
    assert(cs@.take(cs.len() as int) =~= cs@);
}

/// The head of the packet, up to the open `rdf:Description`.
pub const XMP_HEAD: &'static str = "<?xpacket begin=\"\\u{FEFF}\" id=\"W5M0MpCehiHzreSzNTczkc9d\"?>\n<x:xmpmeta xmlns:x=\"adobe:ns:meta/\">\n<rdf:RDF xmlns:rdf=\"http://www.w3.org/1999/02/22-rdf-syntax-ns#\">\n<rdf:Description rdf:about=\"\" xmlns:dc=\"http://purl.org/dc/elements/1.1/\">";

/// The tail of the packet, from the closing `rdf:Description` on.
pub const XMP_TAIL: &'static str = "\n</rdf:Description>\n</rdf:RDF>\n</x:xmpmeta>\n<?xpacket end=\"w\"?>";

/// The XMP metadata packet of the PDF: a Dublin Core title and creator,
/// each present when given, on lines of their own.
pub open spec fn xmp_packet(title: Option<Seq<char>>, author: Option<Seq<char>>) -> Seq<char> {
    XMP_HEAD@ + match title {
        Some(t) => "\n<dc:title><rdf:Alt><rdf:li xml:lang=\"x-default\">"@ + xmp_escaped(t)
            + "</rdf:li></rdf:Alt></dc:title>"@,
        None => seq![],
    } + match author {
        Some(a) => "\n<dc:creator><rdf:Seq><rdf:li>"@ + xmp_escaped(a)
            + "</rdf:li></rdf:Seq></dc:creator>"@,
        None => seq![],
    } + XMP_TAIL@
}

/// Builds the XMP metadata packet (see `xmp_packet`).
pub fn build_xmp(title: Option<&str>, author: Option<&str>) -> (r: String)
    ensures
        r@ == xmp_packet(
            match title {
                Some(t) => Some(t@),
                None => None,
            },
            match author {
                Some(a) => Some(a@),
                None => None,
            },
        ),
{
    let mut r = String::new();
    r.append(XMP_HEAD);
    match title {
        Some(t) => {
            r.append("\n<dc:title><rdf:Alt><rdf:li xml:lang=\"x-default\">");
            push_xmp_escaped(&mut r, t);
            r.append("</rdf:li></rdf:Alt></dc:title>");
        },
        None => {},
    }
    match author {
        Some(a) => {
            r.append("\n<dc:creator><rdf:Seq><rdf:li>");
            push_xmp_escaped(&mut r, a);
            r.append("</rdf:li></rdf:Seq></dc:creator>");
        },
        None => {},
    }
    r.append(XMP_TAIL);
    r
}

// ───────────────────────── destination names ─────────────────────────

/// The value of a hexadecimal digit byte (either case).
pub open spec fn hex_value(b: u8) -> Option<u8> {
    if 48 <= b <= 57 {
        Some((b - 48) as u8)
    } else if 97 <= b <= 102 {
        Some((b - 97 + 10) as u8)
    } else if 65 <= b <= 70 {
        Some((b - 65 + 10) as u8)
    } else {
        None
    }
}

/// The value of a hexadecimal digit byte.
pub fn hex_val(b: u8) -> (r: Option<u8>)
    ensures
        r == hex_value(b),
{
    if 48 <= b && b <= 57 {
        Some(b - 48)
    } else if 97 <= b && b <= 102 {
        Some(b - 97 + 10)
    } else if 65 <= b && b <= 70 {
        Some(b - 65 + 10)
    } else {
        None
    }
}

/// From position `i` on, the bytes with each `%XY` (two hexadecimal digits,
/// the `%` not among the last two bytes) replaced by the byte `0xXY`.
pub open spec fn percent_decoded_from(bs: Seq<u8>, i: int) -> Seq<u8>
    decreases bs.len() - i,
{
    if i < 0 || i >= bs.len() {
        seq![]
    } else if bs[i] == 37 && i + 2 < bs.len() && hex_value(bs[i + 1]) is Some && hex_value(
        bs[i + 2],
    ) is Some {
        seq![(hex_value(bs[i + 1])->0 * 16 + hex_value(bs[i + 2])->0) as u8] + percent_decoded_from(
            bs,
            i + 3,
        )
    } else {
        seq![bs[i]] + percent_decoded_from(bs, i + 1)
    }
}

/// What `String::from_utf8_lossy` gives for `bytes`: the text they encode,
/// each invalid sequence replaced by U+FFFD.
pub uninterp spec fn utf8_lossy(bytes: Seq<u8>) -> Seq<char>;

/// `String::from_utf8_lossy`: its documentation promises that valid UTF-8
/// comes back as the text it encodes; what an invalid sequence becomes is
/// named by `utf8_lossy` and not stated.
#[verifier::external_body]
fn from_utf8_lossy(bytes: &[u8]) -> (r: String)
    ensures
        r@ == utf8_lossy(bytes@),
        valid_utf8(bytes@) ==> r@ == decode_utf8(bytes@),
{
    String::from_utf8_lossy(bytes).into_owned()
}

/// Percent-decodes a destination name, then reads the bytes as UTF-8
/// (lossily).
pub fn percent_decode_to_lossy(bytes: &[u8]) -> (r: String)
    ensures
        r@ == utf8_lossy(percent_decoded_from(bytes@, 0)),
        valid_utf8(percent_decoded_from(bytes@, 0)) ==> r@ == decode_utf8(
            percent_decoded_from(bytes@, 0),
        ),
{
    let mut decoded: Vec<u8> = Vec::new();
    let mut i: usize = 0;
    while i < bytes.len()
        invariant
            i <= bytes.len(),
            percent_decoded_from(bytes@, 0) == decoded@ + percent_decoded_from(bytes@, i as int),
        decreases bytes.len() - i,
    {
        if bytes[i] == 37 && bytes.len() - i > 2 {
            let hi = hex_val(bytes[i + 1]);
            let lo = hex_val(bytes[i + 2]);
            match (hi, lo) {
                (Some(h), Some(l)) => {
                    assert(h < 16 && l < 16);
                    let v: u8 = (h << 4) | l;
                    assert((h << 4) | l == h * 16 + l) by (bit_vector)
                        requires
                            h < 16,
                            l < 16,
                    ;
                    decoded.push(v);
                    assert(decoded@ + percent_decoded_from(bytes@, i + 3) =~= decoded@.drop_last()
                        + percent_decoded_from(bytes@, i as int));
                    i = i + 3;
                    continue;
                },
                _ => {},
            }
        }
        decoded.push(bytes[i]);
        assert(decoded@ + percent_decoded_from(bytes@, i + 1) =~= decoded@.drop_last()
            + percent_decoded_from(bytes@, i as int));
        i = i + 1;
    }
    assert(decoded@ + percent_decoded_from(bytes@, i as int) =~= decoded@);
    from_utf8_lossy(decoded.as_slice())
}

proof fn lemma_no_percent_from(bs: Seq<u8>, i: int)
    requires
        0 <= i <= bs.len(),
        forall|j: int| 0 <= j < bs.len() ==> #[trigger] bs[j] != 37,
    ensures
        percent_decoded_from(bs, i) == bs.skip(i),
    decreases bs.len() - i,
{
    if i < bs.len() {
        lemma_no_percent_from(bs, i + 1);
        assert(bs.skip(i) =~= seq![bs[i]] + bs.skip(i + 1));
    } else {
        assert(bs.skip(i) =~= Seq::<u8>::empty());
    }
}

/// Bytes with no `%` are left as they are by the decoding.
pub proof fn law_no_percent_no_change(bs: Seq<u8>)
    requires
        forall|j: int| 0 <= j < bs.len() ==> #[trigger] bs[j] != 37,
    ensures
        percent_decoded_from(bs, 0) == bs,
{
    lemma_no_percent_from(bs, 0);
    assert(bs.skip(0) =~= bs);
}


// ───────────────────────── PDF text strings ─────────────────────────

/// A PDF text string: ASCII text as a literal string, any other text as a
/// hexadecimal string of UTF-16BE with its byte order mark.
pub enum PdfString {
    Literal(String),
    Hexadecimal(Vec<u8>),
}

/// The UTF-16 code units of a character.
pub open spec fn utf16_of(c: char) -> Seq<u16> {
    let u = c as u32;
    if u < 0x10000 {
        seq![u as u16]
    } else {
        let v = (u - 0x10000) as int;
        seq![(0xD800 + v / 1024) as u16, (0xDC00 + v % 1024) as u16]
    }
}

/// The big-endian bytes of UTF-16 code units.
pub open spec fn units_be(us: Seq<u16>) -> Seq<u8>
    decreases us.len(),
{
    if us.len() == 0 {
        seq![]
    } else {
        seq![(us[0] / 256) as u8, (us[0] % 256) as u8] + units_be(us.drop_first())
    }
}

/// The UTF-16BE bytes of a text.
pub open spec fn utf16_be(s: Seq<char>) -> Seq<u8>
    decreases s.len(),
{
    if s.len() == 0 {
        seq![]
    } else {
        utf16_be(s.drop_last()) + units_be(utf16_of(s.last()))
    }
}

/// The PDF string of a text (see `PdfString`).
pub open spec fn pdf_text(s: Seq<char>) -> (bool, Seq<u8>) {
    if crate::text::is_ascii(s) {
        (true, seq![])
    } else {
        (false, seq![0xFEu8, 0xFFu8] + utf16_be(s))
    }
}

fn push_unit(buf: &mut Vec<u8>, u: u16)
    ensures
        final(buf)@ == old(buf)@ + units_be(seq![u]),
{
    buf.push((u / 256) as u8);
    buf.push((u % 256) as u8);
    proof {
        assert(seq![u].drop_first() =~= Seq::<u16>::empty());
        assert(units_be(Seq::<u16>::empty()) == Seq::<u8>::empty());
        assert(units_be(seq![u]) =~= seq![(u / 256) as u8, (u % 256) as u8]);
    }
}

/// Encodes a text as a PDF string: a literal when it is ASCII, UTF-16BE
/// with a byte order mark otherwise.
pub fn pdf_string(text: &str) -> (r: PdfString)
    ensures
        match r {
            PdfString::Literal(t) => crate::text::is_ascii(text@) && t@ == text@,
            PdfString::Hexadecimal(b) => !crate::text::is_ascii(text@) && b@ == pdf_text(text@).1,
        },
{
    let cs = to_chars(text);
    let mut ascii = true;
    let mut i: usize = 0;
    while i < cs.len()
        invariant
            i <= cs.len(),
            cs@ == text@,
            ascii == (forall|k: int| 0 <= k < i ==> (#[trigger] cs@[k] as u32) < 128u32),
        decreases cs.len() - i,
    {
        if (cs[i] as u32) >= 128 {
            ascii = false;
        }
        i = i + 1;
    }
    if ascii {
        return PdfString::Literal(text.to_string());
    }
    let mut buf: Vec<u8> = vec![0xFE, 0xFF];
    let ghost start = buf@;
    let mut k: usize = 0;
    while k < cs.len()
        invariant
            k <= cs.len(),
            cs@ == text@,
            start == seq![0xFEu8, 0xFFu8],
            buf@ == start + utf16_be(cs@.take(k as int)),
        decreases cs.len() - k,
    {
        let u = cs[k] as u32;
        let ghost before = buf@;
        if u < 0x10000 {
            push_unit(&mut buf, u as u16);
            assert(utf16_of(cs@[k as int]) =~= seq![u as u16]);
        } else {
            let v = u - 0x10000;
            push_unit(&mut buf, (0xD800 + v / 1024) as u16);
            push_unit(&mut buf, (0xDC00 + v % 1024) as u16);
            let ghost hi = (0xD800 + v / 1024) as u16;
            let ghost lo = (0xDC00 + v % 1024) as u16;
            assert(utf16_of(cs@[k as int]) =~= seq![hi, lo]);
            assert(seq![hi, lo].drop_first() =~= seq![lo]);
            assert(seq![lo].drop_first() =~= Seq::<u16>::empty());
            proof {
                reveal_with_fuel(units_be, 3);
                assert(units_be(seq![hi, lo]) =~= units_be(seq![hi]) + units_be(seq![lo]));
            }
        }
        assert(cs@.take(k + 1).drop_last() =~= cs@.take(k as int));
        k = k + 1;
    }
    assert(cs@.take(cs.len() as int) =~= cs@);
    PdfString::Hexadecimal(buf)
}


// ───────────────────────── the outline tree ─────────────────────────
//
// The bookmarks form a tree read off their levels alone: an entry's parent is
// the nearest entry before it with a lower level. `lv` below is the sequence
// of the entries' levels, in document order.

/// The last entry at or before `j` whose level is below `x`.
pub open spec fn lower_at_or_before(lv: Seq<u32>, x: u32, j: int) -> Option<int>
    decreases j + 1,
{
    if j < 0 || j >= lv.len() {
        None
    } else if lv[j] < x {
        Some(j)
    } else {
        lower_at_or_before(lv, x, j - 1)
    }
}

/// The parent of entry `i`: the nearest entry before it with a lower level;
/// none for a top-level entry.
pub open spec fn outline_parent(lv: Seq<u32>, i: int) -> Option<int> {
    lower_at_or_before(lv, lv[i], i - 1)
}

/// The first entry at or after `k` whose parent is `p`.
pub open spec fn first_under(lv: Seq<u32>, p: Option<int>, k: int) -> Option<int>
    decreases lv.len() - k,
{
    if k < 0 || k >= lv.len() {
        None
    } else if outline_parent(lv, k) == p {
        Some(k)
    } else {
        first_under(lv, p, k + 1)
    }
}

/// The last entry at or before `k` whose parent is `p`.
pub open spec fn last_under(lv: Seq<u32>, p: Option<int>, k: int) -> Option<int>
    decreases k + 1,
{
    if k < 0 || k >= lv.len() {
        None
    } else if outline_parent(lv, k) == p {
        Some(k)
    } else {
        last_under(lv, p, k - 1)
    }
}

/// The first entry at or after `m` whose level is not above that of entry
/// `i`; the number of entries if there is none.
pub open spec fn subtree_end(lv: Seq<u32>, i: int, m: int) -> int
    decreases lv.len() - m,
{
    if m < 0 || m >= lv.len() {
        lv.len() as int
    } else if lv[m] <= lv[i] {
        m
    } else {
        subtree_end(lv, i, m + 1)
    }
}

/// The number of descendants of entry `i`: the entries after it up to the
/// next one whose level is not above its own.
pub open spec fn descendants(lv: Seq<u32>, i: int) -> int {
    subtree_end(lv, i, i + 1) - i - 1
}

/// Whether entry `i` is an ancestor of entry `k`.
pub open spec fn is_ancestor(lv: Seq<u32>, i: int, k: int) -> bool
    decreases k,
{
    if k <= 0 || k >= lv.len() {
        false
    } else {
        match outline_parent(lv, k) {
            Some(p) => p == i || (0 <= p < k && is_ancestor(lv, i, p)),
            None => false,
        }
    }
}

proof fn lemma_lower(lv: Seq<u32>, x: u32, j: int)
    requires
        j < lv.len(),
    ensures
        match lower_at_or_before(lv, x, j) {
            Some(p) => 0 <= p <= j && lv[p] < x && forall|m: int| p < m <= j ==> lv[m] >= x,
            None => forall|m: int| 0 <= m <= j ==> lv[m] >= x,
        },
    decreases j + 1,
{
    if j >= 0 && lv[j] >= x {
        lemma_lower(lv, x, j - 1);
    }
}

proof fn lemma_subtree_end(lv: Seq<u32>, i: int, m: int)
    requires
        0 <= i < m <= lv.len(),
    ensures
        m <= subtree_end(lv, i, m) <= lv.len(),
        forall|q: int| m <= q < subtree_end(lv, i, m) ==> lv[q] > lv[i],
        subtree_end(lv, i, m) < lv.len() ==> lv[subtree_end(lv, i, m)] <= lv[i],
    decreases lv.len() - m,
{
    if m < lv.len() && lv[m] > lv[i] {
        lemma_subtree_end(lv, i, m + 1);
    }
}

/// Entry `i` is an ancestor of entry `k` exactly when every entry after `i`
/// up to `k` has a level above that of `i`.
proof fn lemma_ancestor_run(lv: Seq<u32>, i: int, k: int)
    requires
        0 <= i < k < lv.len(),
    ensures
        is_ancestor(lv, i, k) <==> (forall|q: int| i < q <= k ==> lv[q] > lv[i]),
    decreases k,
{
    lemma_lower(lv, lv[k], k - 1);
    match outline_parent(lv, k) {
        Some(p) => {
            if p > i {
                lemma_ancestor_run(lv, i, p);
                if is_ancestor(lv, i, k) {
                    assert forall|q: int| i < q <= k implies lv[q] > lv[i] by {
                        if q > p {
                            assert(lv[q] >= lv[k]);
                        }
                    }
                } else {
                    assert(!is_ancestor(lv, i, p));
                    let q = choose|q: int| i < q <= p && !(lv[q] > lv[i]);
                    assert(lv[q] <= lv[i]);
                }
            } else if p == i {
                assert forall|q: int| i < q <= k implies lv[q] > lv[i] by {
                    if q < k {
                        assert(lv[q] >= lv[k]);
                    }
                }
            } else {
                // The parent lies before `i`, so `i` itself is not below `k`'s level.
                assert(lv[i] >= lv[k]);
                assert(!is_ancestor(lv, i, k)) by {
                    lemma_not_ancestor_before(lv, i, p);
                }
            }
        },
        None => {
            assert(lv[i] >= lv[k]);
        },
    }
}

/// No entry is an ancestor of an entry at or before it.
proof fn lemma_not_ancestor_before(lv: Seq<u32>, i: int, k: int)
    requires
        k <= i,
    ensures
        !is_ancestor(lv, i, k),
    decreases k,
{
    if 0 < k < lv.len() {
        lemma_lower(lv, lv[k], k - 1);
        match outline_parent(lv, k) {
            Some(p) => {
                if 0 <= p < k {
                    lemma_not_ancestor_before(lv, i, p);
                }
            },
            None => {},
        }
    }
}


/// The links of one entry of the outline, by entry index: its parent, its
/// first and last child, its previous and next sibling, and the number of its
/// descendants (`/Parent`, `/First`, `/Last`, `/Prev`, `/Next`, `/Count`).
#[derive(Clone, Copy, Debug, PartialEq, Eq)]
pub struct OutlineLinks {
    pub parent: Option<usize>,
    pub first: Option<usize>,
    pub last: Option<usize>,
    pub prev: Option<usize>,
    pub next: Option<usize>,
    pub count: usize,
}

/// The outline's root: its first and last top-level entry and the number of
/// entries under it.
#[derive(Clone, Copy, Debug, PartialEq, Eq)]
pub struct OutlineRoot {
    pub first: usize,
    pub last: usize,
    pub count: usize,
}

/// `r` holds the links of entry `i`: its children and siblings are the
/// entries with it, or with its parent, as parent, nearest first or last.
pub open spec fn links_agree(r: OutlineLinks, lv: Seq<u32>, i: int) -> bool {
    &&& opt_int(r.parent) == outline_parent(lv, i)
    &&& opt_int(r.first) == first_under(lv, Some(i), i + 1)
    &&& opt_int(r.last) == last_under(lv, Some(i), lv.len() - 1)
    &&& opt_int(r.prev) == last_under(lv, outline_parent(lv, i), i - 1)
    &&& opt_int(r.next) == first_under(lv, outline_parent(lv, i), i + 1)
    &&& r.count == descendants(lv, i)
}

fn same_entry(a: Option<usize>, b: Option<usize>) -> (r: bool)
    ensures
        r == (opt_int(a) == opt_int(b)),
{
    match (a, b) {
        (Some(x), Some(y)) => x == y,
        (None, None) => true,
        _ => false,
    }
}

fn nearest_lower(lv: &Vec<u32>, i: usize) -> (r: Option<usize>)
    requires
        i < lv.len(),
    ensures
        opt_int(r) == outline_parent(lv@, i as int),
{
    let x = lv[i];
    let mut j = i;
    while j > 0
        invariant
            j <= i < lv.len(),
            x == lv@[i as int],
            lower_at_or_before(lv@, x, i - 1) == lower_at_or_before(lv@, x, j - 1),
        decreases j,
    {
        if lv[j - 1] < x {
            return Some(j - 1);
        }
        j = j - 1;
    }
    None
}

/// The parents of all the entries.
fn outline_parents(lv: &Vec<u32>) -> (r: Vec<Option<usize>>)
    ensures
        r.len() == lv.len(),
        forall|k: int| 0 <= k < lv.len() ==> opt_int(#[trigger] r@[k]) == outline_parent(lv@, k),
{
    let mut parents: Vec<Option<usize>> = Vec::new();
    let mut i: usize = 0;
    while i < lv.len()
        invariant
            i <= lv.len(),
            parents.len() == i,
            forall|k: int| 0 <= k < i ==> opt_int(#[trigger] parents@[k]) == outline_parent(lv@, k),
        decreases lv.len() - i,
    {
        parents.push(nearest_lower(lv, i));
        i = i + 1;
    }
    parents
}

fn first_under_exec(lv: &Vec<u32>, parents: &Vec<Option<usize>>, p: Option<usize>, from: usize) -> (r:
    Option<usize>)
    requires
        parents.len() == lv.len(),
        from <= lv.len(),
        forall|k: int| 0 <= k < lv.len() ==> opt_int(#[trigger] parents@[k]) == outline_parent(lv@, k),
    ensures
        opt_int(r) == first_under(lv@, opt_int(p), from as int),
{
    let mut k = from;
    while k < parents.len()
        invariant
            from <= k <= parents.len(),
            parents.len() == lv.len(),
            forall|m: int| 0 <= m < lv.len() ==> opt_int(#[trigger] parents@[m]) == outline_parent(lv@, m),
            first_under(lv@, opt_int(p), from as int) == first_under(lv@, opt_int(p), k as int),
        decreases parents.len() - k,
    {
        if same_entry(parents[k], p) {
            return Some(k);
        }
        k = k + 1;
    }
    None
}

fn last_under_exec(lv: &Vec<u32>, parents: &Vec<Option<usize>>, p: Option<usize>, end: usize) -> (r:
    Option<usize>)
    requires
        parents.len() == lv.len(),
        end <= lv.len(),
        forall|k: int| 0 <= k < lv.len() ==> opt_int(#[trigger] parents@[k]) == outline_parent(lv@, k),
    ensures
        opt_int(r) == last_under(lv@, opt_int(p), end - 1),
{
    let mut k = end;
    while k > 0
        invariant
            k <= end <= parents.len(),
            parents.len() == lv.len(),
            forall|m: int| 0 <= m < lv.len() ==> opt_int(#[trigger] parents@[m]) == outline_parent(lv@, m),
            last_under(lv@, opt_int(p), end - 1) == last_under(lv@, opt_int(p), k - 1),
        decreases k,
    {
        if same_entry(parents[k - 1], p) {
            return Some(k - 1);
        }
        k = k - 1;
    }
    None
}

fn subtree_end_exec(lv: &Vec<u32>, i: usize) -> (r: usize)
    requires
        i < lv.len(),
    ensures
        r == subtree_end(lv@, i as int, i + 1),
        i < r <= lv.len(),
{
    proof {
        lemma_subtree_end(lv@, i as int, i + 1);
    }
    let mut m = i + 1;
    while m < lv.len()
        invariant
            i < m <= lv.len(),
            subtree_end(lv@, i as int, i + 1) == subtree_end(lv@, i as int, m as int),
        decreases lv.len() - m,
    {
        if lv[m] <= lv[i] {
            return m;
        }
        m = m + 1;
    }
    m
}

/// The links of every entry of the outline whose levels are `levels`.
pub fn outline_links(levels: &Vec<u32>) -> (r: Vec<OutlineLinks>)
    ensures
        r.len() == levels.len(),
        forall|i: int| 0 <= i < levels.len() ==> links_agree(#[trigger] r@[i], levels@, i),
{
    let n = levels.len();
    let parents = outline_parents(levels);
    let mut out: Vec<OutlineLinks> = Vec::new();
    let mut i: usize = 0;
    while i < n
        invariant
            i <= n == levels.len() == parents.len(),
            out.len() == i,
            forall|k: int| 0 <= k < n ==> opt_int(#[trigger] parents@[k]) == outline_parent(levels@, k),
            forall|k: int| 0 <= k < i ==> links_agree(#[trigger] out@[k], levels@, k),
        decreases n - i,
    {
        let p = parents[i];
        let e = subtree_end_exec(levels, i);
        let links = OutlineLinks {
            parent: p,
            first: first_under_exec(levels, &parents, Some(i), i + 1),
            last: last_under_exec(levels, &parents, Some(i), n),
            prev: last_under_exec(levels, &parents, p, i),
            next: first_under_exec(levels, &parents, p, i + 1),
            count: e - i - 1,
        };
        out.push(links);
        i = i + 1;
    }
    out
}

/// The root of the outline whose levels are `levels`: none without entries;
/// else its first top-level entry is the first entry, its last is the last
/// entry without a parent, and every entry lies under it.
pub fn outline_root(levels: &Vec<u32>) -> (r: Option<OutlineRoot>)
    ensures
        r is None <==> levels.len() == 0,
        r matches Some(root) ==> {
            &&& root.first == 0
            &&& outline_parent(levels@, 0) is None
            &&& last_under(levels@, None, levels.len() - 1) == Some(root.last as int)
            &&& root.count == levels.len()
        },
{
    if levels.len() == 0 {
        return None;
    }
    let parents = outline_parents(levels);
    let last = last_under_exec(levels, &parents, None, levels.len());
    proof {
        lemma_last_top_exists(levels@, levels.len() - 1);
    }
    match last {
        Some(l) => Some(OutlineRoot { first: 0, last: l, count: levels.len() }),
        None => None,
    }
}

proof fn lemma_last_top_exists(lv: Seq<u32>, k: int)
    requires
        0 <= k < lv.len(),
    ensures
        last_under(lv, None, k) is Some,
    decreases k,
{
    if k > 0 && outline_parent(lv, k) is Some {
        lemma_last_top_exists(lv, k - 1);
    }
}


/// The top-level entries split the outline into blocks: a top-level entry, its
/// descendants, which all have a parent, then the next top-level entry, if any.
/// So the top-level entries and their descendants are all the entries, and the
/// root counts them all.
pub proof fn law_top_level_blocks(lv: Seq<u32>, t: int)
    requires
        0 <= t < lv.len(),
        outline_parent(lv, t) is None,
    ensures
        forall|k: int| t < k <= t + descendants(lv, t) ==> (#[trigger] outline_parent(lv, k)) is Some,
        t + descendants(lv, t) + 1 < lv.len() ==> outline_parent(lv, t + descendants(lv, t) + 1) is None,
{
    lemma_subtree_end(lv, t, t + 1);
    lemma_lower(lv, lv[t], t - 1);
    let e = subtree_end(lv, t, t + 1);
    assert forall|k: int| t < k <= t + descendants(lv, t) implies (#[trigger] outline_parent(lv, k)) is Some by {
        lemma_lower(lv, lv[k], k - 1);
        assert(lv[t] < lv[k]);
    }
    if e < lv.len() {
        lemma_lower(lv, lv[e], e - 1);
        assert forall|m: int| 0 <= m <= e - 1 implies lv[m] >= lv[e] by {
            if m < t {
                assert(lv[m] >= lv[t]);
            } else if m > t {
                assert(lv[m] > lv[t]);
            }
        }
    }
}

/// The descendants of an entry are the entries right after it, as many as
/// `descendants` counts: entry `k` lies under entry `i` exactly when `i < k`
/// and `k` comes before the next entry whose level is not above that of `i`.
pub proof fn law_outline_descendants(lv: Seq<u32>, i: int, k: int)
    requires
        0 <= i < k < lv.len(),
    ensures
        is_ancestor(lv, i, k) <==> k <= i + descendants(lv, i),
{
    lemma_ancestor_run(lv, i, k);
    lemma_subtree_end(lv, i, i + 1);
    let e = subtree_end(lv, i, i + 1);
    if k < e {
        assert forall|q: int| i < q <= k implies lv[q] > lv[i] by {}
    } else {
        assert(lv[e] <= lv[i]);
    }
}


/// `p` is the PDF string of `text` (see `pdf_string`).
pub open spec fn is_pdf_string_of(p: PdfString, text: Seq<char>) -> bool {
    match p {
        PdfString::Literal(t) => crate::text::is_ascii(text) && t@ == text,
        PdfString::Hexadecimal(b) => !crate::text::is_ascii(text) && b@ == pdf_text(text).1,
    }
}

/// Where a bookmark points: a page (object number and generation) found
/// among the document's named destinations, or else the destination's name
/// itself.
pub enum OutlineDest {
    Page(u32, u16),
    Named(PdfString),
}

/// One outline item as it is written into the PDF: its `/Title`, its
/// `/Dest` and its links to the other items.
pub struct OutlineItem {
    pub title: PdfString,
    pub dest: OutlineDest,
    pub links: OutlineLinks,
}

/// The page of the last named destination called `name` (a later entry of
/// the name tree overrides an earlier one).
pub open spec fn dest_page_of(dests: Seq<(Seq<char>, u32, u16)>, name: Seq<char>) -> Option<(u32, u16)>
    decreases dests.len(),
{
    if dests.len() == 0 {
        None
    } else if dests.last().0 == name {
        Some((dests.last().1, dests.last().2))
    } else {
        dest_page_of(dests.drop_last(), name)
    }
}

/// The views of named destinations.
pub open spec fn dest_views(d: Seq<(String, u32, u16)>) -> Seq<(Seq<char>, u32, u16)> {
    d.map_values(|x: (String, u32, u16)| (x.0@, x.1, x.2))
}

/// The levels of the bookmarks.
pub open spec fn entry_levels(v: Seq<BEntry>) -> Seq<u32> {
    v.map_values(|e: BEntry| e.level)
}

/// `item` is what entry `i` is written as: its title as a PDF string, its
/// page when the destinations name it (else the destination's name), and its
/// place in the outline tree.
pub open spec fn item_agrees(item: OutlineItem, entries: Seq<BEntry>, dests: Seq<(Seq<char>, u32, u16)>, i: int) -> bool {
    &&& is_pdf_string_of(item.title, entries[i].title@)
    &&& match dest_page_of(dests, entries[i].dest_name@) {
        Some((n, g)) => item.dest == OutlineDest::Page(n, g),
        None => item.dest matches OutlineDest::Named(p) && is_pdf_string_of(p, entries[i].dest_name@),
    }
    &&& links_agree(item.links, entry_levels(entries), i)
}

/// Looks up `dest_page_of`.
fn find_dest_page(dests: &Vec<(String, u32, u16)>, name: &str) -> (r: Option<(u32, u16)>)
    ensures
        r == dest_page_of(dest_views(dests@), name@),
{
    let mut k = dests.len();
    assert(dest_views(dests@).take(k as int) =~= dest_views(dests@));
    while k > 0
        invariant
            k <= dests.len(),
            dest_page_of(dest_views(dests@), name@) == dest_page_of(dest_views(dests@).take(k as int), name@),
        decreases k,
    {
        let ghost dv = dest_views(dests@).take(k as int);
        assert(dv.drop_last() =~= dest_views(dests@).take(k - 1));
        if crate::text::str_eq(dests[k - 1].0.as_str(), name) {
            return Some((dests[k - 1].1, dests[k - 1].2));
        }
        k = k - 1;
    }
    assert(dest_views(dests@).take(0) =~= Seq::<(Seq<char>, u32, u16)>::empty());
    None
}

/// The outline items of the bookmarks, given the document's named
/// destinations (name, page object number, generation).
pub fn outline_items(entries: &Vec<BEntry>, dests: &Vec<(String, u32, u16)>) -> (r: Vec<OutlineItem>)
    ensures
        r.len() == entries.len(),
        forall|i: int| 0 <= i < entries.len() ==> item_agrees(#[trigger] r@[i], entries@, dest_views(dests@), i),
{
    let mut levels: Vec<u32> = Vec::new();
    let mut k: usize = 0;
    while k < entries.len()
        invariant
            k <= entries.len(),
            levels@ == entry_levels(entries@).take(k as int),
        decreases entries.len() - k,
    {
        levels.push(entries[k].level);
        k = k + 1;
        assert(levels@ =~= entry_levels(entries@).take(k as int));
    }
    assert(levels@ =~= entry_levels(entries@));
    let links = outline_links(&levels);
    let mut out: Vec<OutlineItem> = Vec::new();
    let mut i: usize = 0;
    while i < entries.len()
        invariant
            i <= entries.len(),
            links.len() == entries.len(),
            levels@ == entry_levels(entries@),
            forall|m: int| 0 <= m < entries.len() ==> links_agree(#[trigger] links@[m], levels@, m),
            out.len() == i,
            forall|m: int| 0 <= m < i ==> item_agrees(#[trigger] out@[m], entries@, dest_views(dests@), m),
        decreases entries.len() - i,
    {
        let e = &entries[i];
        let dest = match find_dest_page(dests, e.dest_name.as_str()) {
            Some((n, g)) => OutlineDest::Page(n, g),
            None => OutlineDest::Named(pdf_string(e.dest_name.as_str())),
        };
        let item = OutlineItem { title: pdf_string(e.title.as_str()), dest, links: links[i] };
        out.push(item);
        i = i + 1;
    }
    out
}

} // verus!
