//! Tables of contents: EPUB 3 navigation documents, EPUB 2 NCX files,
//! nesting by depth, and the href-to-title map.

use vstd::prelude::*;
use crate::domain::TocItem;
use crate::epub_metadata::full_path;
use crate::epub_parser::EpubParser;
use crate::opf_utils::{keys_unique, map_get, map_insert, map_insert_exec, pair_views};
use crate::text::{
    before_first, before_first_chars, contains, contains_chars, decimal, decimal_chars,
    extend_chars, from_chars, str_views, to_chars, trim, trim_chars, views,
};
use crate::xml::{XmlEvent, XmlTag, eq_ignore_case, lit_bytes, name_is, read_events, xml_events};
use crate::xml_attrs::{last_attr, last_attr_exec, opt_view};

verus! {

/// `u8` increment that wraps from 255 to 0.
pub open spec fn inc8(d: u8) -> u8 {
    if d == 255 {
        0
    } else {
        (d + 1) as u8
    }
}

/// `u8::saturating_sub(1)`.
pub open spec fn dec8(d: u8) -> u8 {
    if d == 0 {
        0
    } else {
        (d - 1) as u8
    }
}

pub fn inc8_exec(d: u8) -> (r: u8)
    ensures
        r == inc8(d),
{
    if d == 255 {
        0
    } else {
        d + 1
    }
}

pub fn dec8_exec(d: u8) -> (r: u8)
    ensures
        r == dec8(d),
{
    if d == 0 {
        0
    } else {
        d - 1
    }
}

/// A generated entry: title, href, depth.
pub type TocEntry = (Seq<char>, Seq<char>, u8);

/// The table-of-contents entries built by a scan, as plain values.
pub open spec fn toc_items_are(r: Seq<TocItem>, es: Seq<TocEntry>) -> bool {
    &&& r.len() == es.len()
    &&& forall|i: int|
        0 <= i < r.len() ==> {
            &&& (#[trigger] r[i]).id@ == "toc-"@ + decimal(i as nat)
            &&& r[i].title@ == es[i].0
            &&& r[i].chapter_index is None
            &&& r[i].href matches Some(h) && h@ == es[i].1
            &&& r[i].depth == es[i].2
            &&& r[i].children@.len() == 0
            &&& !r[i].is_generated
        }
}

/// Href of an entry: fragment-only hrefs are kept, others joined to the base.
pub open spec fn entry_href(base: Seq<char>, href: Seq<char>) -> Seq<char> {
    if href.len() > 0 && href[0] == '#' {
        href
    } else {
        full_path(base, href)
    }
}

fn make_entry(
    items: &mut Vec<TocItem>,
    parser: &EpubParser,
    base: &str,
    href: &String,
    text: &Vec<char>,
    depth: u8,
)
    ensures
        final(items)@.len() == old(items)@.len() + 1,
        forall|i: int| 0 <= i < old(items)@.len() ==> final(items)@[i] == old(items)@[i],
        ({
            let it = final(items)@[old(items)@.len() as int];
            &&& it.id@ == "toc-"@ + decimal(old(items)@.len() as nat)
            &&& it.title@ == trim(text@)
            &&& it.chapter_index is None
            &&& it.href matches Some(h) && h@ == entry_href(base@, href@)
            &&& it.depth == depth
            &&& it.children@.len() == 0
            &&& !it.is_generated
        }),
{
    let hv = to_chars(href.as_str());
    let full = if hv.len() > 0 && hv[0] == '#' {
        href.clone()
    } else {
        parser.get_full_path(base, href.as_str())
    };
    let mut id = to_chars("toc-");
    let n = decimal_chars(items.len());
    extend_chars(&mut id, &n);
    items.push(TocItem {
        id: from_chars(&id),
        title: from_chars(&trim_chars(text)),
        chapter_index: None,
        href: Some(full),
        depth,
        children: Vec::new(),
        is_generated: false,
    });
}

// ---------------------------------------------------------------------------
// EPUB 3 navigation document
// ---------------------------------------------------------------------------

pub struct NavScan {
    pub items: Seq<TocEntry>,
    pub in_nav: bool,
    pub in_ol: bool,
    pub depth: u8,
    pub text: Seq<char>,
    pub href: Seq<char>,
    pub collecting: bool,
}

/// Whether a `nav` tag is a table of contents: a `type` or `epub:type`
/// attribute whose value contains "toc".
pub open spec fn nav_is_toc(t: XmlTag) -> bool {
    exists|i: int| 0 <= i < t.attrs@.len() && toc_type_attr(#[trigger] t.attrs@[i])
}

pub open spec fn toc_type_attr(a: crate::xml::XmlAttr) -> bool {
    &&& eq_ignore_case(a.key@, lit_bytes("type"@)) || eq_ignore_case(a.key@, lit_bytes("epub:type"@))
    &&& a.value is Some
    &&& contains(a.value->0@, "toc"@)
}

pub open spec fn nav_step(st: NavScan, ev: XmlEvent, base: Seq<char>, strict: bool) -> NavScan {
    match ev {
        XmlEvent::Start(t) | XmlEvent::Empty(t) => {
            let n = t.name@;
            if eq_ignore_case(n, lit_bytes("nav"@)) {
                if strict {
                    if nav_is_toc(t) {
                        NavScan { in_nav: true, ..st }
                    } else {
                        st
                    }
                } else {
                    NavScan { in_nav: true, ..st }
                }
            } else if st.in_nav && eq_ignore_case(n, lit_bytes("ol"@)) {
                NavScan { in_ol: true, depth: inc8(st.depth), ..st }
            } else if st.in_nav && st.in_ol && eq_ignore_case(n, lit_bytes("a"@)) {
                NavScan {
                    href: match last_attr(t.attrs@, lit_bytes("href"@)) {
                        Some(h) => h,
                        None => st.href,
                    },
                    collecting: true,
                    text: seq![],
                    ..st
                }
            } else {
                st
            }
        },
        XmlEvent::End(n) => if eq_ignore_case(n@, lit_bytes("nav"@)) {
            NavScan { in_nav: false, ..st }
        } else if st.in_nav && eq_ignore_case(n@, lit_bytes("ol"@)) {
            NavScan { in_ol: false, depth: dec8(st.depth), ..st }
        } else if st.in_nav && st.in_ol && eq_ignore_case(n@, lit_bytes("a"@)) {
            NavScan {
                items: if st.collecting && st.text.len() > 0 {
                    st.items.push((trim(st.text), entry_href(base, st.href), dec8(st.depth)))
                } else {
                    st.items
                },
                collecting: false,
                ..st
            }
        } else {
            st
        },
        XmlEvent::Text(Some(s)) => if st.collecting {
            NavScan { text: st.text + s@, ..st }
        } else {
            st
        },
        _ => st,
    }
}

pub open spec fn nav_scan(evs: Seq<XmlEvent>, n: int, base: Seq<char>, strict: bool) -> NavScan
    decreases n,
{
    if n <= 0 {
        NavScan {
            items: seq![],
            in_nav: false,
            in_ol: false,
            depth: 0,
            text: seq![],
            href: seq![],
            collecting: false,
        }
    } else {
        nav_step(nav_scan(evs, n - 1, base, strict), evs[n - 1], base, strict)
    }
}

/// The entries of a navigation document.
pub open spec fn nav_entries(content: Seq<char>, base: Seq<char>, strict: bool) -> Seq<TocEntry> {
    let evs = xml_events(content);
    nav_scan(evs, evs.len() as int, base, strict).items
}

fn nav_is_toc_exec(t: &XmlTag) -> (b: bool)
    ensures
        b == nav_is_toc(*t),
{
    let mut i: usize = 0;
    while i < t.attrs.len()
        invariant
            i <= t.attrs.len(),
            forall|k: int| 0 <= k < i ==> !toc_type_attr(#[trigger] t.attrs@[k]),
        decreases t.attrs.len() - i,
    {
        let a = &t.attrs[i];
        if name_is(&a.key, "type") || name_is(&a.key, "epub:type") {
            match &a.value {
                Some(v) => {
                    if contains_chars(&to_chars(v.as_str()), &to_chars("toc")) {
                        return true;
                    }
                },
                None => {},
            }
        }
        i = i + 1;
    }
    false
}

struct NavState {
    items: Vec<TocItem>,
    in_nav: bool,
    in_ol: bool,
    depth: u8,
    text: Vec<char>,
    href: String,
    collecting: bool,
}

impl EpubParser {
    /// Parses a navigation document; `strict_type` keeps only `nav` elements
    /// typed as a table of contents.
    pub fn parse_nav_with_filter(&self, content: &str, base_href: &str, strict_type: bool) -> (r:
        Vec<TocItem>)
        ensures
            toc_items_are(r@, nav_entries(content@, base_href@, strict_type)),
    {
        let evs = read_events(content);
        let mut st = NavState {
            items: Vec::new(),
            in_nav: false,
            in_ol: false,
            depth: 0,
            text: Vec::new(),
            href: String::new(),
            collecting: false,
        };
        let ghost mut es: Seq<TocEntry> = seq![];
        let mut k: usize = 0;
        while k < evs.len()
            invariant
                k <= evs.len(),
                evs@ == xml_events(content@),
                ({
                    let sp = nav_scan(evs@, k as int, base_href@, strict_type);
                    &&& sp.items == es
                    &&& sp.in_nav == st.in_nav
                    &&& sp.in_ol == st.in_ol
                    &&& sp.depth == st.depth
                    &&& sp.text == st.text@
                    &&& sp.href == st.href@
                    &&& sp.collecting == st.collecting
                }),
                toc_items_are(st.items@, es),
            decreases evs.len() - k,
        {
            let ghost es0 = es;
            let ghost items0 = st.items@;
            match &evs[k] {
                XmlEvent::Start(t) | XmlEvent::Empty(t) => {
                    let n = &t.name;
                    if name_is(n, "nav") {
                        if strict_type {
                            if nav_is_toc_exec(t) {
                                st.in_nav = true;
                            }
                        } else {
                            st.in_nav = true;
                        }
                    } else if st.in_nav && name_is(n, "ol") {
                        st.in_ol = true;
                        st.depth = inc8_exec(st.depth);
                    } else if st.in_nav && st.in_ol && name_is(n, "a") {
                        match last_attr_exec(&t.attrs, "href") {
                            Some(h) => {
                                st.href = h;
                            },
                            None => {},
                        }
                        st.collecting = true;
                        st.text = Vec::new();
                    }
                },
                XmlEvent::End(n) => {
                    if name_is(n, "nav") {
                        st.in_nav = false;
                    } else if st.in_nav && name_is(n, "ol") {
                        st.in_ol = false;
                        st.depth = dec8_exec(st.depth);
                    } else if st.in_nav && st.in_ol && name_is(n, "a") {
                        if st.collecting && st.text.len() > 0 {
                            make_entry(&mut st.items, self, base_href, &st.href, &st.text, dec8_exec(st.depth));
                            proof {
                                es = es.push((trim(st.text@), entry_href(base_href@, st.href@), dec8(st.depth)));
                                assert forall|i: int| 0 <= i < st.items@.len() implies {
                                    &&& (#[trigger] st.items@[i]).id@ == "toc-"@ + decimal(i as nat)
                                    &&& st.items@[i].title@ == es[i].0
                                    &&& st.items@[i].chapter_index is None
                                    &&& st.items@[i].href matches Some(h) && h@ == es[i].1
                                    &&& st.items@[i].depth == es[i].2
                                    &&& st.items@[i].children@.len() == 0
                                    &&& !st.items@[i].is_generated
                                } by {
                                    if i < items0.len() {
                                        assert(st.items@[i] == items0[i]);
                                        assert(es[i] == es0[i]);
                                    }
                                }
                            }
                        }
                        st.collecting = false;
                    }
                },
                XmlEvent::Text(Some(s)) => {
                    if st.collecting {
                        let sv = to_chars(s.as_str());
                        extend_chars(&mut st.text, &sv);
                    }
                },
                _ => {},
            }
            k = k + 1;
        }
        st.items
    }

    /// Parses a navigation document: `nav` elements typed as a table of
    /// contents first, any `nav` element when that finds nothing.
    pub fn parse_nav_document(&self, content: &str, base_href: &str) -> (r: Vec<TocItem>)
        ensures
            nav_entries(content@, base_href@, true).len() > 0 ==> toc_items_are(
                r@,
                nav_entries(content@, base_href@, true),
            ),
            nav_entries(content@, base_href@, true).len() == 0 ==> toc_items_are(
                r@,
                nav_entries(content@, base_href@, false),
            ),
    {
        let items = self.parse_nav_with_filter(content, base_href, true);
        if items.len() > 0 {
            return items;
        }
        self.parse_nav_with_filter(content, base_href, false)
    }
}

// ---------------------------------------------------------------------------
// EPUB 2 NCX
// ---------------------------------------------------------------------------

/// State of an NCX scan. Each `navPoint` opened inside the `navMap` gets a
/// slot, in document order: its label text, its content `src` and its depth.
/// `open` holds the slots of the `navPoint`s not yet closed, innermost last;
/// a label or content belongs to the innermost one.
pub struct NcxScan {
    pub texts: Seq<Seq<char>>,
    pub srcs: Seq<Seq<char>>,
    pub depths: Seq<u8>,
    pub open: Seq<usize>,
    pub in_nav_map: bool,
    pub depth: u8,
    pub collecting: bool,
}

pub open spec fn ncx_step(st: NcxScan, ev: XmlEvent) -> NcxScan {
    match ev {
        XmlEvent::Start(t) | XmlEvent::Empty(t) => {
            let n = t.name@;
            if eq_ignore_case(n, lit_bytes("navMap"@)) {
                NcxScan { in_nav_map: true, ..st }
            } else if st.in_nav_map && eq_ignore_case(n, lit_bytes("navPoint"@)) {
                NcxScan {
                    texts: st.texts.push(seq![]),
                    srcs: st.srcs.push(seq![]),
                    depths: st.depths.push(st.depth),
                    open: st.open.push(st.texts.len() as usize),
                    depth: inc8(st.depth),
                    ..st
                }
            } else if st.open.len() > 0 && eq_ignore_case(n, lit_bytes("content"@)) {
                match last_attr(t.attrs@, lit_bytes("src"@)) {
                    Some(v) => NcxScan { srcs: st.srcs.update(st.open.last() as int, v), ..st },
                    None => st,
                }
            } else if st.open.len() > 0 && eq_ignore_case(n, lit_bytes("text"@)) {
                NcxScan {
                    collecting: true,
                    texts: st.texts.update(st.open.last() as int, seq![]),
                    ..st
                }
            } else {
                st
            }
        },
        XmlEvent::End(n) => if eq_ignore_case(n@, lit_bytes("navMap"@)) {
            NcxScan { in_nav_map: false, ..st }
        } else if eq_ignore_case(n@, lit_bytes("navPoint"@)) {
            NcxScan {
                open: if st.open.len() > 0 {
                    st.open.drop_last()
                } else {
                    st.open
                },
                depth: dec8(st.depth),
                ..st
            }
        } else if eq_ignore_case(n@, lit_bytes("text"@)) {
            NcxScan { collecting: false, ..st }
        } else {
            st
        },
        XmlEvent::Text(Some(s)) => if st.collecting && st.open.len() > 0 {
            let top = st.open.last() as int;
            NcxScan { texts: st.texts.update(top, st.texts[top] + s@), ..st }
        } else {
            st
        },
        _ => st,
    }
}

pub open spec fn ncx_scan(evs: Seq<XmlEvent>, n: int) -> NcxScan
    decreases n,
{
    if n <= 0 {
        NcxScan {
            texts: seq![],
            srcs: seq![],
            depths: seq![],
            open: seq![],
            in_nav_map: false,
            depth: 0,
            collecting: false,
        }
    } else {
        ncx_step(ncx_scan(evs, n - 1), evs[n - 1])
    }
}

/// The entries of the first `n` slots that have a label: trimmed label,
/// href joined to the base, depth.
pub open spec fn labeled_slots(st: NcxScan, base: Seq<char>, n: int) -> Seq<TocEntry>
    decreases n,
{
    if n <= 0 {
        seq![]
    } else if st.texts[n - 1].len() > 0 {
        labeled_slots(st, base, n - 1).push(
            (trim(st.texts[n - 1]), entry_href(base, st.srcs[n - 1]), st.depths[n - 1]),
        )
    } else {
        labeled_slots(st, base, n - 1)
    }
}

/// The entries of an NCX document: one per `navPoint` with a label, in
/// document order (a parent before its children).
pub open spec fn ncx_entries(content: Seq<char>, base: Seq<char>) -> Seq<TocEntry> {
    let evs = xml_events(content);
    let st = ncx_scan(evs, evs.len() as int);
    labeled_slots(st, base, st.texts.len() as int)
}

/// Slots and open stack agree in size.
pub open spec fn ncx_ok(st: NcxScan) -> bool {
    &&& st.srcs.len() == st.texts.len()
    &&& st.depths.len() == st.texts.len()
    &&& forall|i: int| 0 <= i < st.open.len() ==> #[trigger] st.open[i] < st.texts.len()
}

pub proof fn lemma_ncx_scan_ok(evs: Seq<XmlEvent>, n: int)
    requires
        0 <= n <= evs.len(),
    ensures
        ncx_ok(ncx_scan(evs, n)),
    decreases n,
{
    if n > 0 {
        lemma_ncx_scan_ok(evs, n - 1);
        let st = ncx_scan(evs, n - 1);
        let nx = ncx_scan(evs, n);
        assert forall|i: int| 0 <= i < nx.open.len() implies #[trigger] nx.open[i] < nx.texts.len() by {
            if nx.open.len() == st.open.len() + 1 && i < st.open.len() {
                assert(nx.open[i] == st.open[i]);
            } else if nx.open.len() + 1 == st.open.len() {
                assert(nx.open[i] == st.open[i]);
            }
        }
    }
}

struct NcxState {
    texts: Vec<Vec<char>>,
    srcs: Vec<String>,
    depths: Vec<u8>,
    open: Vec<usize>,
    in_nav_map: bool,
    depth: u8,
    collecting: bool,
}

impl NcxState {
    spec fn matches(self, sp: NcxScan) -> bool {
        &&& views(self.texts@) == sp.texts
        &&& str_views(self.srcs@) == sp.srcs
        &&& self.depths@ == sp.depths
        &&& self.open@ == sp.open
        &&& self.in_nav_map == sp.in_nav_map
        &&& self.depth == sp.depth
        &&& self.collecting == sp.collecting
    }
}

impl EpubParser {
    /// Parses an EPUB 2 NCX document: one entry per `navPoint` with a label,
    /// in document order, a nested `navPoint` one level deeper than its parent.
    pub fn parse_ncx(&self, content: &str, base_href: &str) -> (r: Vec<TocItem>)
        ensures
            toc_items_are(r@, ncx_entries(content@, base_href@)),
    {
        let evs = read_events(content);
        let mut st = NcxState {
            texts: Vec::new(),
            srcs: Vec::new(),
            depths: Vec::new(),
            open: Vec::new(),
            in_nav_map: false,
            depth: 0,
            collecting: false,
        };
        proof {
            assert(views(st.texts@) =~= seq![]);
            assert(str_views(st.srcs@) =~= seq![]);
        }
        let mut k: usize = 0;
        while k < evs.len()
            invariant
                k <= evs.len(),
                evs@ == xml_events(content@),
                st.matches(ncx_scan(evs@, k as int)),
                ncx_ok(ncx_scan(evs@, k as int)),
            decreases evs.len() - k,
        {
            proof {
                lemma_ncx_scan_ok(evs@, k + 1);
            }
            let ghost sp = ncx_scan(evs@, k as int);
            match &evs[k] {
                XmlEvent::Start(t) | XmlEvent::Empty(t) => {
                    let n = &t.name;
                    if name_is(n, "navMap") {
                        st.in_nav_map = true;
                    } else if st.in_nav_map && name_is(n, "navPoint") {
                        let slot = st.texts.len();
                        st.texts.push(Vec::new());
                        st.srcs.push(String::new());
                        st.depths.push(st.depth);
                        st.open.push(slot);
                        st.depth = inc8_exec(st.depth);
                        proof {
                            assert(views(st.texts@) =~= sp.texts.push(seq![]));
                            assert(str_views(st.srcs@) =~= sp.srcs.push(seq![]));
                        }
                    } else if st.open.len() > 0 && name_is(n, "content") {
                        match last_attr_exec(&t.attrs, "src") {
                            Some(v) => {
                                let top = st.open[st.open.len() - 1];
                                st.srcs.set(top, v);
                                proof {
                                    assert(str_views(st.srcs@) =~= sp.srcs.update(top as int, v@));
                                }
                            },
                            None => {},
                        }
                    } else if st.open.len() > 0 && name_is(n, "text") {
                        let top = st.open[st.open.len() - 1];
                        st.texts.set(top, Vec::new());
                        st.collecting = true;
                        proof {
                            assert(views(st.texts@) =~= sp.texts.update(top as int, seq![]));
                        }
                    }
                },
                XmlEvent::End(n) => {
                    if name_is(n, "navMap") {
                        st.in_nav_map = false;
                    } else if name_is(n, "navPoint") {
                        if st.open.len() > 0 {
                            st.open.pop();
                        }
                        st.depth = dec8_exec(st.depth);
                    } else if name_is(n, "text") {
                        st.collecting = false;
                    }
                },
                XmlEvent::Text(Some(s)) => {
                    if st.collecting && st.open.len() > 0 {
                        let top = st.open[st.open.len() - 1];
                        let mut t: Vec<char> = Vec::new();
                        extend_chars(&mut t, &st.texts[top]);
                        let sv = to_chars(s.as_str());
                        extend_chars(&mut t, &sv);
                        st.texts.set(top, t);
                        proof {
                            assert(views(st.texts@) =~= sp.texts.update(
                                top as int,
                                sp.texts[top as int] + s@,
                            ));
                        }
                    }
                },
                _ => {},
            }
            k = k + 1;
        }
        let ghost fin = ncx_scan(evs@, evs@.len() as int);
        let mut items: Vec<TocItem> = Vec::new();
        let mut i: usize = 0;
        while i < st.texts.len()
            invariant
                i <= st.texts@.len(),
                st.matches(fin),
                ncx_ok(fin),
                toc_items_are(items@, labeled_slots(fin, base_href@, i as int)),
            decreases st.texts.len() - i,
        {
            if st.texts[i].len() > 0 {
                let ghost items0 = items@;
                let ghost es0 = labeled_slots(fin, base_href@, i as int);
                assert(st.texts@[i as int]@ == fin.texts[i as int]);
                assert(st.srcs@[i as int]@ == fin.srcs[i as int]);
                make_entry(&mut items, self, base_href, &st.srcs[i], &st.texts[i], st.depths[i]);
                proof {
                    let es = labeled_slots(fin, base_href@, i + 1);
                    assert forall|j: int| 0 <= j < items@.len() implies {
                        &&& (#[trigger] items@[j]).id@ == "toc-"@ + decimal(j as nat)
                        &&& items@[j].title@ == es[j].0
                        &&& items@[j].chapter_index is None
                        &&& items@[j].href matches Some(h) && h@ == es[j].1
                        &&& items@[j].depth == es[j].2
                        &&& items@[j].children@.len() == 0
                        &&& !items@[j].is_generated
                    } by {
                        if j < items0.len() {
                            assert(items@[j] == items0[j]);
                            assert(es[j] == es0[j]);
                        }
                    }
                }
            }
            i = i + 1;
        }
        items
    }
}

// ---------------------------------------------------------------------------
// Nesting by depth
// ---------------------------------------------------------------------------

/// An entry lies below a level: any entry at the top, deeper entries under a parent.
pub open spec fn below(d: u8, parent: Option<u8>) -> bool {
    match parent {
        None => true,
        Some(p) => d > p,
    }
}

/// Number of leading entries of `s` that lie below `parent`.
pub open spec fn span(s: Seq<TocItem>, parent: Option<u8>) -> nat
    decreases s.len(),
{
    if s.len() == 0 || !below(s[0].depth, parent) {
        0
    } else {
        1 + span(s.skip(1), parent)
    }
}

pub proof fn lemma_span_le(s: Seq<TocItem>, parent: Option<u8>)
    ensures
        span(s, parent) <= s.len(),
    decreases s.len(),
{
    if s.len() > 0 && below(s[0].depth, parent) {
        lemma_span_le(s.skip(1), parent);
    }
}

/// Same entry apart from its children.
pub open spec fn same_entry(a: TocItem, b: TocItem) -> bool {
    &&& a.id == b.id
    &&& a.title == b.title
    &&& a.chapter_index == b.chapter_index
    &&& a.href == b.href
    &&& a.depth == b.depth
    &&& a.is_generated == b.is_generated
}

/// `out` is the forest that the leading entries of `s` below `parent` form:
/// the first entry takes as children (after the ones it had) the entries
/// deeper than itself that follow it, and the rest of the level follows.
pub open spec fn nested(s: Seq<TocItem>, parent: Option<u8>, out: Seq<TocItem>) -> bool
    decreases s.len(),
{
    if s.len() == 0 || !below(s[0].depth, parent) {
        out.len() == 0
    } else {
        let c = span(s.skip(1), Some(s[0].depth));
        let n0 = s[0].children@.len();
        proof {
            lemma_span_le(s.skip(1), Some(s[0].depth));
        }
        &&& out.len() > 0
        &&& same_entry(out[0], s[0])
        &&& out[0].children@.len() >= n0
        &&& out[0].children@.take(n0 as int) == s[0].children@
        &&& nested(s.skip(1), Some(s[0].depth), out[0].children@.skip(n0 as int))
        &&& nested(s.skip(1 + c as int), parent, out.skip(1))
    }
}

/// Entries deeper than a first entry are below its level as well.
pub proof fn lemma_span_split(t: Seq<TocItem>, d0: u8, parent: Option<u8>)
    requires
        below(d0, parent),
    ensures
        span(t, Some(d0)) <= t.len(),
        span(t, parent) == span(t, Some(d0)) + span(t.skip(span(t, Some(d0)) as int), parent),
    decreases t.len(),
{
    lemma_span_le(t, Some(d0));
    if t.len() > 0 && below(t[0].depth, Some(d0)) {
        lemma_span_split(t.skip(1), d0, parent);
        let c1 = span(t.skip(1), Some(d0));
        assert(t.skip(1).skip(c1 as int) == t.skip(1 + c1 as int));
    } else {
        assert(t.skip(0) == t);
    }
}

fn below_exec(d: u8, parent: Option<u8>) -> (r: bool)
    ensures
        r == below(d, parent),
{
    match parent {
        None => true,
        Some(p) => d > p,
    }
}

/// Builds the forest of the leading entries of `rest` below `parent`,
/// taking them out of `rest`.
fn nest_level(rest: &mut Vec<TocItem>, parent: Option<u8>) -> (out: Vec<TocItem>)
    ensures
        span(old(rest)@, parent) <= old(rest)@.len(),
        final(rest)@ == old(rest)@.skip(span(old(rest)@, parent) as int),
        nested(old(rest)@, parent, out@),
    decreases old(rest)@.len(),
{
    let ghost s = rest@;
    proof {
        lemma_span_le(s, parent);
    }
    if rest.len() == 0 {
        return Vec::new();
    }
    let d = rest[0].depth;
    if !below_exec(d, parent) {
        assert(s.skip(0) == s);
        return Vec::new();
    }
    let mut item = rest.remove(0);
    assert(rest@ == s.skip(1));
    let mut kids = nest_level(rest, Some(d));
    let ghost c = span(s.skip(1), Some(d));
    proof {
        lemma_span_split(s.skip(1), d, parent);
        assert(s.skip(1).skip(c as int) == s.skip(1 + c as int));
    }
    let ghost before_kids = kids@;
    let mut own: Vec<TocItem> = Vec::new();
    std::mem::swap(&mut own, &mut item.children);
    let ghost n0 = own@.len();
    own.append(&mut kids);
    assert(own@.take(n0 as int) == s[0].children@);
    assert(own@.skip(n0 as int) == before_kids);
    item.children = own;
    let mut siblings = nest_level(rest, parent);
    proof {
        assert(s.skip(1 + c as int).skip(span(s.skip(1 + c as int), parent) as int) == s.skip(
            span(s, parent) as int,
        ));
    }
    let ghost sib0 = siblings@;
    let ghost built = item;
    siblings.insert(0, item);
    proof {
        assert(siblings@.skip(1) == sib0);
        assert(siblings@[0] == built);
        assert(same_entry(built, s[0]));
        assert(built.children@.skip(n0 as int) == before_kids);
        assert(nested(s.skip(1), Some(s[0].depth), built.children@.skip(n0 as int)));
        assert(nested(s.skip(1 + c as int), parent, siblings@.skip(1)));
    }
    siblings
}

impl EpubParser {
    /// Nests a flat list of entries by depth: each entry becomes a child of the
    /// nearest earlier entry of smaller depth, or a top-level entry.
    pub fn build_toc_tree(&self, items: Vec<TocItem>) -> (r: Vec<TocItem>)
        ensures
            nested(items@, None, r@),
    {
        let mut rest = items;
        nest_level(&mut rest, None)
    }
}

// ---------------------------------------------------------------------------
// Href-to-title map
// ---------------------------------------------------------------------------

/// The pair an entry contributes: its href without fragment, and its title,
/// when it has an href and a title.
pub open spec fn own_title_pair(it: TocItem) -> Seq<(Seq<char>, Seq<char>)> {
    match it.href {
        Some(h) => if it.title@.len() > 0 {
            seq![(before_first(h@, '#'), it.title@)]
        } else {
            seq![]
        },
        None => seq![],
    }
}

/// The pairs of a forest in pre-order: each entry, then its subtree.
pub open spec fn title_pairs(f: Seq<TocItem>) -> Seq<(Seq<char>, Seq<char>)>
    decreases f,
{
    if f.len() == 0 {
        seq![]
    } else {
        let it = f.last();
        proof {
            assert(decreases_to!(f => f.drop_last()));
            assert(decreases_to!(f => f[f.len() - 1]));
            assert(decreases_to!(it => it.children));
            assert(decreases_to!(it.children => it.children@));
        }
        title_pairs(f.drop_last()) + own_title_pair(it) + title_pairs(it.children@)
    }
}

/// Inserting the pairs in order into a map, later pairs replacing earlier ones.
pub open spec fn insert_all(
    m: Seq<(Seq<char>, Seq<char>)>,
    ps: Seq<(Seq<char>, Seq<char>)>,
) -> Seq<(Seq<char>, Seq<char>)>
    decreases ps.len(),
{
    if ps.len() == 0 {
        m
    } else {
        map_insert(insert_all(m, ps.drop_last()), ps.last().0, ps.last().1)
    }
}

pub proof fn lemma_insert_all_concat(
    m: Seq<(Seq<char>, Seq<char>)>,
    a: Seq<(Seq<char>, Seq<char>)>,
    b: Seq<(Seq<char>, Seq<char>)>,
)
    ensures
        insert_all(m, a + b) == insert_all(insert_all(m, a), b),
    decreases b.len(),
{
    if b.len() == 0 {
        assert(a + b == a);
    } else {
        assert((a + b).drop_last() == a + b.drop_last());
        assert((a + b).last() == b.last());
        lemma_insert_all_concat(m, a, b.drop_last());
    }
}

fn add_own_title(map: &mut Vec<(String, String)>, item: &TocItem)
    requires
        keys_unique(pair_views(old(map)@)),
    ensures
        keys_unique(pair_views(final(map)@)),
        pair_views(final(map)@) == insert_all(pair_views(old(map)@), own_title_pair(*item)),
{
    let ghost m0 = pair_views(map@);
    match &item.href {
        Some(h) => {
            let hv = to_chars(h.as_str());
            let base = before_first_chars(&hv, '#');
            if !item.title.as_str().is_empty() {
                let key = from_chars(&base);
                let title = item.title.clone();
                proof {
                    let ps = own_title_pair(*item);
                    assert(item.title@.len() > 0);
                    assert(ps == seq![(key@, title@)]);
                    assert(ps.drop_last() == Seq::<(Seq<char>, Seq<char>)>::empty());
                    assert(insert_all(m0, ps.drop_last()) == m0);
                    assert(insert_all(m0, ps) == map_insert(m0, key@, title@));
                }
                map_insert_exec(map, key, title);
            } else {
                assert(item.title@.len() == 0);
                assert(insert_all(m0, own_title_pair(*item)) == m0);
            }
        },
        None => {
            assert(insert_all(m0, own_title_pair(*item)) == m0);
        },
    }
}

fn add_titles(map: &mut Vec<(String, String)>, toc: &Vec<TocItem>)
    requires
        keys_unique(pair_views(old(map)@)),
    ensures
        keys_unique(pair_views(final(map)@)),
        pair_views(final(map)@) == insert_all(pair_views(old(map)@), title_pairs(toc@)),
    decreases toc@,
{
    let ghost m0 = pair_views(map@);
    let mut i: usize = 0;
    assert(toc@.take(0) == Seq::<TocItem>::empty());
    while i < toc.len()
        invariant
            i <= toc.len(),
            keys_unique(pair_views(map@)),
            pair_views(map@) == insert_all(m0, title_pairs(toc@.take(i as int))),
        decreases toc.len() - i,
    {
        let item = &toc[i];
        let ghost pre = title_pairs(toc@.take(i as int));
        proof {
            let t = toc@.take(i + 1);
            assert(t.drop_last() == toc@.take(i as int));
            assert(t.last() == toc@[i as int]);
            lemma_insert_all_concat(m0, pre, own_title_pair(*item));
            lemma_insert_all_concat(
                m0,
                pre + own_title_pair(*item),
                title_pairs(item.children@),
            );
            assert(decreases_to!(toc@ => toc@[i as int]));
            assert(decreases_to!(toc@[i as int] => toc@[i as int].children));
            assert(decreases_to!(toc@[i as int].children => toc@[i as int].children@));
        }
        add_own_title(map, item);
        add_titles(map, &item.children);
        i = i + 1;
    }
    assert(toc@.take(toc@.len() as int) == toc@);
}

impl EpubParser {
    /// Map from an entry's href (without fragment) to its title, over the whole
    /// tree in pre-order, later entries replacing earlier ones; entries without
    /// a title are left out.
    pub fn build_toc_title_map(toc: &Vec<TocItem>) -> (r: Vec<(String, String)>)
        ensures
            keys_unique(pair_views(r@)),
            pair_views(r@) == insert_all(seq![], title_pairs(toc@)),
    {
        let mut map: Vec<(String, String)> = Vec::new();
        assert(pair_views(map@) =~= Seq::<(Seq<char>, Seq<char>)>::empty());
        add_titles(&mut map, toc);
        map
    }
}

/// The value of the last pair with key `k`.
pub open spec fn last_value(ps: Seq<(Seq<char>, Seq<char>)>, k: Seq<char>) -> Option<Seq<char>>
    decreases ps.len(),
{
    if ps.len() == 0 {
        None
    } else if ps.last().0 == k {
        Some(ps.last().1)
    } else {
        last_value(ps.drop_last(), k)
    }
}

pub proof fn lemma_insert_all(m: Seq<(Seq<char>, Seq<char>)>, ps: Seq<(Seq<char>, Seq<char>)>, k: Seq<char>)
    requires
        keys_unique(m),
    ensures
        keys_unique(insert_all(m, ps)),
        map_get(insert_all(m, ps), k) == match last_value(ps, k) {
            Some(v) => Some(v),
            None => map_get(m, k),
        },
    decreases ps.len(),
{
    if ps.len() > 0 {
        lemma_insert_all(m, ps.drop_last(), k);
        crate::opf_utils::lemma_map_insert(
            insert_all(m, ps.drop_last()),
            ps.last().0,
            ps.last().1,
            k,
        );
    }
}

/// Law: in the href-to-title map, an href maps to the title of the last entry
/// (in pre-order over the whole tree) with that href, and to nothing when no
/// entry with a title has it.
pub proof fn law_title_map_later_entries_win(toc: Seq<TocItem>, href: Seq<char>)
    ensures
        map_get(insert_all(seq![], title_pairs(toc)), href) == last_value(title_pairs(toc), href),
{
    lemma_insert_all(seq![], title_pairs(toc), href);
}

/// The fields of an entry, apart from its children.
pub type EntryFields = (Seq<char>, Seq<char>, Option<usize>, Option<Seq<char>>, u8, bool);

pub open spec fn entry_fields(t: TocItem) -> EntryFields {
    (t.id@, t.title@, t.chapter_index, opt_view(t.href), t.depth, t.is_generated)
}

/// The entries of a forest in pre-order: each entry, then its subtree.
pub open spec fn preorder(f: Seq<TocItem>) -> Seq<EntryFields>
    decreases f,
{
    if f.len() == 0 {
        seq![]
    } else {
        proof {
            assert(decreases_to!(f => f[0]));
            assert(decreases_to!(f[0] => f[0].children));
            assert(decreases_to!(f[0].children => f[0].children@));
            assert(decreases_to!(f => f.skip(1)));
        }
        seq![entry_fields(f[0])] + preorder(f[0].children@) + preorder(f.skip(1))
    }
}

pub proof fn lemma_nested_preorder(s: Seq<TocItem>, parent: Option<u8>, out: Seq<TocItem>)
    requires
        nested(s, parent, out),
        forall|i: int| 0 <= i < s.len() ==> (#[trigger] s[i]).children@.len() == 0,
    ensures
        span(s, parent) <= s.len(),
        preorder(out) == s.take(span(s, parent) as int).map_values(|t: TocItem| entry_fields(t)),
    decreases s.len(),
{
    lemma_span_le(s, parent);
    if s.len() == 0 || !below(s[0].depth, parent) {
        assert(s.take(0).map_values(|t: TocItem| entry_fields(t)) =~= Seq::<EntryFields>::empty());
    } else {
        let d0 = s[0].depth;
        let t1 = s.skip(1);
        let c = span(t1, Some(d0));
        lemma_span_split(t1, d0, parent);
        let t2 = s.skip(1 + c as int);
        assert(t1.skip(c as int) == t2);
        let kids = out[0].children@;
        assert(s[0].children@.len() == 0);
        assert(kids.skip(0) == kids);
        assert forall|i: int| 0 <= i < t1.len() implies (#[trigger] t1[i]).children@.len() == 0 by {
            assert(t1[i] == s[i + 1]);
        }
        assert forall|i: int| 0 <= i < t2.len() implies (#[trigger] t2[i]).children@.len() == 0 by {
            assert(t2[i] == s[i + 1 + c]);
        }
        lemma_nested_preorder(t1, Some(d0), kids);
        lemma_nested_preorder(t2, parent, out.skip(1));
        let r = span(t2, parent);
        assert(span(s, parent) == 1 + c + r);
        assert(entry_fields(out[0]) == entry_fields(s[0]));
        assert(s.take((1 + c + r) as int).map_values(|t: TocItem| entry_fields(t)) =~= seq![entry_fields(s[0])]
            + t1.take(c as int).map_values(|t: TocItem| entry_fields(t)) + t2.take(r as int).map_values(
            |t: TocItem| entry_fields(t),
        ));
    }
}

/// Law: nesting entries by depth loses none and reorders none: walking the
/// resulting tree in pre-order gives back the flat list of entries (for
/// entries that have no children of their own, as parsed entries have none).
pub proof fn law_toc_tree_preorder_is_input(items: Seq<TocItem>, tree: Seq<TocItem>)
    requires
        nested(items, None, tree),
        forall|i: int| 0 <= i < items.len() ==> (#[trigger] items[i]).children@.len() == 0,
    ensures
        preorder(tree) == items.map_values(|t: TocItem| entry_fields(t)),
{
    lemma_nested_preorder(items, None, tree);
    lemma_span_all(items);
    assert(items.take(items.len() as int) == items);
}

/// At the top level every entry is taken.
pub proof fn lemma_span_all(s: Seq<TocItem>)
    ensures
        span(s, None) == s.len(),
    decreases s.len(),
{
    if s.len() > 0 {
        lemma_span_all(s.skip(1));
    }
}

} // verus!
