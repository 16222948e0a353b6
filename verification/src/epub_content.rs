//! Text extraction from chapter documents: paragraphs with their links,
//! anchors, heading flags and image positions; chapter titles; noise checks.

use vstd::prelude::*;
use crate::domain::{INDENT_MARKER, TextLink};
use crate::epub_parser::{
    EpubParser, anchor_views, anchors_of, img_attrs, img_tag, is_img_tag, read_img_attrs,
    record_anchor,
};
use crate::text::{
    contains, contains_chars, decimal, decimal_chars, extend_chars, from_chars, has_prefix, join,
    join_chars, split, split_chars, starts_with, str_views, to_chars, trim, trim_chars, views,
    words, words_chars,
};
use crate::xml::{
    XmlAttr, XmlEvent, XmlTag, bytes_prefix, eq_ignore_case, lit_bytes, name_is, name_starts,
    read_events, xml_events,
};
use crate::epub_toc::{dec8, dec8_exec, inc8, inc8_exec};
use crate::xml_attrs::opt_view;

verus! {

// ---------------------------------------------------------------------------
// Model of the paragraph scan
// ---------------------------------------------------------------------------

/// A link as plain values: start and end (in characters), href, title, footnote flag.
pub type LinkView = (usize, usize, Seq<char>, Option<Seq<char>>, bool);

pub open spec fn link_view(l: TextLink) -> LinkView {
    (l.start, l.end, l.href@, opt_view(l.title), l.is_footnote)
}

pub open spec fn links_view(v: Seq<TextLink>) -> Seq<LinkView> {
    v.map_values(|l: TextLink| link_view(l))
}

/// An image as plain values: position, source, alternative text.
pub type ImageView = (isize, Seq<char>, Option<Seq<char>>);

/// An inline image as plain values: number, source, alternative text.
pub type InlineView = (usize, Seq<char>, Option<Seq<char>>);

/// State of the scan over a chapter document's events.
#[verifier::ext_equal]
pub struct HtmlScan {
    pub paragraphs: Seq<Seq<char>>,
    pub current: Seq<char>,
    pub text_indent: bool,
    pub images: Seq<ImageView>,
    pub para_count: isize,
    pub links: Seq<Seq<LinkView>>,
    pub cur_links: Seq<LinkView>,
    pub anchors: Seq<(Seq<char>, usize)>,
    pub in_link: bool,
    pub link_href: Seq<char>,
    pub link_title: Option<Seq<char>>,
    pub link_start: usize,
    pub in_title: bool,
    pub heading_depth: u32,
    pub heading_flags: Seq<bool>,
    pub in_sup: bool,
    pub link_footnote: bool,
    pub inline_count: usize,
    pub inline_images: Seq<InlineView>,
    pub in_style: u8,
}

pub open spec fn html_start() -> HtmlScan {
    HtmlScan {
        paragraphs: seq![],
        current: seq![],
        text_indent: false,
        images: seq![],
        para_count: 0,
        links: seq![],
        cur_links: seq![],
        anchors: seq![],
        in_link: false,
        link_href: seq![],
        link_title: None,
        link_start: 0,
        in_title: false,
        heading_depth: 0,
        heading_flags: seq![],
        in_sup: false,
        link_footnote: false,
        inline_count: 0,
        inline_images: seq![],
        in_style: 0,
    }
}

pub open spec fn blank(s: Seq<char>) -> bool {
    trim(s).len() == 0
}

pub open spec fn sat_inc(p: isize) -> isize {
    if p < isize::MAX {
        (p + 1) as isize
    } else {
        p
    }
}

pub open spec fn is_heading(name: Seq<u8>) -> bool {
    ||| eq_ignore_case(name, lit_bytes("h1"@))
    ||| eq_ignore_case(name, lit_bytes("h2"@))
    ||| eq_ignore_case(name, lit_bytes("h3"@))
    ||| eq_ignore_case(name, lit_bytes("h4"@))
    ||| eq_ignore_case(name, lit_bytes("h5"@))
    ||| eq_ignore_case(name, lit_bytes("h6"@))
}

pub open spec fn is_block(name: Seq<u8>) -> bool {
    ||| eq_ignore_case(name, lit_bytes("p"@))
    ||| eq_ignore_case(name, lit_bytes("div"@))
    ||| eq_ignore_case(name, lit_bytes("li"@))
}

pub open spec fn is_break(name: Seq<u8>) -> bool {
    eq_ignore_case(name, lit_bytes("br"@)) || eq_ignore_case(name, lit_bytes("hr"@))
}

pub open spec fn is_style_or_script(name: Seq<u8>) -> bool {
    eq_ignore_case(name, lit_bytes("style"@)) || eq_ignore_case(name, lit_bytes("script"@))
}

/// Ends the paragraph being collected, when it holds more than whitespace.
pub open spec fn close_para(st: HtmlScan) -> HtmlScan {
    if !blank(st.current) {
        HtmlScan {
            paragraphs: st.paragraphs.push(st.current),
            current: seq![],
            links: st.links.push(st.cur_links),
            cur_links: seq![],
            heading_flags: st.heading_flags.push(st.heading_depth > 0),
            ..st
        }
    } else {
        st
    }
}

/// A line break: closes the paragraph and counts a paragraph position.
pub open spec fn break_para(st: HtmlScan) -> HtmlScan {
    let s = close_para(st);
    HtmlScan { text_indent: false, para_count: sat_inc(s.para_count), ..s }
}

/// Some `style*` attribute (exact-case prefix) mentions `text-indent`.
pub open spec fn has_indent_style(attrs: Seq<XmlAttr>) -> bool {
    exists|i: int|
        0 <= i < attrs.len() && bytes_prefix(#[trigger] attrs[i].key@, lit_bytes("style"@))
            && attrs[i].value is Some && contains(attrs[i].value->0@, "text-indent"@)
}

/// An href a link may point to: not blank, and not a script, mail or web address.
pub open spec fn link_target(t: Seq<char>) -> bool {
    &&& t.len() > 0
    &&& !has_prefix(t, "javascript:"@)
    &&& !has_prefix(t, "mailto:"@)
    &&& !has_prefix(t, "http://"@)
    &&& !has_prefix(t, "https://"@)
}

/// Href, title and footnote flag of a link element's attributes.
pub open spec fn link_attrs(attrs: Seq<XmlAttr>) -> (Seq<char>, Option<Seq<char>>, bool)
    decreases attrs.len(),
{
    if attrs.len() == 0 {
        (seq![], None, false)
    } else {
        let acc = link_attrs(attrs.drop_last());
        let a = attrs.last();
        if eq_ignore_case(a.key@, lit_bytes("href"@)) {
            match a.value {
                Some(v) => if link_target(trim(v@)) {
                    (trim(v@), acc.1, acc.2)
                } else {
                    acc
                },
                None => acc,
            }
        } else if eq_ignore_case(a.key@, lit_bytes("title"@)) {
            match a.value {
                Some(v) => (acc.0, Some(trim(v@)), acc.2),
                None => acc,
            }
        } else if eq_ignore_case(a.key@, lit_bytes("type"@)) {
            match a.value {
                Some(v) => if contains(v@, "noteref"@) {
                    (acc.0, acc.1, true)
                } else {
                    acc
                },
                None => acc,
            }
        } else {
            acc
        }
    }
}

/// Opening a link: its attributes replace the pending ones; with an href
/// the link starts at the current length of the paragraph.
pub open spec fn open_link(st: HtmlScan, attrs: Seq<XmlAttr>) -> HtmlScan {
    let la = link_attrs(attrs);
    let s = HtmlScan { link_href: la.0, link_title: la.1, link_footnote: la.2, ..st };
    if la.0.len() > 0 {
        HtmlScan { in_link: true, link_start: st.current.len() as usize, ..s }
    } else {
        s
    }
}

/// Placeholder put in the text for an inline image.
pub open spec fn placeholder(n: nat) -> Seq<char> {
    seq!['\u{E000}'] + decimal(n) + seq!['\u{E001}']
}

/// A style that makes an image sit in the line of text.
pub open spec fn inline_style(style: Option<Seq<char>>) -> bool {
    match style {
        Some(s) => contains(s, "height:1em"@) || contains(s, "display:inline"@) || contains(
            s,
            "display: inline"@,
        ),
        None => false,
    }
}

pub open spec fn with_anchors(st: HtmlScan, attrs: Seq<XmlAttr>) -> HtmlScan {
    HtmlScan { anchors: st.anchors + anchors_of(attrs, st.paragraphs.len() as usize), ..st }
}

/// Entering an element: `<title>`, `<style>` and `<script>` are tracked.
pub open spec fn enter_tag(st: HtmlScan, name: Seq<u8>) -> HtmlScan {
    HtmlScan {
        in_title: st.in_title || eq_ignore_case(name, lit_bytes("title"@)),
        in_style: if is_style_or_script(name) {
            if st.in_style < 255 {
                (st.in_style + 1) as u8
            } else {
                st.in_style
            }
        } else {
            st.in_style
        },
        ..st
    }
}

/// Entering a heading deepens the heading level.
pub open spec fn enter_heading(st: HtmlScan, name: Seq<u8>) -> HtmlScan {
    if is_heading(name) {
        HtmlScan {
            heading_depth: if st.heading_depth < u32::MAX {
                (st.heading_depth + 1) as u32
            } else {
                st.heading_depth
            },
            ..st
        }
    } else {
        st
    }
}

/// What an opening tag does once tracked and its anchors recorded.
pub open spec fn start_body(s3: HtmlScan, name: Seq<u8>, attrs: Seq<XmlAttr>) -> HtmlScan {
    if is_block(name) || is_heading(name) {
        let s4 = close_para(s3);
        HtmlScan { text_indent: s4.text_indent || has_indent_style(attrs), ..s4 }
    } else if is_break(name) {
        break_para(s3)
    } else if eq_ignore_case(name, lit_bytes("sup"@)) {
        HtmlScan { in_sup: true, ..s3 }
    } else if eq_ignore_case(name, lit_bytes("a"@)) {
        open_link(s3, attrs)
    } else {
        s3
    }
}

#[verifier::opaque]
pub open spec fn start_step(st: HtmlScan, t: XmlTag) -> HtmlScan {
    let name = t.name@;
    let attrs = t.attrs@;
    start_body(enter_heading(with_anchors(enter_tag(st, name), attrs), name), name, attrs)
}

#[verifier::opaque]
pub open spec fn empty_step(st: HtmlScan, t: XmlTag) -> HtmlScan {
    let name = t.name@;
    let attrs = t.attrs@;
    let s2 = with_anchors(st, attrs);
    if img_tag(name) {
        let ia = img_attrs(attrs);
        if ia.0.len() == 0 {
            s2
        } else if s2.current.len() > 0 && inline_style(ia.2) {
            HtmlScan {
                current: s2.current + placeholder(s2.inline_count as nat),
                inline_images: s2.inline_images.push((s2.inline_count, ia.0, ia.1)),
                inline_count: (s2.inline_count + 1) as usize,
                ..s2
            }
        } else {
            HtmlScan { images: s2.images.push(((s2.para_count - 1) as isize, ia.0, ia.1)), ..s2 }
        }
    } else if is_break(name) {
        break_para(s2)
    } else if eq_ignore_case(name, lit_bytes("a"@)) {
        open_link(s2, attrs)
    } else {
        s2
    }
}

/// Leaving an element: `<title>` drops the text gathered in it; `<style>`
/// and `<script>` are tracked.
pub open spec fn leave_tag(st: HtmlScan, name: Seq<u8>) -> HtmlScan {
    let s1 = if eq_ignore_case(name, lit_bytes("title"@)) {
        HtmlScan { in_title: false, current: seq![], ..st }
    } else {
        st
    };
    if is_style_or_script(name) {
        HtmlScan {
            in_style: if s1.in_style > 0 {
                (s1.in_style - 1) as u8
            } else {
                0
            },
            ..s1
        }
    } else {
        s1
    }
}

/// Closing a link records it when it spans some text.
pub open spec fn close_link(s2: HtmlScan) -> HtmlScan {
    let end = s2.current.len();
    let s3 = if end > s2.link_start {
        HtmlScan {
            cur_links: s2.cur_links.push(
                (
                    s2.link_start,
                    end as usize,
                    s2.link_href,
                    s2.link_title,
                    s2.link_footnote || s2.in_sup,
                ),
            ),
            ..s2
        }
    } else {
        s2
    };
    HtmlScan { in_link: false, link_href: seq![], link_title: None, link_footnote: false, ..s3 }
}

/// What a closing tag does once tracked.
pub open spec fn end_body(s2: HtmlScan, name: Seq<u8>) -> HtmlScan {
    let h = is_heading(name);
    if is_block(name) || h {
        let s3 = close_para(s2);
        HtmlScan {
            text_indent: false,
            para_count: sat_inc(s3.para_count),
            heading_depth: if h && s3.heading_depth > 0 {
                (s3.heading_depth - 1) as u32
            } else {
                s3.heading_depth
            },
            ..s3
        }
    } else if eq_ignore_case(name, lit_bytes("sup"@)) {
        HtmlScan { in_sup: false, ..s2 }
    } else if eq_ignore_case(name, lit_bytes("a"@)) && s2.in_link {
        close_link(s2)
    } else {
        s2
    }
}

#[verifier::opaque]
pub open spec fn end_step(st: HtmlScan, name: Seq<u8>) -> HtmlScan {
    end_body(leave_tag(st, name), name)
}

#[verifier::opaque]
pub open spec fn text_step(st: HtmlScan, text: Option<String>) -> HtmlScan {
    if st.in_title || st.in_style > 0 {
        st
    } else {
        match text {
            Some(t) => {
                let s1 = if st.text_indent && st.current.len() == 0 {
                    HtmlScan { current: INDENT_MARKER@, text_indent: false, ..st }
                } else {
                    st
                };
                HtmlScan { current: s1.current + t@, ..s1 }
            },
            None => st,
        }
    }
}

pub open spec fn html_step(st: HtmlScan, ev: XmlEvent) -> HtmlScan {
    match ev {
        XmlEvent::Start(t) => start_step(st, t),
        XmlEvent::Empty(t) => empty_step(st, t),
        XmlEvent::End(n) => end_step(st, n@),
        XmlEvent::Text(o) => text_step(st, o),
        _ => st,
    }
}

pub open spec fn html_scan(evs: Seq<XmlEvent>, k: int) -> HtmlScan
    decreases k,
{
    if k <= 0 {
        html_start()
    } else {
        html_step(html_scan(evs, k - 1), evs[k - 1])
    }
}

/// The final state of the scan over a chapter document, its last paragraph closed.
pub open spec fn html_extraction(html: Seq<char>) -> HtmlScan {
    let evs = xml_events(html);
    close_para(html_scan(evs, evs.len() as int))
}

// ---------------------------------------------------------------------------
// The scan
// ---------------------------------------------------------------------------

/// What the scan of a chapter document yields.
#[derive(Debug)]
pub struct HtmlExtractionResult {
    /// Paragraph texts.
    pub paragraphs: Vec<String>,
    /// Block images: the paragraph position before them, source, alternative text.
    pub images: Vec<(isize, String, Option<String>)>,
    /// Links of each paragraph.
    pub paragraph_links: Vec<Vec<TextLink>>,
    /// Anchors: fragment and the index of the paragraph they precede.
    pub anchors: Vec<(String, usize)>,
    /// Whether each paragraph lies inside a heading.
    pub heading_flags: Vec<bool>,
    /// Inline images: placeholder number, source, alternative text.
    pub inline_images: Vec<(usize, String, Option<String>)>,
}

pub open spec fn image_views(v: Seq<(isize, String, Option<String>)>) -> Seq<ImageView> {
    v.map_values(|x: (isize, String, Option<String>)| (x.0, x.1@, opt_view(x.2)))
}

pub open spec fn inline_views(v: Seq<(usize, String, Option<String>)>) -> Seq<InlineView> {
    v.map_values(|x: (usize, String, Option<String>)| (x.0, x.1@, opt_view(x.2)))
}

pub open spec fn para_links_view(v: Seq<Vec<TextLink>>) -> Seq<Seq<LinkView>> {
    v.map_values(|x: Vec<TextLink>| links_view(x@))
}

struct HtmlState {
    paragraphs: Vec<String>,
    current: Vec<char>,
    text_indent: bool,
    images: Vec<(isize, String, Option<String>)>,
    para_count: isize,
    links: Vec<Vec<TextLink>>,
    cur_links: Vec<TextLink>,
    anchors: Vec<(String, usize)>,
    in_link: bool,
    link_href: String,
    link_title: Option<String>,
    link_start: usize,
    in_title: bool,
    heading_depth: u32,
    heading_flags: Vec<bool>,
    in_sup: bool,
    link_footnote: bool,
    inline_count: usize,
    inline_images: Vec<(usize, String, Option<String>)>,
    in_style: u8,
}

impl HtmlState {
    spec fn aligned(&self) -> bool {
        self.paragraphs@.len() == self.links@.len() && self.links@.len() == self.heading_flags@.len()
    }

    spec fn model(&self) -> HtmlScan {
        HtmlScan {
            paragraphs: str_views(self.paragraphs@),
            current: self.current@,
            text_indent: self.text_indent,
            images: image_views(self.images@),
            para_count: self.para_count,
            links: para_links_view(self.links@),
            cur_links: links_view(self.cur_links@),
            anchors: anchor_views(self.anchors@),
            in_link: self.in_link,
            link_href: self.link_href@,
            link_title: opt_view(self.link_title),
            link_start: self.link_start,
            in_title: self.in_title,
            heading_depth: self.heading_depth,
            heading_flags: self.heading_flags@,
            in_sup: self.in_sup,
            link_footnote: self.link_footnote,
            inline_count: self.inline_count,
            inline_images: inline_views(self.inline_images@),
            in_style: self.in_style,
        }
    }
}

fn close_para_exec(st: &mut HtmlState)
    requires
        old(st).aligned(),
    ensures
        final(st).aligned(),
        final(st).model() == close_para(old(st).model()),
        final(st).inline_count == old(st).inline_count,
        final(st).para_count >= old(st).para_count,
{
    let t = trim_chars(&st.current);
    if t.len() > 0 {
        let ghost m = st.model();
        let p = from_chars(&st.current);
        st.paragraphs.push(p);
        st.current = Vec::new();
        let mut l: Vec<TextLink> = Vec::new();
        std::mem::swap(&mut l, &mut st.cur_links);
        st.links.push(l);
        let flag = st.heading_depth > 0;
        st.heading_flags.push(flag);
        assert(str_views(st.paragraphs@) =~= m.paragraphs.push(m.current));
        assert(para_links_view(st.links@) =~= m.links.push(m.cur_links));
        assert(links_view(st.cur_links@) =~= Seq::<LinkView>::empty());
        assert(st.model() =~= close_para(m));
    }
}

fn break_para_exec(st: &mut HtmlState)
    requires
        old(st).aligned(),
    ensures
        final(st).aligned(),
        final(st).model() == break_para(old(st).model()),
        final(st).inline_count == old(st).inline_count,
        final(st).para_count >= old(st).para_count,
{
    close_para_exec(st);
    st.text_indent = false;
    if st.para_count < isize::MAX {
        st.para_count = st.para_count + 1;
    }
}

fn is_heading_exec(name: &[u8]) -> (r: bool)
    ensures
        r == is_heading(name@),
{
    name_is(name, "h1") || name_is(name, "h2") || name_is(name, "h3") || name_is(name, "h4")
        || name_is(name, "h5") || name_is(name, "h6")
}

// ---------------------------------------------------------------------------
// Laws
// ---------------------------------------------------------------------------

/// A paragraph-level element: `p`, `div`, `li` or a heading `h1`–`h6`, in
/// any ASCII case.
pub open spec fn paragraph_element(n: Seq<u8>) -> bool {
    ||| eq_ignore_case(n, lit_bytes("p"@))
    ||| eq_ignore_case(n, lit_bytes("div"@))
    ||| eq_ignore_case(n, lit_bytes("li"@))
    ||| eq_ignore_case(n, lit_bytes("h1"@))
    ||| eq_ignore_case(n, lit_bytes("h2"@))
    ||| eq_ignore_case(n, lit_bytes("h3"@))
    ||| eq_ignore_case(n, lit_bytes("h4"@))
    ||| eq_ignore_case(n, lit_bytes("h5"@))
    ||| eq_ignore_case(n, lit_bytes("h6"@))
}

proof fn lemma_short_names(n: Seq<u8>)
    requires
        paragraph_element(n),
    ensures
        n.len() <= 3,
        lit_bytes("title"@).len() == 5,
        lit_bytes("style"@).len() == 5,
        lit_bytes("script"@).len() == 6,
        is_block(n) || is_heading(n),
{
    reveal_strlit("p");
    reveal_strlit("div");
    reveal_strlit("li");
    reveal_strlit("h1");
    reveal_strlit("h2");
    reveal_strlit("h3");
    reveal_strlit("h4");
    reveal_strlit("h5");
    reveal_strlit("h6");
    reveal_strlit("title");
    reveal_strlit("style");
    reveal_strlit("script");
    vstd::utf8::is_ascii_chars_encode_utf8("p"@);
    vstd::utf8::is_ascii_chars_encode_utf8("div"@);
    vstd::utf8::is_ascii_chars_encode_utf8("li"@);
    vstd::utf8::is_ascii_chars_encode_utf8("h1"@);
    vstd::utf8::is_ascii_chars_encode_utf8("h2"@);
    vstd::utf8::is_ascii_chars_encode_utf8("h3"@);
    vstd::utf8::is_ascii_chars_encode_utf8("h4"@);
    vstd::utf8::is_ascii_chars_encode_utf8("h5"@);
    vstd::utf8::is_ascii_chars_encode_utf8("h6"@);
    vstd::utf8::is_ascii_chars_encode_utf8("title"@);
    vstd::utf8::is_ascii_chars_encode_utf8("style"@);
    vstd::utf8::is_ascii_chars_encode_utf8("script"@);
}

/// Closing a paragraph-level element ends the paragraph being collected:
/// text gathered so far becomes the next paragraph, and collection starts
/// afresh.
pub proof fn law_block_end_closes_paragraph(st: HtmlScan, n: Vec<u8>)
    requires
        paragraph_element(n@),
        !blank(st.current),
    ensures
        html_step(st, XmlEvent::End(n)).paragraphs == st.paragraphs.push(st.current),
        html_step(st, XmlEvent::End(n)).current.len() == 0,
{
    lemma_short_names(n@);
    reveal(end_step);
}

/// Opening a paragraph-level element also ends the paragraph being
/// collected: text before it never runs into the text inside it.
pub proof fn law_block_start_closes_paragraph(st: HtmlScan, t: XmlTag)
    requires
        paragraph_element(t.name@),
        !blank(st.current),
    ensures
        html_step(st, XmlEvent::Start(t)).paragraphs == st.paragraphs.push(st.current),
        html_step(st, XmlEvent::Start(t)).current.len() == 0,
{
    lemma_short_names(t.name@);
    reveal(start_step);
}


fn is_block_exec(name: &[u8]) -> (r: bool)
    ensures
        r == is_block(name@),
{
    name_is(name, "p") || name_is(name, "div") || name_is(name, "li")
}

fn is_break_exec(name: &[u8]) -> (r: bool)
    ensures
        r == is_break(name@),
{
    name_is(name, "br") || name_is(name, "hr")
}

fn has_indent_style_exec(attrs: &Vec<XmlAttr>) -> (r: bool)
    ensures
        r == has_indent_style(attrs@),
{
    let pat = to_chars("text-indent");
    let mut i: usize = 0;
    while i < attrs.len()
        invariant
            i <= attrs.len(),
            pat@ == "text-indent"@,
            forall|j: int|
                0 <= j < i ==> !(bytes_prefix(#[trigger] attrs@[j].key@, lit_bytes("style"@))
                    && attrs@[j].value is Some && contains(attrs@[j].value->0@, "text-indent"@)),
        decreases attrs.len() - i,
    {
        let a = &attrs[i];
        if name_starts(&a.key, "style") {
            if let Some(v) = &a.value {
                if contains_chars(&to_chars(v.as_str()), &pat) {
                    assert(bytes_prefix(attrs@[i as int].key@, lit_bytes("style"@)));
                    return true;
                }
            }
        }
        i = i + 1;
    }
    false
}

fn link_target_exec(t: &[char]) -> (r: bool)
    ensures
        r == link_target(t@),
{
    t.len() > 0 && !starts_with(t, &to_chars("javascript:")) && !starts_with(
        t,
        &to_chars("mailto:"),
    ) && !starts_with(t, &to_chars("http://")) && !starts_with(t, &to_chars("https://"))
}

fn link_attrs_exec(attrs: &Vec<XmlAttr>) -> (r: (String, Option<String>, bool))
    ensures
        r.0@ == link_attrs(attrs@).0,
        opt_view(r.1) == link_attrs(attrs@).1,
        r.2 == link_attrs(attrs@).2,
{
    let mut href = String::new();
    let mut title: Option<String> = None;
    let mut note = false;
    let pat = to_chars("noteref");
    let mut i: usize = 0;
    while i < attrs.len()
        invariant
            i <= attrs.len(),
            pat@ == "noteref"@,
            ({
                let acc = link_attrs(attrs@.take(i as int));
                &&& href@ == acc.0
                &&& opt_view(title) == acc.1
                &&& note == acc.2
            }),
        decreases attrs.len() - i,
    {
        let a = &attrs[i];
        assert(attrs@.take(i + 1).drop_last() == attrs@.take(i as int));
        assert(attrs@.take(i + 1).last() == attrs@[i as int]);
        if name_is(&a.key, "href") {
            if let Some(v) = &a.value {
                let t = trim_chars(&to_chars(v.as_str()));
                if link_target_exec(&t) {
                    href = from_chars(&t);
                }
            }
        } else if name_is(&a.key, "title") {
            if let Some(v) = &a.value {
                let t = trim_chars(&to_chars(v.as_str()));
                title = Some(from_chars(&t));
            }
        } else if name_is(&a.key, "type") {
            if let Some(v) = &a.value {
                if contains_chars(&to_chars(v.as_str()), &pat) {
                    note = true;
                }
            }
        }
        i = i + 1;
    }
    assert(attrs@.take(attrs@.len() as int) == attrs@);
    (href, title, note)
}

fn open_link_exec(st: &mut HtmlState, attrs: &Vec<XmlAttr>)
    requires
        old(st).aligned(),
    ensures
        final(st).aligned(),
        final(st).model() == open_link(old(st).model(), attrs@),
        final(st).inline_count == old(st).inline_count,
        final(st).para_count >= old(st).para_count,
{
    let (href, title, note) = link_attrs_exec(attrs);
    let has_href = !href.as_str().is_empty();
    st.link_href = href;
    st.link_title = title;
    st.link_footnote = note;
    if has_href {
        st.in_link = true;
        st.link_start = st.current.len();
    }
}

pub fn placeholder_exec(n: usize) -> (r: Vec<char>)
    ensures
        r@ == placeholder(n as nat),
{
    let mut r: Vec<char> = Vec::new();
    r.push('\u{E000}');
    let d = decimal_chars(n);
    extend_chars(&mut r, &d);
    r.push('\u{E001}');
    r
}

fn inline_style_exec(style: &Option<String>) -> (r: bool)
    ensures
        r == inline_style(opt_view(*style)),
{
    match style {
        Some(s) => {
            let v = to_chars(s.as_str());
            contains_chars(&v, &to_chars("height:1em")) || contains_chars(
                &v,
                &to_chars("display:inline"),
            ) || contains_chars(&v, &to_chars("display: inline"))
        },
        None => false,
    }
}

fn enter_tag_exec(st: &mut HtmlState, name: &Vec<u8>)
    requires
        old(st).aligned(),
    ensures
        final(st).aligned(),
        final(st).model() == enter_tag(old(st).model(), name@),
        final(st).inline_count == old(st).inline_count,
        final(st).para_count >= old(st).para_count,
{
    if name_is(name, "title") {
        st.in_title = true;
    }
    if name_is(name, "style") || name_is(name, "script") {
        if st.in_style < 255 {
            st.in_style = st.in_style + 1;
        }
    }
}

fn with_anchors_exec(st: &mut HtmlState, attrs: &Vec<XmlAttr>)
    requires
        old(st).aligned(),
    ensures
        final(st).aligned(),
        final(st).model() == with_anchors(old(st).model(), attrs@),
        final(st).inline_count == old(st).inline_count,
        final(st).para_count >= old(st).para_count,
{
    let n = st.paragraphs.len();
    record_anchor(attrs, &mut st.anchors, n);
}

fn enter_heading_exec(st: &mut HtmlState, name: &Vec<u8>)
    requires
        old(st).aligned(),
    ensures
        final(st).aligned(),
        final(st).model() == enter_heading(old(st).model(), name@),
        final(st).inline_count == old(st).inline_count,
        final(st).para_count >= old(st).para_count,
{
    if is_heading_exec(name) {
        if st.heading_depth < u32::MAX {
            st.heading_depth = st.heading_depth + 1;
        }
    }
}

fn start_body_exec(st: &mut HtmlState, name: &Vec<u8>, attrs: &Vec<XmlAttr>)
    requires
        old(st).aligned(),
    ensures
        final(st).aligned(),
        final(st).model() == start_body(old(st).model(), name@, attrs@),
        final(st).inline_count == old(st).inline_count,
        final(st).para_count >= old(st).para_count,
{
    if is_block_exec(name) || is_heading_exec(name) {
        close_para_exec(st);
        if has_indent_style_exec(attrs) {
            st.text_indent = true;
        }
    } else if is_break_exec(name) {
        break_para_exec(st);
    } else if name_is(name, "sup") {
        st.in_sup = true;
    } else if name_is(name, "a") {
        open_link_exec(st, attrs);
    }
}

fn start_exec(st: &mut HtmlState, t: &XmlTag)
    requires
        old(st).aligned(),
    ensures
        final(st).aligned(),
        final(st).model() == start_step(old(st).model(), *t),
        final(st).inline_count == old(st).inline_count,
        final(st).para_count >= old(st).para_count,
{
    reveal(start_step);
    enter_tag_exec(st, &t.name);
    with_anchors_exec(st, &t.attrs);
    enter_heading_exec(st, &t.name);
    start_body_exec(st, &t.name, &t.attrs);
}

fn empty_exec(st: &mut HtmlState, t: &XmlTag)
    requires
        old(st).aligned(),
        old(st).inline_count < usize::MAX,
        old(st).para_count >= 0,
    ensures
        final(st).aligned(),
        final(st).model() == empty_step(old(st).model(), *t),
        final(st).inline_count <= old(st).inline_count + 1,
        final(st).para_count >= old(st).para_count,
{
    reveal(empty_step);
    let name = &t.name;
    let n = st.paragraphs.len();
    record_anchor(&t.attrs, &mut st.anchors, n);
    if is_img_tag(name) {
        let (src, alt, style) = read_img_attrs(&t.attrs);
        if !src.as_str().is_empty() {
            if st.current.len() > 0 && inline_style_exec(&style) {
                let ghost m = st.model();
                let ph = placeholder_exec(st.inline_count);
                extend_chars(&mut st.current, &ph);
                let ghost sv = src@;
                let ghost av = opt_view(alt);
                st.inline_images.push((st.inline_count, src, alt));
                assert(inline_views(st.inline_images@) =~= m.inline_images.push(
                    (m.inline_count, sv, av),
                ));
                st.inline_count = st.inline_count + 1;
            } else {
                let ghost m = st.model();
                let ghost sv = src@;
                let ghost av = opt_view(alt);
                st.images.push((st.para_count - 1, src, alt));
                assert(image_views(st.images@) =~= m.images.push(
                    ((m.para_count - 1) as isize, sv, av),
                ));
            }
        }
    } else if is_break_exec(name) {
        break_para_exec(st);
    } else if name_is(name, "a") {
        open_link_exec(st, &t.attrs);
    }
}

fn leave_tag_exec(st: &mut HtmlState, name: &Vec<u8>)
    requires
        old(st).aligned(),
    ensures
        final(st).aligned(),
        final(st).model() == leave_tag(old(st).model(), name@),
        final(st).inline_count == old(st).inline_count,
        final(st).para_count >= old(st).para_count,
{
    if name_is(name, "title") {
        st.in_title = false;
        st.current = Vec::new();
    }
    if name_is(name, "style") || name_is(name, "script") {
        if st.in_style > 0 {
            st.in_style = st.in_style - 1;
        }
    }
}

fn close_link_exec(st: &mut HtmlState)
    requires
        old(st).aligned(),
    ensures
        final(st).aligned(),
        final(st).model() == close_link(old(st).model()),
        final(st).inline_count == old(st).inline_count,
        final(st).para_count >= old(st).para_count,
{
    let end = st.current.len();
    if end > st.link_start {
        let ghost m = st.model();
        let link = TextLink {
            start: st.link_start,
            end,
            href: st.link_href.clone(),
            title: crate::xml::clone_opt_string(&st.link_title),
            is_footnote: st.link_footnote || st.in_sup,
        };
        st.cur_links.push(link);
        assert(links_view(st.cur_links@) =~= m.cur_links.push(
            (m.link_start, end, m.link_href, m.link_title, m.link_footnote || m.in_sup),
        ));
    }
    st.in_link = false;
    st.link_href = String::new();
    st.link_title = None;
    st.link_footnote = false;
}

fn end_body_exec(st: &mut HtmlState, name: &Vec<u8>)
    requires
        old(st).aligned(),
    ensures
        final(st).aligned(),
        final(st).model() == end_body(old(st).model(), name@),
        final(st).inline_count == old(st).inline_count,
        final(st).para_count >= old(st).para_count,
{
    let h = is_heading_exec(name);
    if is_block_exec(name) || h {
        close_para_exec(st);
        st.text_indent = false;
        if st.para_count < isize::MAX {
            st.para_count = st.para_count + 1;
        }
        if h && st.heading_depth > 0 {
            st.heading_depth = st.heading_depth - 1;
        }
    } else if name_is(name, "sup") {
        st.in_sup = false;
    } else if name_is(name, "a") && st.in_link {
        close_link_exec(st);
    }
}

fn end_exec(st: &mut HtmlState, name: &Vec<u8>)
    requires
        old(st).aligned(),
    ensures
        final(st).aligned(),
        final(st).model() == end_step(old(st).model(), name@),
        final(st).inline_count == old(st).inline_count,
        final(st).para_count >= old(st).para_count,
{
    reveal(end_step);
    leave_tag_exec(st, name);
    end_body_exec(st, name);
}

fn text_exec(st: &mut HtmlState, text: &Option<String>)
    requires
        old(st).aligned(),
    ensures
        final(st).aligned(),
        final(st).model() == text_step(old(st).model(), *text),
        final(st).inline_count == old(st).inline_count,
        final(st).para_count >= old(st).para_count,
{
    reveal(text_step);
    if st.in_title || st.in_style > 0 {
        return ;
    }
    match text {
        Some(t) => {
            if st.text_indent && st.current.len() == 0 {
                st.current = to_chars(INDENT_MARKER);
                st.text_indent = false;
            }
            let tv = to_chars(t.as_str());
            extend_chars(&mut st.current, &tv);
        },
        None => {},
    }
}

impl EpubParser {
    /// One pass over a chapter document: paragraph texts with their links
    /// and heading flags, anchors, block image positions and inline images.
    pub fn extract_html_with_positions(&self, html: &str) -> (r: HtmlExtractionResult)
        ensures
            r.paragraphs@.len() == r.paragraph_links@.len(),
            r.paragraphs@.len() == r.heading_flags@.len(),
            ({
                let x = html_extraction(html@);
                &&& str_views(r.paragraphs@) == x.paragraphs
                &&& image_views(r.images@) == x.images
                &&& para_links_view(r.paragraph_links@) == x.links
                &&& anchor_views(r.anchors@) == x.anchors
                &&& r.heading_flags@ == x.heading_flags
                &&& inline_views(r.inline_images@) == x.inline_images
            }),
    {
        let evs = read_events(html);
        let mut st = HtmlState {
            paragraphs: Vec::new(),
            current: Vec::new(),
            text_indent: false,
            images: Vec::new(),
            para_count: 0,
            links: Vec::new(),
            cur_links: Vec::new(),
            anchors: Vec::new(),
            in_link: false,
            link_href: String::new(),
            link_title: None,
            link_start: 0,
            in_title: false,
            heading_depth: 0,
            heading_flags: Vec::new(),
            in_sup: false,
            link_footnote: false,
            inline_count: 0,
            inline_images: Vec::new(),
            in_style: 0,
        };
        assert(st.model() =~= html_start());
        let mut k: usize = 0;
        while k < evs.len()
            invariant
                k <= evs.len(),
                evs@ == xml_events(html@),
                st.model() == html_scan(evs@, k as int),
                st.inline_count <= k,
                st.para_count >= 0,
                st.aligned(),
            decreases evs.len() - k,
        {
            match &evs[k] {
                XmlEvent::Start(t) => start_exec(&mut st, t),
                XmlEvent::Empty(t) => empty_exec(&mut st, t),
                XmlEvent::End(n) => end_exec(&mut st, n),
                XmlEvent::Text(o) => text_exec(&mut st, o),
                _ => {},
            }
            k = k + 1;
        }
        close_para_exec(&mut st);
        HtmlExtractionResult {
            paragraphs: st.paragraphs,
            images: st.images,
            paragraph_links: st.links,
            anchors: st.anchors,
            heading_flags: st.heading_flags,
            inline_images: st.inline_images,
        }
    }
}

// ---------------------------------------------------------------------------
// Noise and cover checks
// ---------------------------------------------------------------------------

/// Number of occurrences of `c` in `s`.
pub open spec fn count_char(s: Seq<char>, c: char) -> nat
    decreases s.len(),
{
    if s.len() == 0 {
        0
    } else {
        count_char(s.drop_last(), c) + if s.last() == c {
            1nat
        } else {
            0nat
        }
    }
}

/// Markup left in the text: a trimmed paragraph that opens like an XML,
/// SVG or HTML document, or a short one (under 200 characters) in which
/// more than 8% of the characters are `<`.
pub open spec fn xml_noise(text: Seq<char>) -> bool {
    let t = trim(text);
    if t.len() == 0 {
        false
    } else if has_prefix(t, "<?xml"@) || has_prefix(t, "<svg"@) || has_prefix(t, "<html"@)
        || has_prefix(t, "<body"@) || has_prefix(t, "<metadata"@) {
        true
    } else {
        let tags = count_char(t, '<');
        tags > 0 && 25 * tags > 2 * t.len() && t.len() < 200
    }
}

/// Text that is only a cover label, or only blank and noise paragraphs.
pub open spec fn cover_only(text: Seq<char>) -> bool {
    let t = trim(text);
    if t == "Cover"@ || t == "COVER"@ || t == "封面"@ || t == "COVER PAGE"@ {
        true
    } else {
        let parts = split(t, "\n\n"@);
        t.len() > 0 && forall|i: int|
            0 <= i < parts.len() ==> blank(#[trigger] parts[i]) || xml_noise(parts[i])
    }
}

fn count_char_exec(s: &[char], c: char) -> (r: usize)
    ensures
        r == count_char(s@, c),
        r <= s@.len(),
{
    let mut n: usize = 0;
    let mut i: usize = 0;
    while i < s.len()
        invariant
            i <= s.len(),
            n == count_char(s@.take(i as int), c),
            n <= i,
        decreases s.len() - i,
    {
        assert(s@.take(i + 1).drop_last() == s@.take(i as int));
        if s[i] == c {
            n = n + 1;
        }
        i = i + 1;
    }
    assert(s@.take(s@.len() as int) == s@);
    n
}

fn xml_noise_chars(text: &[char]) -> (r: bool)
    ensures
        r == xml_noise(text@),
{
    let t = trim_chars(text);
    if t.len() == 0 {
        return false;
    }
    if starts_with(&t, &to_chars("<?xml")) || starts_with(&t, &to_chars("<svg")) || starts_with(
        &t,
        &to_chars("<html"),
    ) || starts_with(&t, &to_chars("<body")) || starts_with(&t, &to_chars("<metadata")) {
        return true;
    }
    let tags = count_char_exec(&t, '<');
    let total = t.len();
    tags > 0 && total < 200 && 25 * tags > 2 * total
}

impl EpubParser {
    /// Whether a paragraph is markup noise rather than text.
    pub fn is_xml_noise(text: &str) -> (r: bool)
        ensures
            r == xml_noise(text@),
    {
        xml_noise_chars(&to_chars(text))
    }

    /// Whether a chapter's text is only a cover label or only noise.
    pub fn is_cover_only_text(text: &str) -> (r: bool)
        ensures
            r == cover_only(text@),
    {
        let t = trim_chars(&to_chars(text));
        if crate::text::chars_eq(&t, &to_chars("Cover")) || crate::text::chars_eq(
            &t,
            &to_chars("COVER"),
        ) || crate::text::chars_eq(&t, &to_chars("封面")) || crate::text::chars_eq(
            &t,
            &to_chars("COVER PAGE"),
        ) {
            return true;
        }
        if t.len() == 0 {
            return false;
        }
        let sep = to_chars("\n\n");
        proof {
            reveal_strlit("\n\n");
        }
        let parts = split_chars(&t, &sep);
        let mut i: usize = 0;
        while i < parts.len()
            invariant
                i <= parts.len(),
                t@ == trim(text@),
                !(t@ == "Cover"@ || t@ == "COVER"@ || t@ == "封面"@ || t@ == "COVER PAGE"@),
                t@.len() > 0,
                views(parts@) == split(t@, "\n\n"@),
                forall|j: int|
                    0 <= j < i ==> blank(#[trigger] views(parts@)[j]) || xml_noise(
                        views(parts@)[j],
                    ),
            decreases parts.len() - i,
        {
            let p = &parts[i];
            assert(views(parts@)[i as int] == p@);
            let pt = trim_chars(p);
            if pt.len() > 0 && !xml_noise_chars(p) {
                assert(!(blank(views(parts@)[i as int]) || xml_noise(views(parts@)[i as int])));
                return false;
            }
            i = i + 1;
        }
        true
    }
}

// ---------------------------------------------------------------------------
// Titles
// ---------------------------------------------------------------------------

/// Chinese chapter prefix: `第` + numeral + `章/节/回/卷`.
pub const CN_CHAPTER_PATTERN: &'static str = "^第[一二三四五六七八九十百千零\\d]+[章节回卷]\\s*";

/// English chapter prefix: `Chapter N`, `CH N`, any case, with separators.
pub const EN_CHAPTER_PATTERN: &'static str = "(?i)^(?:chapter|ch)\\s*\\d*\\s*[:.\\-–—\\s]*";

/// Numbered prefix: digits, a dot and whitespace.
pub const NUM_DOT_PATTERN: &'static str = "^\\d+\\.\\s+";

/// The text after the first match of a regular expression in `text`, or
/// `None` when it does not match (or the pattern does not compile).
pub uninterp spec fn regex_rest(pattern: Seq<char>, text: Seq<char>) -> Option<Seq<char>>;

/// Compiles `pattern` with `regex::Regex::new` and calls `Regex::find` on
/// `text`; returns the text after the end of the match. Claims only that the
/// result is the value `regex_rest` names for these arguments.
#[verifier::external_body]
fn regex_rest_after_match(pattern: &str, text: &str) -> (r: Option<String>)
    ensures
        opt_view(r) == regex_rest(pattern@, text@),
{
    match regex::Regex::new(pattern) {
        Ok(re) => match re.find(text) {
            Some(m) => Some(text[m.end()..].to_string()),
            None => None,
        },
        Err(_) => None,
    }
}

/// What is left after a prefix pattern, when the pattern matches and leaves
/// more than whitespace.
pub open spec fn stripped_by(pattern: Seq<char>, t: Seq<char>) -> Option<Seq<char>> {
    match regex_rest(pattern, t) {
        Some(rest) => if trim(rest).len() > 0 {
            Some(trim(rest))
        } else {
            None
        },
        None => None,
    }
}

/// A cleaned title: whitespace runs collapsed to one space, then the first
/// chapter-number prefix (Chinese, English, numbered) that leaves some text removed.
pub open spec fn cleaned_title(title: Seq<char>) -> Seq<char> {
    let t = trim(join(words(title), " "@));
    if t.len() == 0 {
        seq![]
    } else if stripped_by(CN_CHAPTER_PATTERN@, t) is Some {
        stripped_by(CN_CHAPTER_PATTERN@, t)->0
    } else if stripped_by(EN_CHAPTER_PATTERN@, t) is Some {
        stripped_by(EN_CHAPTER_PATTERN@, t)->0
    } else if stripped_by(NUM_DOT_PATTERN@, t) is Some {
        stripped_by(NUM_DOT_PATTERN@, t)->0
    } else {
        t
    }
}

fn strip_prefix_pattern(pattern: &str, t: &str) -> (r: Option<String>)
    ensures
        opt_view(r) == stripped_by(pattern@, t@),
{
    match regex_rest_after_match(pattern, t) {
        Some(rest) => {
            let rt = trim_chars(&to_chars(rest.as_str()));
            if rt.len() > 0 {
                Some(from_chars(&rt))
            } else {
                None
            }
        },
        None => None,
    }
}

impl EpubParser {
    /// Cleans a chapter title: collapses whitespace and drops a leading
    /// chapter number (`第三章`, `Chapter 3:`, `3. `) when text remains after it.
    pub fn clean_title(title: &str) -> (r: String)
        ensures
            r@ == cleaned_title(title@),
    {
        let ws = words_chars(&to_chars(title));
        let joined = join_chars(&ws, &to_chars(" "));
        let t = trim_chars(&joined);
        if t.len() == 0 {
            return String::new();
        }
        let ts = from_chars(&t);
        if let Some(r) = strip_prefix_pattern(CN_CHAPTER_PATTERN, ts.as_str()) {
            return r;
        }
        if let Some(r) = strip_prefix_pattern(EN_CHAPTER_PATTERN, ts.as_str()) {
            return r;
        }
        if let Some(r) = strip_prefix_pattern(NUM_DOT_PATTERN, ts.as_str()) {
            return r;
        }
        ts
    }
}

/// State of the title scan: heading text, `<title>` text, heading depth,
/// inside `<title>`, inside a title-classed element and its depth, finished.
#[verifier::ext_equal]
pub struct TitleScan {
    pub h_title: Seq<char>,
    pub html_title: Seq<char>,
    pub depth: u8,
    pub in_title: bool,
    pub in_class: bool,
    pub class_depth: u8,
    pub done: bool,
}

pub open spec fn title_start_state() -> TitleScan {
    TitleScan {
        h_title: seq![],
        html_title: seq![],
        depth: 0,
        in_title: false,
        in_class: false,
        class_depth: 0,
        done: false,
    }
}

/// `h1`, `h2` or `h3` (exact-case prefix).
pub open spec fn is_hx(name: Seq<u8>) -> bool {
    ||| bytes_prefix(name, lit_bytes("h1"@))
    ||| bytes_prefix(name, lit_bytes("h2"@))
    ||| bytes_prefix(name, lit_bytes("h3"@))
}

/// A `class` attribute that mentions `title` or `heading`.
pub open spec fn class_marks(attrs: Seq<XmlAttr>) -> bool {
    exists|i: int|
        0 <= i < attrs.len() && #[trigger] attrs[i].key@ == lit_bytes("class"@)
            && attrs[i].value is Some && (contains(attrs[i].value->0@, "title"@) || contains(
            attrs[i].value->0@,
            "heading"@,
        ))
}

pub open spec fn title_start(st: TitleScan, t: XmlTag) -> TitleScan {
    let name = t.name@;
    let s1 = if is_hx(name) {
        TitleScan {
            h_title: if st.depth == 0 {
                seq![]
            } else {
                st.h_title
            },
            depth: inc8(st.depth),
            ..st
        }
    } else {
        st
    };
    let s2 = if bytes_prefix(name, lit_bytes("title"@)) {
        TitleScan { in_title: true, html_title: seq![], ..s1 }
    } else {
        s1
    };
    if s2.depth == 0 && !s2.in_class {
        if class_marks(t.attrs@) {
            TitleScan { in_class: true, class_depth: 1, h_title: seq![], ..s2 }
        } else {
            s2
        }
    } else if s2.in_class {
        TitleScan { class_depth: inc8(s2.class_depth), ..s2 }
    } else {
        s2
    }
}

pub open spec fn title_end(st: TitleScan, name: Seq<u8>) -> TitleScan {
    if is_hx(name) && st.depth == 1 {
        TitleScan { depth: 0, done: true, ..st }
    } else {
        let s1 = if is_hx(name) && st.depth > 0 {
            TitleScan { depth: (st.depth - 1) as u8, ..st }
        } else {
            st
        };
        let s2 = if bytes_prefix(name, lit_bytes("title"@)) {
            TitleScan { in_title: false, ..s1 }
        } else {
            s1
        };
        if s2.in_class {
            let cd = dec8(s2.class_depth);
            if cd == 0 {
                TitleScan {
                    in_class: false,
                    class_depth: 0,
                    done: s2.h_title.len() > 0,
                    ..s2
                }
            } else {
                TitleScan { class_depth: cd, ..s2 }
            }
        } else {
            s2
        }
    }
}

pub open spec fn title_text(st: TitleScan, text: Option<String>) -> TitleScan {
    match text {
        Some(t) => {
            let s1 = if st.depth > 0 {
                TitleScan { h_title: st.h_title + t@, ..st }
            } else {
                st
            };
            let s2 = if s1.in_title {
                TitleScan { html_title: s1.html_title + t@, ..s1 }
            } else {
                s1
            };
            if s2.in_class {
                TitleScan { h_title: s2.h_title + t@, ..s2 }
            } else {
                s2
            }
        },
        None => st,
    }
}

pub open spec fn title_step(st: TitleScan, ev: XmlEvent) -> TitleScan {
    if st.done {
        st
    } else {
        match ev {
            XmlEvent::Start(t) => title_start(st, t),
            XmlEvent::End(n) => title_end(st, n@),
            XmlEvent::Text(o) => title_text(st, o),
            _ => st,
        }
    }
}

pub open spec fn title_scan(evs: Seq<XmlEvent>, k: int) -> TitleScan
    decreases k,
{
    if k <= 0 {
        title_start_state()
    } else {
        title_step(title_scan(evs, k - 1), evs[k - 1])
    }
}

/// The title a chapter document gives before cleaning: the text of its first
/// `h1`-`h3` heading (or title-classed element), else of its `<title>`.
pub open spec fn raw_title(html: Seq<char>) -> Seq<char> {
    let evs = xml_events(html);
    let st = title_scan(evs, evs.len() as int);
    if st.h_title.len() > 0 {
        trim(st.h_title)
    } else if st.html_title.len() > 0 {
        trim(st.html_title)
    } else {
        seq![]
    }
}

struct TitleState {
    h_title: Vec<char>,
    html_title: Vec<char>,
    depth: u8,
    in_title: bool,
    in_class: bool,
    class_depth: u8,
    done: bool,
}

impl TitleState {
    spec fn model(&self) -> TitleScan {
        TitleScan {
            h_title: self.h_title@,
            html_title: self.html_title@,
            depth: self.depth,
            in_title: self.in_title,
            in_class: self.in_class,
            class_depth: self.class_depth,
            done: self.done,
        }
    }
}

fn is_hx_exec(name: &[u8]) -> (r: bool)
    ensures
        r == is_hx(name@),
{
    name_starts(name, "h1") || name_starts(name, "h2") || name_starts(name, "h3")
}

fn class_marks_exec(attrs: &Vec<XmlAttr>) -> (r: bool)
    ensures
        r == class_marks(attrs@),
{
    let key = "class".as_bytes();
    let p1 = to_chars("title");
    let p2 = to_chars("heading");
    let mut i: usize = 0;
    while i < attrs.len()
        invariant
            i <= attrs.len(),
            key@ == lit_bytes("class"@),
            p1@ == "title"@,
            p2@ == "heading"@,
            forall|j: int|
                0 <= j < i ==> !(#[trigger] attrs@[j].key@ == lit_bytes("class"@)
                    && attrs@[j].value is Some && (contains(attrs@[j].value->0@, "title"@)
                    || contains(attrs@[j].value->0@, "heading"@))),
        decreases attrs.len() - i,
    {
        let a = &attrs[i];
        if crate::xml::bytes_eq(&a.key, key) {
            if let Some(v) = &a.value {
                let vv = to_chars(v.as_str());
                if contains_chars(&vv, &p1) || contains_chars(&vv, &p2) {
                    assert(attrs@[i as int].key@ == lit_bytes("class"@));
                    return true;
                }
            }
        }
        i = i + 1;
    }
    false
}

fn title_start_exec(st: &mut TitleState, t: &XmlTag)
    ensures
        final(st).model() == title_start(old(st).model(), *t),
{
    let name = &t.name;
    if is_hx_exec(name) {
        if st.depth == 0 {
            st.h_title = Vec::new();
        }
        st.depth = inc8_exec(st.depth);
    }
    if name_starts(name, "title") {
        st.in_title = true;
        st.html_title = Vec::new();
    }
    if st.depth == 0 && !st.in_class {
        if class_marks_exec(&t.attrs) {
            st.in_class = true;
            st.class_depth = 1;
            st.h_title = Vec::new();
        }
    } else if st.in_class {
        st.class_depth = inc8_exec(st.class_depth);
    }
}

fn title_end_exec(st: &mut TitleState, name: &Vec<u8>)
    ensures
        final(st).model() == title_end(old(st).model(), name@),
{
    let hx = is_hx_exec(name);
    if hx && st.depth == 1 {
        st.depth = 0;
        st.done = true;
        return ;
    }
    if hx && st.depth > 0 {
        st.depth = st.depth - 1;
    }
    if name_starts(name, "title") {
        st.in_title = false;
    }
    if st.in_class {
        let cd = dec8_exec(st.class_depth);
        if cd == 0 {
            st.in_class = false;
            st.class_depth = 0;
            st.done = st.h_title.len() > 0;
        } else {
            st.class_depth = cd;
        }
    }
}

fn title_text_exec(st: &mut TitleState, text: &Option<String>)
    ensures
        final(st).model() == title_text(old(st).model(), *text),
{
    if let Some(t) = text {
        let tv = to_chars(t.as_str());
        if st.depth > 0 {
            extend_chars(&mut st.h_title, &tv);
        }
        if st.in_title {
            extend_chars(&mut st.html_title, &tv);
        }
        if st.in_class {
            extend_chars(&mut st.h_title, &tv);
        }
    }
}

impl EpubParser {
    /// The title of a chapter document: its first heading (`h1`-`h3`, or an
    /// element whose class mentions a title or heading), else its `<title>`,
    /// trimmed and cleaned.
    pub fn extract_title(&self, html: &str) -> (r: String)
        ensures
            r@ == cleaned_title(raw_title(html@)),
    {
        let evs = read_events(html);
        let mut st = TitleState {
            h_title: Vec::new(),
            html_title: Vec::new(),
            depth: 0,
            in_title: false,
            in_class: false,
            class_depth: 0,
            done: false,
        };
        let mut k: usize = 0;
        while k < evs.len()
            invariant
                k <= evs.len(),
                evs@ == xml_events(html@),
                st.model() == title_scan(evs@, k as int),
            decreases evs.len() - k,
        {
            if !st.done {
                match &evs[k] {
                    XmlEvent::Start(t) => title_start_exec(&mut st, t),
                    XmlEvent::End(n) => title_end_exec(&mut st, n),
                    XmlEvent::Text(o) => title_text_exec(&mut st, o),
                    _ => {},
                }
            }
            k = k + 1;
        }
        let result = if st.h_title.len() > 0 {
            trim_chars(&st.h_title)
        } else if st.html_title.len() > 0 {
            trim_chars(&st.html_title)
        } else {
            Vec::new()
        };
        Self::clean_title(&from_chars(&result))
    }
}

} // verus!
