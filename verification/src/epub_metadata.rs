//! EPUB container and package (OPF) documents: OPF location, manifest,
//! spine, cover and metadata.

use vstd::prelude::*;
use crate::domain::BookMetadata;
use crate::epub_parser::EpubParser;
use crate::opf_utils::{
    key_pos, keys_unique, lemma_key_pos, map_get, map_insert, map_insert_exec, map_lookup,
    pair_views,
};
use crate::text::{
    contains, contains_chars, extend_chars, find, find_chars, from_chars, has_prefix,
    lemma_find_from, slice_chars, starts_with, str_views, to_chars, trim, trim_chars,
};
use crate::xml::{
    XmlEvent, XmlTag, bytes_eq, eq_ignore_case, lit_bytes, name_is, read_events, xml_events,
};
use crate::xml_attrs::{
    all_attrs, all_attrs_exec, first_attr, first_attr_exec, last_attr, last_attr_exec, opt_view,
};

verus! {

// ---------------------------------------------------------------------------
// container.xml
// ---------------------------------------------------------------------------

/// The `full-path` a `rootfile` tag declares.
pub open spec fn rootfile_path(ev: XmlEvent) -> Option<Seq<char>> {
    match ev {
        XmlEvent::Start(t) | XmlEvent::Empty(t) => if eq_ignore_case(t.name@, lit_bytes("rootfile"@)) {
            first_attr(t.attrs@, lit_bytes("full-path"@))
        } else {
            None
        },
        _ => None,
    }
}

/// The first declared OPF path among the first `n` events.
pub open spec fn first_rootfile_path(evs: Seq<XmlEvent>, n: int) -> Option<Seq<char>>
    decreases n,
{
    if n <= 0 {
        None
    } else {
        match first_rootfile_path(evs, n - 1) {
            Some(p) => Some(p),
            None => rootfile_path(evs[n - 1]),
        }
    }
}

pub proof fn lemma_first_rootfile_path_prefix(evs: Seq<XmlEvent>, n: int)
    requires
        0 <= n <= evs.len(),
        first_rootfile_path(evs, n) is Some,
    ensures
        first_rootfile_path(evs, evs.len() as int) == first_rootfile_path(evs, n),
    decreases evs.len() - n,
{
    if n < evs.len() {
        lemma_first_rootfile_path_prefix(evs, n + 1);
    }
}

fn rootfile_path_exec(ev: &XmlEvent) -> (r: Option<String>)
    ensures
        opt_view(r) == rootfile_path(*ev),
{
    match ev {
        XmlEvent::Start(t) | XmlEvent::Empty(t) => {
            if name_is(&t.name, "rootfile") {
                first_attr_exec(&t.attrs, "full-path")
            } else {
                None
            }
        },
        _ => None,
    }
}

impl EpubParser {
    /// The OPF path declared by `container.xml`: the `full-path` of the first
    /// `rootfile` element that has one.
    pub fn parse_container_xml(&self, content: &str) -> (r: Option<String>)
        ensures
            opt_view(r) == first_rootfile_path(
                xml_events(content@),
                xml_events(content@).len() as int,
            ),
    {
        let evs = read_events(content);
        let mut k: usize = 0;
        while k < evs.len()
            invariant
                k <= evs.len(),
                evs@ == xml_events(content@),
                first_rootfile_path(evs@, k as int) is None,
            decreases evs.len() - k,
        {
            match rootfile_path_exec(&evs[k]) {
                Some(p) => {
                    proof {
                        lemma_first_rootfile_path_prefix(evs@, (k + 1) as int);
                    }
                    return Some(p);
                },
                None => {},
            }
            k = k + 1;
        }
        None
    }
}

// ---------------------------------------------------------------------------
// Package document: manifest, spine, cover
// ---------------------------------------------------------------------------

/// State of the OPF scan.
pub struct OpfScan {
    pub manifest: Seq<(Seq<char>, Seq<char>)>,
    pub spine: Seq<Seq<char>>,
    pub cover: Option<Seq<char>>,
    pub in_manifest: bool,
    pub in_spine: bool,
    pub in_metadata: bool,
}

pub open spec fn opf_init() -> OpfScan {
    OpfScan {
        manifest: seq![],
        spine: seq![],
        cover: None,
        in_manifest: false,
        in_spine: false,
        in_metadata: false,
    }
}

pub open spec fn or_empty(o: Option<Seq<char>>) -> Seq<char> {
    match o {
        Some(s) => s,
        None => seq![],
    }
}

/// A manifest `item` tag.
pub open spec fn opf_item(st: OpfScan, t: XmlTag) -> OpfScan {
    let id = or_empty(last_attr(t.attrs@, lit_bytes("id"@)));
    let href = or_empty(last_attr(t.attrs@, lit_bytes("href"@)));
    let props = or_empty(last_attr(t.attrs@, lit_bytes("properties"@)));
    let cover = if contains(props, "cover-image"@) && href.len() > 0 {
        Some(href)
    } else {
        st.cover
    };
    let manifest = if id.len() > 0 && href.len() > 0 {
        map_insert(st.manifest, id, href)
    } else {
        st.manifest
    };
    OpfScan { manifest, cover, ..st }
}

/// A `meta` tag inside the metadata (EPUB 2 cover declaration).
pub open spec fn opf_meta(st: OpfScan, t: XmlTag) -> OpfScan {
    let name = or_empty(last_attr(t.attrs@, lit_bytes("name"@)));
    let content = or_empty(last_attr(t.attrs@, lit_bytes("content"@)));
    if name == "cover"@ && content.len() > 0 {
        match map_get(st.manifest, content) {
            Some(h) => OpfScan { cover: Some(h), ..st },
            None => if st.cover is None {
                OpfScan { cover: Some("__id__:"@ + content), ..st }
            } else {
                st
            },
        }
    } else {
        st
    }
}

pub open spec fn opf_open(st: OpfScan, t: XmlTag) -> OpfScan {
    let n = t.name@;
    if eq_ignore_case(n, lit_bytes("metadata"@)) {
        OpfScan { in_metadata: true, ..st }
    } else if eq_ignore_case(n, lit_bytes("manifest"@)) {
        OpfScan { in_manifest: true, ..st }
    } else if eq_ignore_case(n, lit_bytes("spine"@)) {
        OpfScan { in_spine: true, ..st }
    } else if eq_ignore_case(n, lit_bytes("item"@)) && st.in_manifest {
        opf_item(st, t)
    } else if eq_ignore_case(n, lit_bytes("meta"@)) && st.in_metadata {
        opf_meta(st, t)
    } else if eq_ignore_case(n, lit_bytes("itemref"@)) && st.in_spine {
        OpfScan { spine: st.spine + all_attrs(t.attrs@, lit_bytes("idref"@)), ..st }
    } else {
        st
    }
}

pub open spec fn opf_step(st: OpfScan, ev: XmlEvent) -> OpfScan {
    match ev {
        XmlEvent::Start(t) | XmlEvent::Empty(t) => opf_open(st, t),
        XmlEvent::End(n) => if eq_ignore_case(n@, lit_bytes("metadata"@)) {
            OpfScan { in_metadata: false, ..st }
        } else if eq_ignore_case(n@, lit_bytes("manifest"@)) {
            OpfScan { in_manifest: false, ..st }
        } else if eq_ignore_case(n@, lit_bytes("spine"@)) {
            OpfScan { in_spine: false, ..st }
        } else {
            st
        },
        _ => st,
    }
}

pub open spec fn opf_scan(evs: Seq<XmlEvent>, n: int) -> OpfScan
    decreases n,
{
    if n <= 0 {
        opf_init()
    } else {
        opf_step(opf_scan(evs, n - 1), evs[n - 1])
    }
}

/// The cover after the scan: an `__id__:` marker is resolved through the manifest.
pub open spec fn opf_cover(st: OpfScan) -> Option<Seq<char>> {
    match st.cover {
        Some(m) => if has_prefix(m, "__id__:"@) {
            map_get(st.manifest, m.subrange(7, m.len() as int))
        } else {
            Some(m)
        },
        None => None,
    }
}

/// Exec mirror of the OPF scan state.
struct OpfState {
    manifest: Vec<(String, String)>,
    spine: Vec<String>,
    cover: Option<String>,
    in_manifest: bool,
    in_spine: bool,
    in_metadata: bool,
}

impl OpfState {
    spec fn view(&self) -> OpfScan {
        OpfScan {
            manifest: pair_views(self.manifest@),
            spine: str_views(self.spine@),
            cover: opt_view(self.cover),
            in_manifest: self.in_manifest,
            in_spine: self.in_spine,
            in_metadata: self.in_metadata,
        }
    }
}

fn or_empty_exec(o: Option<String>) -> (r: String)
    ensures
        r@ == or_empty(opt_view(o)),
{
    match o {
        Some(s) => s,
        None => String::new(),
    }
}

fn opf_item_exec(st: &mut OpfState, t: &XmlTag)
    requires
        keys_unique(pair_views(old(st).manifest@)),
    ensures
        keys_unique(pair_views(final(st).manifest@)),
        final(st).view() == opf_item(old(st).view(), *t),
{
    let id = or_empty_exec(last_attr_exec(&t.attrs, "id"));
    let href = or_empty_exec(last_attr_exec(&t.attrs, "href"));
    let props = or_empty_exec(last_attr_exec(&t.attrs, "properties"));
    let pv = to_chars(props.as_str());
    if contains_chars(&pv, &to_chars("cover-image")) && !href.as_str().is_empty() {
        st.cover = Some(href.clone());
    }
    if !id.as_str().is_empty() && !href.as_str().is_empty() {
        map_insert_exec(&mut st.manifest, id, href);
    }
}

fn opf_meta_exec(st: &mut OpfState, t: &XmlTag)
    requires
        keys_unique(pair_views(old(st).manifest@)),
    ensures
        keys_unique(pair_views(final(st).manifest@)),
        final(st).view() == opf_meta(old(st).view(), *t),
{
    let name = or_empty_exec(last_attr_exec(&t.attrs, "name"));
    let content = or_empty_exec(last_attr_exec(&t.attrs, "content"));
    let nv = to_chars(name.as_str());
    if crate::text::chars_eq(&nv, &to_chars("cover")) && !content.as_str().is_empty() {
        let cv = to_chars(content.as_str());
        proof {
            lemma_key_pos(pair_views(st.manifest@), cv@);
        }
        match map_lookup(&st.manifest, &cv) {
            Some(i) => {
                st.cover = Some(st.manifest[i].1.clone());
            },
            None => {
                if st.cover.is_none() {
                    let mut m = to_chars("__id__:");
                    extend_chars(&mut m, &cv);
                    st.cover = Some(from_chars(&m));
                }
            },
        }
    }
}

fn append_strings(dst: &mut Vec<String>, src: &Vec<String>)
    ensures
        str_views(final(dst)@) == str_views(old(dst)@) + str_views(src@),
{
    let ghost before = str_views(dst@);
    let mut i: usize = 0;
    while i < src.len()
        invariant
            i <= src.len(),
            str_views(dst@) == before + str_views(src@.take(i as int)),
        decreases src.len() - i,
    {
        let ghost b2 = str_views(dst@);
        dst.push(src[i].clone());
        assert(str_views(dst@) =~= b2.push(src@[i as int]@));
        assert(str_views(src@.take(i + 1)) =~= str_views(src@.take(i as int)).push(src@[i as int]@));
        i = i + 1;
    }
    assert(src@.take(src@.len() as int) == src@);
}

fn opf_step_exec(st: &mut OpfState, ev: &XmlEvent)
    requires
        keys_unique(pair_views(old(st).manifest@)),
    ensures
        keys_unique(pair_views(final(st).manifest@)),
        final(st).view() == opf_step(old(st).view(), *ev),
{
    match ev {
        XmlEvent::Start(t) | XmlEvent::Empty(t) => {
            let n = &t.name;
            if name_is(n, "metadata") {
                st.in_metadata = true;
            } else if name_is(n, "manifest") {
                st.in_manifest = true;
            } else if name_is(n, "spine") {
                st.in_spine = true;
            } else if name_is(n, "item") && st.in_manifest {
                opf_item_exec(st, t);
            } else if name_is(n, "meta") && st.in_metadata {
                opf_meta_exec(st, t);
            } else if name_is(n, "itemref") && st.in_spine {
                let ids = all_attrs_exec(&t.attrs, "idref");
                append_strings(&mut st.spine, &ids);
                assert(str_views(ids@) == ids@.map_values(|s: String| s@));
            }
        },
        XmlEvent::End(n) => {
            if name_is(n, "metadata") {
                st.in_metadata = false;
            } else if name_is(n, "manifest") {
                st.in_manifest = false;
            } else if name_is(n, "spine") {
                st.in_spine = false;
            }
        },
        _ => {},
    }
}

/// A manifest, spine and cover href are those a package document declares.
pub open spec fn opf_file_matches(
    r: (Vec<(String, String)>, Vec<String>, Option<String>),
    content: Seq<char>,
) -> bool {
    let evs = xml_events(content);
    let st = opf_scan(evs, evs.len() as int);
    &&& pair_views(r.0@) == st.manifest
    &&& keys_unique(pair_views(r.0@))
    &&& str_views(r.1@) == st.spine
    &&& opt_view(r.2) == opf_cover(st)
}

impl EpubParser {
    /// Reads the manifest (id to href), the spine (item ids in reading order)
    /// and the declared cover href from a package document.
    pub fn parse_opf_file(&self, content: &str, _base_path: &str) -> (r: (
        Vec<(String, String)>,
        Vec<String>,
        Option<String>,
    ))
        ensures
            opf_file_matches(r, content@),
    {
        let evs = read_events(content);
        let mut st = OpfState {
            manifest: Vec::new(),
            spine: Vec::new(),
            cover: None,
            in_manifest: false,
            in_spine: false,
            in_metadata: false,
        };
        assert(pair_views(st.manifest@) =~= Seq::<(Seq<char>, Seq<char>)>::empty());
        assert(str_views(st.spine@) =~= Seq::<Seq<char>>::empty());
        let mut k: usize = 0;
        while k < evs.len()
            invariant
                k <= evs.len(),
                evs@ == xml_events(content@),
                keys_unique(pair_views(st.manifest@)),
                st.view() == opf_scan(evs@, k as int),
            decreases evs.len() - k,
        {
            opf_step_exec(&mut st, &evs[k]);
            k = k + 1;
        }
        let OpfState { manifest, spine, cover, .. } = st;
        let cover = match cover {
            Some(m) => {
                let mv = to_chars(m.as_str());
                let marker = to_chars("__id__:");
                proof {
                    reveal_strlit("__id__:");
                }
                if starts_with(&mv, &marker) {
                    let id = slice_chars(&mv, 7, mv.len());
                    proof {
                        lemma_key_pos(pair_views(manifest@), id@);
                    }
                    match map_lookup(&manifest, &id) {
                        Some(i) => Some(manifest[i].1.clone()),
                        None => None,
                    }
                } else {
                    Some(m)
                }
            },
            None => None,
        };
        (manifest, spine, cover)
    }
}

// ---------------------------------------------------------------------------
// Package document: metadata
// ---------------------------------------------------------------------------

/// State of the metadata scan.
pub struct MetaScan {
    pub in_metadata: bool,
    pub current_tag: Seq<u8>,
    pub title: Seq<char>,
    pub creator: Seq<char>,
    pub language: Seq<char>,
    pub identifier: Seq<char>,
}

/// Local part of a tag name (after the first `:`).
pub open spec fn local_name(tag: Seq<u8>) -> Seq<u8> {
    match first_colon(tag, 0) {
        Some(p) => tag.subrange(p + 1, tag.len() as int),
        None => tag,
    }
}

pub open spec fn first_colon(tag: Seq<u8>, i: int) -> Option<int>
    decreases tag.len() - i,
{
    if i < 0 || i >= tag.len() {
        None
    } else if tag[i] == 0x3Au8 {
        Some(i)
    } else {
        first_colon(tag, i + 1)
    }
}

pub open spec fn meta_text(st: MetaScan, text: Seq<char>) -> MetaScan {
    let t = trim(text);
    let local = local_name(st.current_tag);
    if t.len() == 0 {
        st
    } else if local == lit_bytes("title"@) && st.title.len() == 0 {
        MetaScan { title: t, ..st }
    } else if local == lit_bytes("creator"@) && st.creator.len() == 0 {
        MetaScan { creator: t, ..st }
    } else if local == lit_bytes("language"@) && st.language.len() == 0 {
        MetaScan { language: t, ..st }
    } else if local == lit_bytes("identifier"@) && st.identifier.len() == 0 {
        MetaScan { identifier: t, ..st }
    } else {
        st
    }
}

pub open spec fn meta_step(st: MetaScan, ev: XmlEvent) -> MetaScan {
    match ev {
        XmlEvent::Start(t) => if t.name@ == lit_bytes("metadata"@) {
            MetaScan { in_metadata: true, ..st }
        } else if st.in_metadata {
            MetaScan { current_tag: t.name@, ..st }
        } else {
            st
        },
        XmlEvent::End(n) => if n@ == lit_bytes("metadata"@) {
            MetaScan { in_metadata: false, ..st }
        } else if st.in_metadata {
            MetaScan { current_tag: seq![], ..st }
        } else {
            st
        },
        XmlEvent::Text(Some(text)) => if st.in_metadata {
            meta_text(st, text@)
        } else {
            st
        },
        _ => st,
    }
}

pub open spec fn meta_scan(evs: Seq<XmlEvent>, n: int) -> MetaScan
    decreases n,
{
    if n <= 0 {
        MetaScan {
            in_metadata: false,
            current_tag: seq![],
            title: seq![],
            creator: seq![],
            language: seq![],
            identifier: seq![],
        }
    } else {
        meta_step(meta_scan(evs, n - 1), evs[n - 1])
    }
}

pub open spec fn non_empty(s: Seq<char>) -> Option<Seq<char>> {
    if s.len() == 0 {
        None
    } else {
        Some(s)
    }
}

struct MetaState {
    in_metadata: bool,
    current_tag: Vec<u8>,
    title: Vec<char>,
    creator: Vec<char>,
    language: Vec<char>,
    identifier: Vec<char>,
}

impl MetaState {
    spec fn view(&self) -> MetaScan {
        MetaScan {
            in_metadata: self.in_metadata,
            current_tag: self.current_tag@,
            title: self.title@,
            creator: self.creator@,
            language: self.language@,
            identifier: self.identifier@,
        }
    }
}

fn local_name_exec(tag: &[u8]) -> (r: Vec<u8>)
    ensures
        r@ == local_name(tag@),
{
    let mut i: usize = 0;
    while i < tag.len()
        invariant
            i <= tag.len(),
            first_colon(tag@, 0) == first_colon(tag@, i as int),
        decreases tag.len() - i,
    {
        if tag[i] == 0x3A {
            let mut r: Vec<u8> = Vec::new();
            let mut j: usize = i + 1;
            while j < tag.len()
                invariant
                    i + 1 <= j <= tag.len(),
                    r@ == tag@.subrange(i + 1, j as int),
                decreases tag.len() - j,
            {
                r.push(tag[j]);
                j = j + 1;
                assert(r@ == tag@.subrange(i + 1, j as int));
            }
            return r;
        }
        i = i + 1;
    }
    let mut r: Vec<u8> = Vec::new();
    let mut j: usize = 0;
    while j < tag.len()
        invariant
            j <= tag.len(),
            r@ == tag@.subrange(0, j as int),
        decreases tag.len() - j,
    {
        r.push(tag[j]);
        j = j + 1;
        assert(r@ == tag@.subrange(0, j as int));
    }
    assert(tag@.subrange(0, tag@.len() as int) == tag@);
    r
}

fn meta_step_exec(st: &mut MetaState, ev: &XmlEvent)
    ensures
        final(st).view() == meta_step(old(st).view(), *ev),
{
    match ev {
        XmlEvent::Start(t) => {
            if bytes_eq(&t.name, "metadata".as_bytes()) {
                st.in_metadata = true;
            } else if st.in_metadata {
                st.current_tag = t.name.clone();
            }
        },
        XmlEvent::End(n) => {
            if bytes_eq(n, "metadata".as_bytes()) {
                st.in_metadata = false;
            } else if st.in_metadata {
                st.current_tag = Vec::new();
            }
        },
        XmlEvent::Text(Some(text)) => {
            if st.in_metadata {
                let t = trim_chars(&to_chars(text.as_str()));
                let local = local_name_exec(&st.current_tag);
                if t.len() == 0 {
                } else if bytes_eq(&local, "title".as_bytes()) && st.title.len() == 0 {
                    st.title = t;
                } else if bytes_eq(&local, "creator".as_bytes()) && st.creator.len() == 0 {
                    st.creator = t;
                } else if bytes_eq(&local, "language".as_bytes()) && st.language.len() == 0 {
                    st.language = t;
                } else if bytes_eq(&local, "identifier".as_bytes()) && st.identifier.len() == 0 {
                    st.identifier = t;
                }
            }
        },
        _ => {},
    }
}

fn opt_nonempty(v: Vec<char>) -> (r: Option<String>)
    ensures
        opt_view(r) == non_empty(v@),
{
    if v.len() == 0 {
        None
    } else {
        Some(from_chars(&v))
    }
}

/// Metadata is what a package document declares: present exactly when it
/// has a title.
pub open spec fn metadata_matches(r: Option<BookMetadata>, content: Seq<char>) -> bool {
    let evs = xml_events(content);
    let st = meta_scan(evs, evs.len() as int);
    match r {
        Some(m) => {
            &&& st.title.len() > 0
            &&& m.title@ == st.title
            &&& opt_view(m.author) == non_empty(st.creator)
            &&& opt_view(m.language) == non_empty(st.language)
            &&& opt_view(m.identifier) == non_empty(st.identifier)
            &&& m.publisher is None && m.description is None && m.series is None
            &&& m.cover_title is None && m.created_at is None && m.modified_at is None
        },
        None => st.title.len() == 0,
    }
}

impl EpubParser {
    /// Dublin Core title, creator, language and identifier of a package
    /// document (first non-blank value of each); `None` without a title.
    pub fn parse_opf_metadata(&self, content: &str) -> (r: Option<BookMetadata>)
        ensures
            metadata_matches(r, content@),
    {
        let evs = read_events(content);
        let mut st = MetaState {
            in_metadata: false,
            current_tag: Vec::new(),
            title: Vec::new(),
            creator: Vec::new(),
            language: Vec::new(),
            identifier: Vec::new(),
        };
        assert(st.view() =~~= meta_scan(evs@, 0));
        let mut k: usize = 0;
        while k < evs.len()
            invariant
                k <= evs.len(),
                evs@ == xml_events(content@),
                st.view() == meta_scan(evs@, k as int),
            decreases evs.len() - k,
        {
            meta_step_exec(&mut st, &evs[k]);
            k = k + 1;
        }
        if st.title.len() == 0 {
            return None;
        }
        let MetaState { title, creator, language, identifier, .. } = st;
        Some(BookMetadata {
            title: from_chars(&title),
            author: opt_nonempty(creator),
            language: opt_nonempty(language),
            identifier: opt_nonempty(identifier),
            publisher: None,
            description: None,
            series: None,
            cover_title: None,
            created_at: None,
            modified_at: None,
        })
    }
}

// ---------------------------------------------------------------------------
// Paths
// ---------------------------------------------------------------------------

/// `href` joined to `base` (unchanged when absolute or when `base` is empty).
pub open spec fn full_path(base: Seq<char>, href: Seq<char>) -> Seq<char> {
    if href.len() > 0 && href[0] == '/' {
        href
    } else if base.len() == 0 {
        href
    } else {
        base + seq!['/'] + href
    }
}

impl EpubParser {
    /// Joins an href to the OPF base directory.
    pub fn get_full_path(&self, base: &str, href: &str) -> (r: String)
        ensures
            r@ == full_path(base@, href@),
    {
        let hv = to_chars(href);
        if hv.len() > 0 && hv[0] == '/' {
            return from_chars(&hv);
        }
        let mut out = to_chars(base);
        if out.len() == 0 {
            return from_chars(&hv);
        }
        out.push('/');
        extend_chars(&mut out, &hv);
        from_chars(&out)
    }
}

} // verus!
