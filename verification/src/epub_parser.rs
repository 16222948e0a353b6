//! The EPUB parser: reading the archive, building chapters and images.

use vstd::prelude::*;
use crate::archive::{
    EpubArchive, archive_data, entry_text, open_archive, read_entry_text, zip_error_text, zip_opens,
};
use crate::domain::{BookMetadata, InlineImageBlock, TextLink, TocItem};
use crate::epub_metadata::{first_rootfile_path, full_path, metadata_matches, opf_file_matches};
use crate::epub_assets::{
    is_image, is_image_href, media_type_from_href, media_type_of, read_zip_entry, resolve_path,
    resolved, zip_entry_content,
};
use crate::epub_spine::{
    SpineBuild, archive_dir, asset_entries, block_views, plain_assets, plain_blocks, spine_build,
};
use crate::epub_content::para_links_view;
use crate::epub_metadata::{opf_cover, opf_scan};
use crate::parser_base::{BookParser, ParseResult};
use crate::domain::{AppError, FILE_OPEN_FAILED};
use crate::epub_toc::{TocEntry, insert_all, nav_entries, ncx_entries, nested, title_pairs, toc_items_are};
use crate::opf_utils::pair_views;
use crate::text::{
    contains, contains_chars, ends_with, extend_chars, from_chars, has_suffix, str_views, to_chars,
    to_lower, trim, trim_chars, unicode_lower,
};
use crate::xml::xml_events;
use crate::xml::{
    XmlAttr, ci_prefix, ci_suffix, eq_ignore_case, lit_bytes, name_ends_ci, name_is,
    name_starts_ci,
};

verus! {

/// Parser for EPUB books.
#[derive(Debug)]
pub struct EpubParser;

impl EpubParser {
    pub fn new() -> (p: EpubParser) {
        EpubParser
    }
}

// ---------------------------------------------------------------------------
// Tag helpers
// ---------------------------------------------------------------------------

/// An image element: the name starts with `img`, or ends with `:img` or `image`
/// (any ASCII case).
pub open spec fn img_tag(name: Seq<u8>) -> bool {
    ||| ci_prefix(name, lit_bytes("img"@))
    ||| ci_suffix(name, lit_bytes(":img"@))
    ||| ci_suffix(name, lit_bytes("image"@))
}

/// Whether the element name is an image element.
pub fn is_img_tag(name: &[u8]) -> (r: bool)
    ensures
        r == img_tag(name@),
{
    name_starts_ci(name, "img") || name_ends_ci(name, ":img") || name_ends_ci(name, "image")
}

/// Source, alternative text and style of an image element: the last
/// attribute of each kind wins; an alternative text that is blank is ignored.
pub open spec fn img_attrs(attrs: Seq<XmlAttr>) -> (Seq<char>, Option<Seq<char>>, Option<Seq<char>>)
    decreases attrs.len(),
{
    if attrs.len() == 0 {
        (seq![], None, None)
    } else {
        let acc = img_attrs(attrs.drop_last());
        let a = attrs.last();
        if ci_prefix(a.key@, lit_bytes("src"@)) || ci_prefix(a.key@, lit_bytes("xlink:href"@)) {
            match a.value {
                Some(v) => (v@, acc.1, acc.2),
                None => acc,
            }
        } else if ci_prefix(a.key@, lit_bytes("alt"@)) {
            match a.value {
                Some(v) => if trim(v@).len() > 0 {
                    (acc.0, Some(v@), acc.2)
                } else {
                    acc
                },
                None => acc,
            }
        } else if ci_prefix(a.key@, lit_bytes("style"@)) {
            match a.value {
                Some(v) => (acc.0, acc.1, Some(v@)),
                None => acc,
            }
        } else {
            acc
        }
    }
}

/// Reads `src` (or `xlink:href`), `alt` and `style` from an image element's attributes.
pub fn read_img_attrs(attrs: &Vec<XmlAttr>) -> (r: (String, Option<String>, Option<String>))
    ensures
        r.0@ == img_attrs(attrs@).0,
        crate::xml_attrs::opt_view(r.1) == img_attrs(attrs@).1,
        crate::xml_attrs::opt_view(r.2) == img_attrs(attrs@).2,
{
    let mut src = String::new();
    let mut alt: Option<String> = None;
    let mut style: Option<String> = None;
    let mut i: usize = 0;
    proof {
        reveal_strlit("");
    }
    while i < attrs.len()
        invariant
            i <= attrs.len(),
            ({
                let acc = img_attrs(attrs@.take(i as int));
                &&& src@ == acc.0
                &&& crate::xml_attrs::opt_view(alt) == acc.1
                &&& crate::xml_attrs::opt_view(style) == acc.2
            }),
        decreases attrs.len() - i,
    {
        let a = &attrs[i];
        assert(attrs@.take(i + 1).drop_last() == attrs@.take(i as int));
        assert(attrs@.take(i + 1).last() == attrs@[i as int]);
        if name_starts_ci(&a.key, "src") || name_starts_ci(&a.key, "xlink:href") {
            if let Some(v) = &a.value {
                src = v.clone();
            }
        } else if name_starts_ci(&a.key, "alt") {
            if let Some(v) = &a.value {
                let t = trim_chars(&to_chars(v.as_str()));
                if t.len() > 0 {
                    alt = Some(v.clone());
                }
            }
        } else if name_starts_ci(&a.key, "style") {
            if let Some(v) = &a.value {
                style = Some(v.clone());
            }
        }
        i = i + 1;
    }
    assert(attrs@.take(attrs@.len() as int) == attrs@);
    (src, alt, style)
}

/// Anchors an element declares: each `id*` or `name` attribute with a
/// non-blank value, trimmed, at the given paragraph index.
pub open spec fn anchors_of(attrs: Seq<XmlAttr>, idx: usize) -> Seq<(Seq<char>, usize)>
    decreases attrs.len(),
{
    if attrs.len() == 0 {
        seq![]
    } else {
        let acc = anchors_of(attrs.drop_last(), idx);
        let a = attrs.last();
        if (ci_prefix(a.key@, lit_bytes("id"@)) || eq_ignore_case(a.key@, lit_bytes("name"@)))
            && a.value is Some && trim(a.value->0@).len() > 0 {
            acc.push((trim(a.value->0@), idx))
        } else {
            acc
        }
    }
}

pub open spec fn anchor_views(v: Seq<(String, usize)>) -> Seq<(Seq<char>, usize)> {
    v.map_values(|p: (String, usize)| (p.0@, p.1))
}

/// Appends the anchors an element declares.
pub fn record_anchor(attrs: &Vec<XmlAttr>, anchors: &mut Vec<(String, usize)>, para_index: usize)
    ensures
        anchor_views(final(anchors)@) == anchor_views(old(anchors)@) + anchors_of(
            attrs@,
            para_index,
        ),
{
    let ghost start = anchor_views(anchors@);
    let mut i: usize = 0;
    assert(start + anchors_of(attrs@.take(0), para_index) =~= start);
    while i < attrs.len()
        invariant
            i <= attrs.len(),
            anchor_views(anchors@) == start + anchors_of(attrs@.take(i as int), para_index),
        decreases attrs.len() - i,
    {
        let a = &attrs[i];
        assert(attrs@.take(i + 1).drop_last() == attrs@.take(i as int));
        assert(attrs@.take(i + 1).last() == attrs@[i as int]);
        if name_starts_ci(&a.key, "id") || name_is(&a.key, "name") {
            if let Some(v) = &a.value {
                let t = trim_chars(&to_chars(v.as_str()));
                if t.len() > 0 {
                    let ghost before = anchor_views(anchors@);
                    let s = from_chars(&t);
                    anchors.push((s, para_index));
                    assert(anchor_views(anchors@) =~= before.push((t@, para_index)));
                }
            }
        }
        i = i + 1;
    }
    assert(attrs@.take(attrs@.len() as int) == attrs@);
}

// ---------------------------------------------------------------------------
// Container and package document
// ---------------------------------------------------------------------------

pub open spec fn text_or_empty(t: Option<Seq<char>>) -> Seq<char> {
    match t {
        Some(s) => s,
        None => seq![],
    }
}

/// The package document path an archive declares (`content.opf` when it
/// declares none).
pub open spec fn opf_path_of(data: Seq<u8>) -> Seq<char> {
    let c = text_or_empty(entry_text(data, "META-INF/container.xml"@));
    let evs = xml_events(c);
    match first_rootfile_path(evs, evs.len() as int) {
        Some(p) => p,
        None => "content.opf"@,
    }
}

/// The text of the package document (empty when it cannot be read).
pub open spec fn opf_text_of(data: Seq<u8>) -> Seq<char> {
    text_or_empty(entry_text(data, opf_path_of(data)))
}

/// Warnings about a missing container, package document or metadata.
pub open spec fn opf_warnings(data: Seq<u8>, has_meta: bool) -> Seq<Seq<char>> {
    let w1: Seq<Seq<char>> = if entry_text(data, "META-INF/container.xml"@) is None {
        seq!["缺少 META-INF/container.xml，使用默认路径"@]
    } else {
        seq![]
    };
    let w2: Seq<Seq<char>> = if entry_text(data, opf_path_of(data)) is None {
        seq!["无法读取 OPF 文件: "@ + opf_path_of(data)]
    } else {
        seq![]
    };
    let w3: Seq<Seq<char>> = if !has_meta {
        seq!["EPUB 缺少元信息，使用文件名作为标题"@]
    } else {
        seq![]
    };
    w1 + w2 + w3
}

pub open spec fn opt_bytes_view(o: Option<Vec<u8>>) -> Option<Seq<u8>> {
    match o {
        Some(b) => Some(b@),
        None => None,
    }
}

pub open spec fn opt_string_view(o: Option<String>) -> Option<Seq<char>> {
    match o {
        Some(s) => Some(s@),
        None => None,
    }
}

impl EpubParser {
    /// Reads `container.xml` and the package document it points to: the
    /// package directory, manifest, spine, cover href and metadata.
    pub fn parse_container_and_opf(
        &self,
        archive: &mut EpubArchive,
        warnings: &mut Vec<String>,
    ) -> (r: Result<
        (String, Vec<(String, String)>, Vec<String>, Option<String>, Option<BookMetadata>),
        crate::domain::AppError,
    >)
        ensures
            archive_data(*final(archive)) == archive_data(*old(archive)),
            r matches Ok(v) && ({
                let data = archive_data(*old(archive));
                &&& v.0@ == archive_dir(opf_path_of(data))
                &&& opf_file_matches((v.1, v.2, v.3), opf_text_of(data))
                &&& metadata_matches(v.4, opf_text_of(data))
                &&& str_views(final(warnings)@) == str_views(old(warnings)@) + opf_warnings(
                    data,
                    v.4 is Some,
                )
            }),
    {
        let ghost data = archive_data(*archive);
        let ghost w0 = str_views(warnings@);
        let container = match read_entry_text(archive, "META-INF/container.xml") {
            Some(t) => t,
            None => {
                let ghost before = str_views(warnings@);
                warnings.push(from_chars(&to_chars("缺少 META-INF/container.xml，使用默认路径")));
                assert(str_views(warnings@) =~= before.push("缺少 META-INF/container.xml，使用默认路径"@));
                String::new()
            },
        };
        let ghost w1 = str_views(warnings@);
        let opf_path = match self.parse_container_xml(container.as_str()) {
            Some(p) => p,
            None => from_chars(&to_chars("content.opf")),
        };
        assert(opf_path@ == opf_path_of(data));
        let base = from_chars(&crate::epub_spine::archive_dir_exec(&to_chars(opf_path.as_str())));
        let opf_content = match read_entry_text(archive, opf_path.as_str()) {
            Some(t) => t,
            None => {
                let ghost before = str_views(warnings@);
                let mut v = to_chars("无法读取 OPF 文件: ");
                extend_chars(&mut v, &to_chars(opf_path.as_str()));
                warnings.push(from_chars(&v));
                assert(str_views(warnings@) =~= before.push("无法读取 OPF 文件: "@ + opf_path@));
                String::new()
            },
        };
        let ghost w2 = str_views(warnings@);
        let (manifest, spine_ids, opf_cover_href) = self.parse_opf_file(
            opf_content.as_str(),
            base.as_str(),
        );
        let metadata = self.parse_opf_metadata(opf_content.as_str());
        if metadata.is_none() {
            let ghost before = str_views(warnings@);
            warnings.push(from_chars(&to_chars("EPUB 缺少元信息，使用文件名作为标题")));
            assert(str_views(warnings@) =~= before.push("EPUB 缺少元信息，使用文件名作为标题"@));
        }
        proof {
            let has_meta = metadata is Some;
            assert(str_views(warnings@) =~= w0 + opf_warnings(data, has_meta));
        }
        Ok((base, manifest, spine_ids, opf_cover_href, metadata))
    }
}

// ---------------------------------------------------------------------------
// Table of contents
// ---------------------------------------------------------------------------

/// A manifest href that may be the navigation document.
pub open spec fn nav_like(h: Seq<char>) -> bool {
    has_suffix(h, "nav.xhtml"@) || contains(h, "nav"@)
}

/// A manifest href that may be the NCX file.
pub open spec fn ncx_like(h: Seq<char>) -> bool {
    has_suffix(h, ".ncx"@)
}

/// The first manifest href (in manifest order) of the given kind.
pub open spec fn first_href(m: Seq<(Seq<char>, Seq<char>)>, nav: bool, n: int) -> Option<Seq<char>>
    decreases n,
{
    if n <= 0 {
        None
    } else {
        match first_href(m, nav, n - 1) {
            Some(h) => Some(h),
            None => if (nav && nav_like(m[n - 1].1)) || (!nav && ncx_like(m[n - 1].1)) {
                Some(m[n - 1].1)
            } else {
                None
            },
        }
    }
}

pub proof fn lemma_first_href_found(m: Seq<(Seq<char>, Seq<char>)>, nav: bool, n: int)
    requires
        0 <= n <= m.len(),
        first_href(m, nav, n) is Some,
    ensures
        first_href(m, nav, m.len() as int) == first_href(m, nav, n),
    decreases m.len() - n,
{
    if n < m.len() {
        lemma_first_href_found(m, nav, n + 1);
    }
}

/// The entries a navigation document lists: those of the `toc` navigation
/// when it has any, else those of any navigation.
pub open spec fn nav_document_entries(content: Seq<char>, base: Seq<char>) -> Seq<TocEntry> {
    if nav_entries(content, base, true).len() > 0 {
        nav_entries(content, base, true)
    } else {
        nav_entries(content, base, false)
    }
}

/// The entries found in the navigation document (or NCX file) that the
/// manifest points to; none when there is no such file.
pub open spec fn toc_entries_of(
    data: Seq<u8>,
    base: Seq<char>,
    manifest: Seq<(Seq<char>, Seq<char>)>,
    nav: bool,
) -> Seq<TocEntry> {
    match first_href(manifest, nav, manifest.len() as int) {
        Some(h) => match entry_text(data, full_path(base, h)) {
            Some(c) => if nav {
                nav_document_entries(c, base)
            } else {
                ncx_entries(c, base)
            },
            None => seq![],
        },
        None => seq![],
    }
}

/// `tree` is the nesting of the entries `es`.
pub open spec fn toc_from(es: Seq<TocEntry>, tree: Seq<TocItem>) -> bool {
    exists|items: Seq<TocItem>| toc_items_are(items, es) && #[trigger] nested(items, None, tree)
}

fn find_href(manifest: &Vec<(String, String)>, nav: bool) -> (r: Option<usize>)
    ensures
        match r {
            Some(i) => i < manifest@.len() && first_href(pair_views(manifest@), nav, manifest@.len() as int)
                == Some(manifest@[i as int].1@),
            None => first_href(pair_views(manifest@), nav, manifest@.len() as int) is None,
        },
{
    let ghost m = pair_views(manifest@);
    let mut i: usize = 0;
    while i < manifest.len()
        invariant
            i <= manifest@.len(),
            m == pair_views(manifest@),
            first_href(m, nav, i as int) is None,
        decreases manifest@.len() - i,
    {
        let h = to_chars(manifest[i].1.as_str());
        assert(m[i as int].1 == h@);
        let hit = if nav {
            ends_with(&h, &to_chars("nav.xhtml")) || contains_chars(&h, &to_chars("nav"))
        } else {
            ends_with(&h, &to_chars(".ncx"))
        };
        if hit {
            proof {
                lemma_first_href_found(m, nav, i + 1);
            }
            return Some(i);
        }
        i = i + 1;
    }
    None
}

impl EpubParser {
    /// Reads the structured table of contents: the EPUB 3 navigation
    /// document when it lists entries, else the EPUB 2 NCX file; `None`
    /// when neither does.
    pub fn parse_toc(
        &self,
        archive: &mut EpubArchive,
        opf_base_path: &str,
        manifest: &Vec<(String, String)>,
        warnings: &mut Vec<String>,
    ) -> (r: Option<Vec<TocItem>>)
        ensures
            archive_data(*final(archive)) == archive_data(*old(archive)),
            ({
                let data = archive_data(*old(archive));
                let m = pair_views(manifest@);
                let nav = toc_entries_of(data, opf_base_path@, m, true);
                let ncx = toc_entries_of(data, opf_base_path@, m, false);
                if nav.len() > 0 {
                    &&& r matches Some(t) && toc_from(nav, t@)
                    &&& str_views(final(warnings)@) == str_views(old(warnings)@).push(
                        "使用 EPUB3 nav.xhtml 目录"@,
                    )
                } else if ncx.len() > 0 {
                    &&& r matches Some(t) && toc_from(ncx, t@)
                    &&& str_views(final(warnings)@) == str_views(old(warnings)@).push(
                        "使用 EPUB2 toc.ncx 目录"@,
                    )
                } else {
                    &&& r is None
                    &&& str_views(final(warnings)@) == str_views(old(warnings)@).push(
                        "未找到结构化目录，使用 spine 顺序"@,
                    )
                }
            }),
    {
        let ghost data = archive_data(*archive);
        let ghost w0 = str_views(warnings@);
        if let Some(i) = find_href(manifest, true) {
            let nav_path = self.get_full_path(opf_base_path, manifest[i].1.as_str());
            if let Some(content) = read_entry_text(archive, nav_path.as_str()) {
                let items = self.parse_nav_document(content.as_str(), opf_base_path);
                if items.len() > 0 {
                    let ghost iv = items@;
                    let tree = self.build_toc_tree(items);
                    warnings.push(from_chars(&to_chars("使用 EPUB3 nav.xhtml 目录")));
                    proof {
                        assert(str_views(warnings@) =~= w0.push("使用 EPUB3 nav.xhtml 目录"@));
                        assert(toc_items_are(iv, nav_document_entries(content@, opf_base_path@)));
                        assert(nested(iv, None, tree@));
                    }
                    return Some(tree);
                }
                assert(nav_document_entries(content@, opf_base_path@).len() == 0);
            }
        }
        if let Some(i) = find_href(manifest, false) {
            let ncx_path = self.get_full_path(opf_base_path, manifest[i].1.as_str());
            if let Some(content) = read_entry_text(archive, ncx_path.as_str()) {
                let items = self.parse_ncx(content.as_str(), opf_base_path);
                if items.len() > 0 {
                    let ghost iv = items@;
                    let tree = self.build_toc_tree(items);
                    warnings.push(from_chars(&to_chars("使用 EPUB2 toc.ncx 目录")));
                    proof {
                        assert(str_views(warnings@) =~= w0.push("使用 EPUB2 toc.ncx 目录"@));
                        assert(nested(iv, None, tree@));
                    }
                    return Some(tree);
                }
            }
        }
        warnings.push(from_chars(&to_chars("未找到结构化目录，使用 spine 顺序")));
        assert(str_views(warnings@) =~= w0.push("未找到结构化目录，使用 spine 顺序"@));
        None
    }
}

// ---------------------------------------------------------------------------
// Cover image
// ---------------------------------------------------------------------------

/// The bytes and media type of an image href resolved against the package
/// directory, when the archive holds it.
pub open spec fn read_cover(data: Seq<u8>, base: Seq<char>, href: Seq<char>) -> Option<(Seq<u8>, Seq<char>)> {
    match zip_entry_content(data, resolved(base, href)) {
        Some(b) => Some((b, media_type_of(href))),
        None => None,
    }
}

/// A manifest entry that looks like the cover image: an image whose id or
/// href (with `by_id`), or whose href (without), mentions "cover" in any case.
pub open spec fn cover_like(id: Seq<char>, href: Seq<char>, by_id: bool) -> bool {
    &&& if by_id {
        contains(unicode_lower(id) + "|"@ + unicode_lower(href), "cover"@)
    } else {
        contains(unicode_lower(href), "cover"@)
    }
    &&& is_image(href)
}

/// The first manifest href (in manifest order) that looks like the cover.
pub open spec fn first_cover_like(m: Seq<(Seq<char>, Seq<char>)>, by_id: bool, n: int) -> Option<Seq<char>>
    decreases n,
{
    if n <= 0 {
        None
    } else {
        match first_cover_like(m, by_id, n - 1) {
            Some(h) => Some(h),
            None => if cover_like(m[n - 1].0, m[n - 1].1, by_id) {
                Some(m[n - 1].1)
            } else {
                None
            },
        }
    }
}

pub proof fn lemma_first_cover_like_found(m: Seq<(Seq<char>, Seq<char>)>, by_id: bool, n: int)
    requires
        0 <= n <= m.len(),
        first_cover_like(m, by_id, n) is Some,
    ensures
        first_cover_like(m, by_id, m.len() as int) == first_cover_like(m, by_id, n),
    decreases m.len() - n,
{
    if n < m.len() {
        lemma_first_cover_like_found(m, by_id, n + 1);
    }
}

pub open spec fn read_candidate(
    data: Seq<u8>,
    base: Seq<char>,
    h: Option<Seq<char>>,
) -> Option<(Seq<u8>, Seq<char>)> {
    match h {
        Some(href) => read_cover(data, base, href),
        None => None,
    }
}

/// The cover: the declared cover href when it is an image the archive
/// holds; else the first image entry whose id or href mentions "cover";
/// else the first image href mentioning "cover".
pub open spec fn cover_of(
    data: Seq<u8>,
    base: Seq<char>,
    m: Seq<(Seq<char>, Seq<char>)>,
    declared: Option<Seq<char>>,
) -> Option<(Seq<u8>, Seq<char>)> {
    let p1 = match declared {
        Some(h) => if is_image(h) {
            read_cover(data, base, h)
        } else {
            None
        },
        None => None,
    };
    if p1 is Some {
        p1
    } else {
        let p2 = read_candidate(data, base, first_cover_like(m, true, m.len() as int));
        if p2 is Some {
            p2
        } else {
            read_candidate(data, base, first_cover_like(m, false, m.len() as int))
        }
    }
}

fn cover_like_exec(id: &str, href: &str, by_id: bool) -> (r: bool)
    ensures
        r == cover_like(id@, href@, by_id),
{
    let lh = to_chars(to_lower(href).as_str());
    let hit = if by_id {
        let mut v = to_chars(to_lower(id).as_str());
        v.push('|');
        extend_chars(&mut v, &lh);
        proof {
            reveal_strlit("|");
            assert(v@ =~= unicode_lower(id@) + "|"@ + unicode_lower(href@));
        }
        contains_chars(&v, &to_chars("cover"))
    } else {
        contains_chars(&lh, &to_chars("cover"))
    };
    hit && is_image_href(href)
}

fn find_cover_like(manifest: &Vec<(String, String)>, by_id: bool) -> (r: Option<usize>)
    ensures
        match r {
            Some(i) => i < manifest@.len() && first_cover_like(
                pair_views(manifest@),
                by_id,
                manifest@.len() as int,
            ) == Some(manifest@[i as int].1@),
            None => first_cover_like(pair_views(manifest@), by_id, manifest@.len() as int) is None,
        },
{
    let ghost m = pair_views(manifest@);
    let mut i: usize = 0;
    while i < manifest.len()
        invariant
            i <= manifest@.len(),
            m == pair_views(manifest@),
            first_cover_like(m, by_id, i as int) is None,
        decreases manifest@.len() - i,
    {
        assert(m[i as int] == (manifest@[i as int].0@, manifest@[i as int].1@));
        if cover_like_exec(manifest[i].0.as_str(), manifest[i].1.as_str(), by_id) {
            proof {
                lemma_first_cover_like_found(m, by_id, i + 1);
            }
            return Some(i);
        }
        i = i + 1;
    }
    None
}

fn read_cover_exec(archive: &mut EpubArchive, base: &str, href: &str) -> (r: Option<(Vec<u8>, &'static str)>)
    ensures
        archive_data(*final(archive)) == archive_data(*old(archive)),
        match r {
            Some((b, t)) => read_cover(archive_data(*old(archive)), base@, href@) == Some((b@, t@)),
            None => read_cover(archive_data(*old(archive)), base@, href@) is None,
        },
{
    let path = resolve_path(base, href);
    match read_zip_entry(archive, path.as_str()) {
        Some(buf) => Some((buf, media_type_from_href(href))),
        None => None,
    }
}

impl EpubParser {
    /// Finds the cover image: bytes and media type, or neither.
    pub fn extract_cover(
        &self,
        archive: &mut EpubArchive,
        opf_base_path: &str,
        manifest: &Vec<(String, String)>,
        opf_cover_href: &Option<String>,
    ) -> (r: (Option<Vec<u8>>, Option<String>))
        ensures
            archive_data(*final(archive)) == archive_data(*old(archive)),
            match cover_of(
                archive_data(*old(archive)),
                opf_base_path@,
                pair_views(manifest@),
                opt_string_view(*opf_cover_href),
            ) {
                Some((b, t)) => opt_bytes_view(r.0) == Some(b) && opt_string_view(r.1) == Some(t),
                None => r.0 is None && r.1 is None,
            },
    {
        let mut found: Option<(Vec<u8>, &'static str)> = None;
        if let Some(h) = opf_cover_href {
            if is_image_href(h.as_str()) {
                found = read_cover_exec(archive, opf_base_path, h.as_str());
            }
        }
        if found.is_none() {
            if let Some(i) = find_cover_like(manifest, true) {
                found = read_cover_exec(archive, opf_base_path, manifest[i].1.as_str());
            }
        }
        if found.is_none() {
            if let Some(i) = find_cover_like(manifest, false) {
                found = read_cover_exec(archive, opf_base_path, manifest[i].1.as_str());
            }
        }
        match found {
            Some((buf, mime)) => (Some(buf), Some(from_chars(&to_chars(mime)))),
            None => (None, None),
        }
    }
}

// ---------------------------------------------------------------------------
// The whole book
// ---------------------------------------------------------------------------

/// The chapter data of a parse result, with its warnings.
pub open spec fn parse_model(r: ParseResult) -> SpineBuild {
    SpineBuild {
        content: str_views(r.content@),
        titles: str_views(r.chapter_titles@),
        hrefs: str_views(r.spine_hrefs@),
        assets: asset_entries(r.image_assets@),
        blocks: r.chapter_image_blocks@.map_values(
            |v: Vec<(isize, InlineImageBlock)>| block_views(v@),
        ),
        links: r.chapter_links@.map_values(|v: Vec<Vec<TextLink>>| para_links_view(v@)),
        anchors: r.chapter_anchors@.map_values(|v: Vec<(String, usize)>| anchor_views(v@)),
        flags: r.chapter_heading_flags@.map_values(|v: Vec<bool>| v@),
        warnings: str_views(r.warnings@),
    }
}

/// The warning that says which table of contents was used.
pub open spec fn toc_warning(nav: Seq<TocEntry>, ncx: Seq<TocEntry>) -> Seq<char> {
    if nav.len() > 0 {
        "使用 EPUB3 nav.xhtml 目录"@
    } else if ncx.len() > 0 {
        "使用 EPUB2 toc.ncx 目录"@
    } else {
        "未找到结构化目录，使用 spine 顺序"@
    }
}

/// The table of contents is the nesting of the navigation document's
/// entries, else of the NCX file's, else there is none.
pub open spec fn toc_matches(toc: Option<Vec<TocItem>>, nav: Seq<TocEntry>, ncx: Seq<TocEntry>) -> bool {
    if nav.len() > 0 {
        toc matches Some(t) && toc_from(nav, t@)
    } else if ncx.len() > 0 {
        toc matches Some(t) && toc_from(ncx, t@)
    } else {
        toc is None
    }
}

/// The href-to-title map of a table of contents.
pub open spec fn toc_titles(toc: Option<Vec<TocItem>>) -> Seq<(Seq<char>, Seq<char>)> {
    match toc {
        Some(t) => insert_all(seq![], title_pairs(t@)),
        None => seq![],
    }
}

/// What parsing the EPUB archive `data` yields.
pub open spec fn epub_parsed(data: Seq<u8>, r: ParseResult) -> bool {
    let path = opf_path_of(data);
    let base = archive_dir(path);
    let opf = opf_text_of(data);
    let evs = xml_events(opf);
    let st = opf_scan(evs, evs.len() as int);
    let nav = toc_entries_of(data, base, st.manifest, true);
    let ncx = toc_entries_of(data, base, st.manifest, false);
    let w = opf_warnings(data, r.metadata is Some).push(toc_warning(nav, ncx));
    let start = SpineBuild {
        content: seq![],
        titles: seq![],
        hrefs: seq![],
        assets: seq![],
        blocks: seq![],
        links: seq![],
        anchors: seq![],
        flags: seq![],
        warnings: w,
    };
    &&& metadata_matches(r.metadata, opf)
    &&& toc_matches(r.toc, nav, ncx)
    &&& parse_model(r) == spine_build(
        start,
        data,
        base,
        st.manifest,
        toc_titles(r.toc),
        st.spine,
        st.spine.len() as int,
    )
    &&& match cover_of(data, base, st.manifest, opf_cover(st)) {
        Some((b, t)) => opt_bytes_view(r.cover_image) == Some(b) && opt_string_view(
            r.cover_media_type,
        ) == Some(t),
        None => r.cover_image is None && r.cover_media_type is None,
    }
    &&& plain_assets(r.image_assets@)
    &&& forall|i: int|
        0 <= i < r.chapter_image_blocks@.len() ==> plain_blocks(
            #[trigger] r.chapter_image_blocks@[i]@,
        )
}

/// The error for bytes that are not a ZIP archive.
pub open spec fn zip_refused(e: AppError) -> bool {
    &&& e.code@ == FILE_OPEN_FAILED@
    &&& e.message@ == "ZIP 解析失败"@
    &&& e.detail is Some
    &&& !e.recoverable
}

impl EpubParser {
    /// Parses an EPUB book from the bytes of its archive.
    pub fn parse_bytes(&self, data: Vec<u8>) -> (r: Result<ParseResult, AppError>)
        ensures
            r is Ok <==> zip_opens(data@),
            r matches Ok(p) ==> epub_parsed(data@, p),
            r matches Err(e) ==> zip_refused(e),
    {
        let ghost dv = data@;
        let mut archive = match open_archive(data) {
            Ok(a) => a,
            Err(e) => {
                let detail = zip_error_text(&e);
                return Err(AppError::with_detail(FILE_OPEN_FAILED, "ZIP 解析失败", detail.as_str()));
            },
        };
        let mut warnings: Vec<String> = Vec::new();
        let (opf_base_path, manifest, spine_ids, opf_cover_href, metadata) = match self.parse_container_and_opf(
            &mut archive,
            &mut warnings,
        ) {
            Ok(v) => v,
            Err(e) => {
                return Err(e);
            },
        };
        let toc_items = self.parse_toc(&mut archive, opf_base_path.as_str(), &manifest, &mut warnings);
        let toc_title_map = match &toc_items {
            Some(toc) => EpubParser::build_toc_title_map(toc),
            None => Vec::new(),
        };
        assert(pair_views(toc_title_map@) == toc_titles(toc_items));
        let ch = self.build_chapters_from_spine(
            &mut archive,
            opf_base_path.as_str(),
            &manifest,
            &spine_ids,
            &toc_title_map,
            &mut warnings,
        );
        let (cover_image, cover_media_type) = self.extract_cover(
            &mut archive,
            opf_base_path.as_str(),
            &manifest,
            &opf_cover_href,
        );
        let r = ParseResult {
            content: ch.content,
            chapter_titles: ch.chapter_titles,
            spine_hrefs: ch.spine_hrefs,
            toc: toc_items,
            metadata,
            warnings,
            cover_image,
            cover_media_type,
            image_assets: ch.image_assets,
            chapter_image_blocks: ch.chapter_image_blocks,
            chapter_links: ch.chapter_links,
            chapter_anchors: ch.chapter_anchors,
            chapter_heading_flags: ch.chapter_heading_flags,
        };
        Ok(r)
    }
}

impl BookParser for EpubParser {
    fn parse(&self, raw: Vec<u8>) -> (r: Result<ParseResult, AppError>)
        ensures
            r is Ok <==> zip_opens(raw@),
            r matches Ok(p) ==> epub_parsed(raw@, p),
            r matches Err(e) ==> zip_refused(e),
    {
        self.parse_bytes(raw)
    }
}

} // verus!
