//! Chapters from the spine: image assets, noise filtering, inline-image
//! placeholders, and the per-chapter data of a book.

use vstd::prelude::*;
use crate::domain::{BookImageAsset, InlineImageBlock, TextLink};
use crate::archive::{EpubArchive, archive_data, entry_text, read_entry_text};
use crate::epub_content::{
    HtmlExtractionResult,
    ImageView, InlineView, LinkView, cleaned_title, cover_only, html_extraction, image_views,
    inline_views, link_view, links_view, para_links_view, placeholder, placeholder_exec, raw_title,
    xml_noise,
};
use crate::epub_metadata::full_path;
use crate::opf_utils::map_get;
use crate::epub_assets::{
    ext_from_href, ext_of_media_type, media_type_from_href, media_type_of, normalize_href,
    normalized, resolve_path, resolved,
};
use crate::epub_parser::EpubParser;
use crate::hashing::{hash_path, path_hash};
use crate::opf_utils::{keys_unique, map_insert, map_insert_exec, map_lookup, pair_views};
use crate::text::{
    after_last, after_last_chars, decimal, decimal_chars, extend_chars, find, find_chars,
    from_chars, hex_chars, hex_digits, join, join_chars, lit_list, lit_views, rfind, rfind_char,
    slice_chars, str_views, to_chars, to_lower, unicode_lower, views,
};
use crate::xml_attrs::opt_view;

verus! {

// ---------------------------------------------------------------------------
// Image assets
// ---------------------------------------------------------------------------

/// Asset id of an archive path: `img-` and the 16 hex digits of its hash.
pub open spec fn asset_id_of(path: Seq<char>) -> Seq<char> {
    "img-"@ + hex_digits(path_hash(path) as nat, 16)
}

/// An image asset as plain values.
pub struct AssetEntry {
    pub id: Seq<char>,
    pub source_href: Seq<char>,
    pub path: Seq<char>,
    pub media_type: Option<Seq<char>>,
    pub cache_key: Option<Seq<char>>,
    pub alt: Option<Seq<char>>,
}

pub open spec fn asset_entry(a: BookImageAsset) -> AssetEntry {
    AssetEntry {
        id: a.asset_id@,
        source_href: a.source_href@,
        path: a.asset_path@,
        media_type: opt_view(a.media_type),
        cache_key: opt_view(a.cache_key),
        alt: opt_view(a.alt_text),
    }
}

pub open spec fn asset_entries(v: Seq<BookImageAsset>) -> Seq<AssetEntry> {
    v.map_values(|a: BookImageAsset| asset_entry(a))
}

/// Assets carry no size hints and no bytes.
pub open spec fn plain_assets(v: Seq<BookImageAsset>) -> bool {
    forall|i: int|
        0 <= i < v.len() ==> (#[trigger] v[i]).width_hint is None && v[i].height_hint is None
            && v[i].image_bytes is None
}

/// The asset registered for an image source.
pub open spec fn new_asset(src: Seq<char>, full: Seq<char>, alt: Option<Seq<char>>) -> AssetEntry {
    let id = asset_id_of(full);
    AssetEntry {
        id,
        source_href: normalized(src),
        path: full,
        media_type: Some(media_type_of(src)),
        cache_key: Some(id + "."@ + ext_of_media_type(Some(media_type_of(src)))),
        alt,
    }
}

pub open spec fn has_path(assets: Seq<AssetEntry>, full: Seq<char>) -> bool {
    exists|i: int| 0 <= i < assets.len() && (#[trigger] assets[i]).path == full
}

/// Registering an image: the asset list gains an entry for its resolved
/// path unless one is there already.
pub open spec fn register(
    assets: Seq<AssetEntry>,
    src: Seq<char>,
    dir: Seq<char>,
    alt: Option<Seq<char>>,
) -> Seq<AssetEntry> {
    let full = resolved(dir, src);
    if has_path(assets, full) {
        assets
    } else {
        assets.push(new_asset(src, full, alt))
    }
}

/// The id cache maps each path to its asset id.
pub open spec fn ids_ok(ids: Seq<(Seq<char>, Seq<char>)>) -> bool {
    &&& keys_unique(ids)
    &&& forall|i: int| 0 <= i < ids.len() ==> (#[trigger] ids[i]).1 == asset_id_of(ids[i].0)
}

fn find_asset_path(assets: &Vec<BookImageAsset>, full: &[char]) -> (r: bool)
    ensures
        r == has_path(asset_entries(assets@), full@),
{
    let ghost es = asset_entries(assets@);
    let mut i: usize = 0;
    while i < assets.len()
        invariant
            i <= assets.len(),
            es == asset_entries(assets@),
            forall|j: int| 0 <= j < i ==> (#[trigger] es[j]).path != full@,
        decreases assets.len() - i,
    {
        assert(es[i as int] == asset_entry(assets@[i as int]));
        if crate::text::chars_eq(&to_chars(assets[i].asset_path.as_str()), full) {
            assert(es[i as int].path == full@);
            return true;
        }
        i = i + 1;
    }
    false
}

impl EpubParser {
    /// Finds or creates the asset of an image referenced from a chapter in
    /// `chapter_dir`; returns its id and its resolved archive path.
    fn get_or_create_image_asset(
        &self,
        img_src: &str,
        chapter_dir: &str,
        alt_text: Option<String>,
        image_asset_ids_by_path: &mut Vec<(String, String)>,
        image_assets: &mut Vec<BookImageAsset>,
    ) -> (r: (String, String))
        requires
            ids_ok(pair_views(old(image_asset_ids_by_path)@)),
        ensures
            r.1@ == resolved(chapter_dir@, img_src@),
            r.0@ == asset_id_of(r.1@),
            ids_ok(pair_views(final(image_asset_ids_by_path)@)),
            asset_entries(final(image_assets)@) == register(
                asset_entries(old(image_assets)@),
                img_src@,
                chapter_dir@,
                opt_view(alt_text),
            ),
            plain_assets(old(image_assets)@) ==> plain_assets(final(image_assets)@),
    {
        let full = resolve_path(chapter_dir, img_src);
        let fv = to_chars(full.as_str());
        let ghost ids0 = pair_views(image_asset_ids_by_path@);
        let asset_id = match map_lookup(image_asset_ids_by_path, &fv) {
            Some(i) => {
                proof {
                    crate::opf_utils::lemma_key_pos(ids0, fv@);
                }
                image_asset_ids_by_path[i].1.clone()
            },
            None => {
                let h = hash_path(full.as_str());
                let mut id = to_chars("img-");
                let hx = hex_chars(h, 16);
                extend_chars(&mut id, &hx);
                let ids = from_chars(&id);
                let key = full.clone();
                let ghost idv = ids@;
                map_insert_exec(image_asset_ids_by_path, key, ids.clone());
                proof {
                    crate::opf_utils::lemma_key_pos(ids0, fv@);
                    let after = pair_views(image_asset_ids_by_path@);
                    assert(after == ids0.push((fv@, idv)));
                    assert forall|j: int| 0 <= j < after.len() implies (#[trigger] after[j]).1
                        == asset_id_of(after[j].0) by {
                        if j < ids0.len() {
                            assert(after[j] == ids0[j]);
                        }
                    }
                }
                ids
            },
        };
        assert(asset_id@ == asset_id_of(full@));
        if !find_asset_path(image_assets, &fv) {
            let mime = media_type_from_href(img_src);
            let mut ck = to_chars(asset_id.as_str());
            ck.push('.');
            extend_chars(&mut ck, &to_chars(ext_from_href(img_src)));
            proof {
                reveal_strlit(".");
                assert(ck@ =~= asset_id@ + "."@ + ext_of_media_type(Some(media_type_of(img_src@))));
            }
            let ghost before = image_assets@;
            let ghost alt_v = opt_view(alt_text);
            let asset = BookImageAsset {
                asset_id: asset_id.clone(),
                source_href: normalize_href(img_src),
                asset_path: full.clone(),
                media_type: Some(from_chars(&to_chars(mime))),
                cache_key: Some(from_chars(&ck)),
                width_hint: None,
                height_hint: None,
                alt_text,
                image_bytes: None,
            };
            assert(asset_entry(asset) == new_asset(img_src@, full@, alt_v));
            image_assets.push(asset);
            proof {
                assert(asset_entries(image_assets@) =~= asset_entries(before).push(
                    new_asset(img_src@, full@, alt_v),
                ));
                assert(plain_assets(before) ==> plain_assets(image_assets@)) by {
                    if plain_assets(before) {
                        assert forall|i: int| 0 <= i < image_assets@.len() implies (#[trigger] image_assets@[i]).width_hint is None
                            && image_assets@[i].height_hint is None && image_assets@[i].image_bytes is None by {
                            if i < before.len() {
                                assert(image_assets@[i] == before[i]);
                            }
                        }
                    }
                }
            }
        }
        (asset_id, full)
    }
}

// ---------------------------------------------------------------------------
// Dropping noise paragraphs
// ---------------------------------------------------------------------------

/// Whether paragraph `i` is kept: it is not markup noise.
pub open spec fn kept(ps: Seq<Seq<char>>, i: int) -> bool {
    !xml_noise(ps[i])
}

/// The items of `xs` (among the first `n`) whose paragraph is kept.
pub open spec fn keep_upto<T>(xs: Seq<T>, ps: Seq<Seq<char>>, n: int) -> Seq<T>
    decreases n,
{
    if n <= 0 {
        seq![]
    } else if kept(ps, n - 1) {
        keep_upto(xs, ps, n - 1).push(xs[n - 1])
    } else {
        keep_upto(xs, ps, n - 1)
    }
}

/// Anchors moved to the new paragraph numbering; anchors of dropped (or
/// missing) paragraphs are left out.
pub open spec fn reindexed(
    anchors: Seq<(Seq<char>, usize)>,
    ps: Seq<Seq<char>>,
    n: int,
) -> Seq<(Seq<char>, usize)>
    decreases n,
{
    if n <= 0 {
        seq![]
    } else {
        let prev = reindexed(anchors, ps, n - 1);
        let a = anchors[n - 1];
        if a.1 < ps.len() && kept(ps, a.1 as int) {
            prev.push((a.0, keep_upto(ps, ps, a.1 as int).len() as usize))
        } else {
            prev
        }
    }
}

pub proof fn lemma_keep_len<T>(xs: Seq<T>, ps: Seq<Seq<char>>, n: int)
    requires
        0 <= n,
    ensures
        keep_upto(xs, ps, n).len() == keep_upto(ps, ps, n).len(),
        keep_upto(xs, ps, n).len() <= n,
    decreases n,
{
    if n > 0 {
        lemma_keep_len(xs, ps, n - 1);
    }
}

/// Paragraphs, links and heading flags without noise paragraphs, and the
/// anchors renumbered.
fn filter_noise(
    paragraphs: &Vec<String>,
    links: &mut Vec<Vec<TextLink>>,
    flags: &Vec<bool>,
    anchors: &Vec<(String, usize)>,
) -> (r: (Vec<String>, Vec<Vec<TextLink>>, Vec<bool>, Vec<(String, usize)>))
    requires
        paragraphs@.len() == old(links)@.len(),
        paragraphs@.len() == flags@.len(),
    ensures
        ({
            let ps = str_views(paragraphs@);
            let n = ps.len() as int;
            &&& str_views(r.0@) == keep_upto(ps, ps, n)
            &&& para_links_view(r.1@) == keep_upto(para_links_view(old(links)@), ps, n)
            &&& r.2@ == keep_upto(flags@, ps, n)
            &&& crate::epub_parser::anchor_views(r.3@) == reindexed(
                crate::epub_parser::anchor_views(anchors@),
                ps,
                anchors@.len() as int,
            )
            &&& r.0@.len() == r.1@.len()
            &&& r.0@.len() == r.2@.len()
        }),
{
    let ghost ps = str_views(paragraphs@);
    let ghost lv = para_links_view(links@);
    let mut keep: Vec<bool> = Vec::new();
    let mut new_index: Vec<usize> = Vec::new();
    let mut out_p: Vec<String> = Vec::new();
    let mut out_l: Vec<Vec<TextLink>> = Vec::new();
    let mut out_f: Vec<bool> = Vec::new();
    let mut i: usize = 0;
    while i < paragraphs.len()
        invariant
            i <= paragraphs@.len(),
            ps == str_views(paragraphs@),
            paragraphs@.len() == links@.len(),
            paragraphs@.len() == flags@.len(),
            lv.len() == paragraphs@.len(),
            forall|j: int| i <= j < lv.len() ==> #[trigger] links_view(links@[j]@) == lv[j],
            keep@.len() == i,
            new_index@.len() == i,
            forall|j: int| 0 <= j < i ==> #[trigger] keep@[j] == kept(ps, j),
            forall|j: int|
                0 <= j < i ==> #[trigger] new_index@[j] == keep_upto(ps, ps, j).len(),
            str_views(out_p@) == keep_upto(ps, ps, i as int),
            para_links_view(out_l@) == keep_upto(lv, ps, i as int),
            out_f@ == keep_upto(flags@, ps, i as int),
        decreases paragraphs@.len() - i,
    {
        proof {
            lemma_keep_len(ps, ps, i as int);
        }
        let n_kept = out_p.len();
        new_index.push(n_kept);
        let k = !EpubParser::is_xml_noise(paragraphs[i].as_str());
        assert(ps[i as int] == paragraphs@[i as int]@);
        keep.push(k);
        if k {
            let ghost before_p = str_views(out_p@);
            let ghost before_l = para_links_view(out_l@);
            out_p.push(paragraphs[i].clone());
            assert(str_views(out_p@) =~= before_p.push(ps[i as int]));
            let mut taken: Vec<TextLink> = Vec::new();
            std::mem::swap(&mut taken, &mut links[i]);
            assert(links_view(taken@) == lv[i as int]);
            out_l.push(taken);
            assert(para_links_view(out_l@) =~= before_l.push(lv[i as int]));
            out_f.push(flags[i]);
        } else {
            assert(keep_upto(ps, ps, i + 1) == keep_upto(ps, ps, i as int));
        }
        i = i + 1;
    }
    let mut out_a: Vec<(String, usize)> = Vec::new();
    let ghost av = crate::epub_parser::anchor_views(anchors@);
    let mut j: usize = 0;
    while j < anchors.len()
        invariant
            j <= anchors@.len(),
            av == crate::epub_parser::anchor_views(anchors@),
            keep@.len() == ps.len(),
            new_index@.len() == ps.len(),
            forall|q: int| 0 <= q < ps.len() ==> #[trigger] keep@[q] == kept(ps, q),
            forall|q: int|
                0 <= q < ps.len() ==> #[trigger] new_index@[q] == keep_upto(ps, ps, q).len(),
            crate::epub_parser::anchor_views(out_a@) == reindexed(av, ps, j as int),
        decreases anchors@.len() - j,
    {
        let old_idx = anchors[j].1;
        assert(av[j as int] == (anchors@[j as int].0@, old_idx));
        if old_idx < keep.len() && keep[old_idx] {
            let ghost before = crate::epub_parser::anchor_views(out_a@);
            out_a.push((anchors[j].0.clone(), new_index[old_idx]));
            assert(crate::epub_parser::anchor_views(out_a@) =~= before.push(
                (av[j as int].0, new_index@[old_idx as int]),
            ));
        }
        j = j + 1;
    }
    proof {
        lemma_keep_len(lv, ps, ps.len() as int);
        lemma_keep_len(flags@, ps, ps.len() as int);
    }
    (out_p, out_l, out_f, out_a)
}

// ---------------------------------------------------------------------------
// Inline-image placeholders
// ---------------------------------------------------------------------------

/// A link offset moved by `d` characters (left as it is where that would
/// leave the range of `usize`).
pub open spec fn shift(x: usize, d: int) -> usize {
    if 0 <= x + d <= usize::MAX {
        (x + d) as usize
    } else {
        x
    }
}

/// Links that start after `after` move by `d` characters.
pub open spec fn shift_links(ls: Seq<LinkView>, after: int, d: int) -> Seq<LinkView> {
    Seq::new(
        ls.len(),
        |k: int|
            if ls[k].0 > after {
                (shift(ls[k].0, d), shift(ls[k].1, d), ls[k].2, ls[k].3, ls[k].4)
            } else {
                ls[k]
            },
    )
}

/// The first occurrence of `ph` in a paragraph replaced by `repl`, and the
/// links after it moved by the change in length.
pub open spec fn replace_in_para(
    p: Seq<char>,
    ls: Seq<LinkView>,
    ph: Seq<char>,
    repl: Seq<char>,
) -> (Seq<char>, Seq<LinkView>) {
    match find(p, ph) {
        Some(pos) => (
            p.take(pos) + repl + p.skip(pos + ph.len()),
            shift_links(ls, pos + ph.len(), repl.len() - ph.len()),
        ),
        None => (p, ls),
    }
}

fn shift_exec(x: usize, ph_len: usize, repl_len: usize) -> (r: usize)
    ensures
        r == shift(x, repl_len - ph_len),
{
    if repl_len >= ph_len {
        let d = repl_len - ph_len;
        if x <= usize::MAX - d {
            x + d
        } else {
            x
        }
    } else {
        let d = ph_len - repl_len;
        if x >= d {
            x - d
        } else {
            x
        }
    }
}

fn shift_links_exec(ls: Vec<TextLink>, after: usize, ph_len: usize, repl_len: usize) -> (r: Vec<
    TextLink,
>)
    ensures
        links_view(r@) == shift_links(links_view(ls@), after as int, repl_len - ph_len),
{
    let ghost lv = links_view(ls@);
    let ghost d = repl_len - ph_len;
    let mut rest = ls;
    let mut out: Vec<TextLink> = Vec::new();
    let ghost n = rest@.len();
    while rest.len() > 0
        invariant
            lv.len() == n,
            out@.len() + rest@.len() == n,
            forall|k: int| 0 <= k < rest@.len() ==> link_view(#[trigger] rest@[k]) == lv[out@.len() + k],
            forall|k: int|
                0 <= k < out@.len() ==> link_view(#[trigger] out@[k]) == shift_links(
                    lv,
                    after as int,
                    d,
                )[k],
            d == repl_len - ph_len,
        decreases rest@.len(),
    {
        let ghost k0 = out@.len();
        assert(link_view(rest@[0]) == lv[k0 as int]);
        let l = rest.remove(0);
        let nl = if l.start > after {
            TextLink {
                start: shift_exec(l.start, ph_len, repl_len),
                end: shift_exec(l.end, ph_len, repl_len),
                href: l.href,
                title: l.title,
                is_footnote: l.is_footnote,
            }
        } else {
            l
        };
        out.push(nl);
        assert forall|k: int| 0 <= k < rest@.len() implies link_view(#[trigger] rest@[k]) == lv[out@.len() + k] by {
        }
    }
    assert(links_view(out@) =~= shift_links(lv, after as int, d));
    out
}

/// Replaces the first occurrence of `ph` in every paragraph, moving the
/// links behind it.
fn replace_placeholder(
    paras: &mut Vec<String>,
    links: &mut Vec<Vec<TextLink>>,
    ph: &[char],
    repl: &[char],
)
    requires
        old(paras)@.len() == old(links)@.len(),
    ensures
        final(paras)@.len() == old(paras)@.len(),
        final(links)@.len() == old(links)@.len(),
        forall|i: int|
            0 <= i < old(paras)@.len() ==> (#[trigger] final(paras)@[i]@, links_view(
                final(links)@[i]@,
            )) == replace_in_para(old(paras)@[i]@, links_view(old(links)@[i]@), ph@, repl@),
{
    let ghost p0 = paras@;
    let ghost l0 = links@;
    let mut i: usize = 0;
    while i < paras.len()
        invariant
            i <= paras@.len(),
            paras@.len() == p0.len(),
            links@.len() == l0.len(),
            p0.len() == l0.len(),
            forall|j: int| i <= j < p0.len() ==> #[trigger] paras@[j] == p0[j],
            forall|j: int| i <= j < p0.len() ==> #[trigger] links@[j] == l0[j],
            forall|j: int|
                0 <= j < i ==> (#[trigger] paras@[j]@, links_view(links@[j]@)) == replace_in_para(
                    p0[j]@,
                    links_view(l0[j]@),
                    ph@,
                    repl@,
                ),
        decreases p0.len() - i,
    {
        let pv = to_chars(paras[i].as_str());
        match find_chars(&pv, ph) {
            Some(pos) => {
                proof {
                    crate::text::lemma_find_from(pv@, ph@, 0);
                    assert(find(pv@, ph@) == Some(pos as int));
                    assert(pos + ph@.len() <= pv@.len());
                }
                let mut np = slice_chars(&pv, 0, pos);
                extend_chars(&mut np, repl);
                let ph_len = ph.len();
                let pv_len = pv.len();
                assert(ph_len == ph@.len() && pv_len == pv@.len());
                let end = pos + ph_len;
                let tail = slice_chars(&pv, end, pv.len());
                extend_chars(&mut np, &tail);
                let ghost pi = p0[i as int];
                assert(np@ =~= pv@.take(pos as int) + repl@ + pv@.skip(pos + ph@.len()));
                paras.set(i, from_chars(&np));
                let mut taken: Vec<TextLink> = Vec::new();
                std::mem::swap(&mut taken, &mut links[i]);
                let shifted = shift_links_exec(taken, end, ph_len, repl.len());
                links.set(i, shifted);
            },
            None => {},
        }
        i = i + 1;
    }
}

// ---------------------------------------------------------------------------
// Spine items that are not body text
// ---------------------------------------------------------------------------

/// File names of navigation, cover, title-page and copyright documents.
pub open spec fn non_body_names() -> Seq<Seq<char>> {
    seq![
        "nav.xhtml"@,
        "nav.html"@,
        "toc.xhtml"@,
        "toc.html"@,
        "toc.ncx"@,
        "cover.xhtml"@,
        "cover.html"@,
        "coverpage.xhtml"@,
        "cover-page.xhtml"@,
        "titlepage.xhtml"@,
        "title-page.xhtml"@,
        "titlepage.html"@,
        "title-page.html"@,
        "copyright.xhtml"@,
        "copyright-page.xhtml"@,
        "imprint.xhtml"@,
    ]
}

/// A spine item that is not body text: its file name (the part after the
/// last `/`), lower-cased, is one of the navigation, cover, title-page or
/// copyright names. (Lower-casing never makes or removes a `/`, and the
/// case context of a name ends at the `/` before it, so this is the file
/// name of the lower-cased path.)
pub open spec fn non_body(href: Seq<char>) -> bool {
    non_body_names().contains(unicode_lower(after_last(href, '/')))
}

/// Whether a spine item is front matter depends on its file name alone,
/// whatever directory holds it.
pub proof fn law_non_body_by_file_name(dir: Seq<char>, name: Seq<char>)
    requires
        !name.contains('/'),
    ensures
        non_body(dir + seq!['/'] + name) == non_body(name),
{
    let p = dir + seq!['/'] + name;
    crate::text::lemma_rfind_before(p, '/', p.len() as int);
    crate::text::lemma_rfind_before(name, '/', name.len() as int);
    assert(p[dir.len() as int] == '/');
    assert forall|k: int| dir.len() < k < p.len() implies p[k] != '/' by {
        assert(p[k] == name[k - dir.len() - 1]);
    }
    assert(after_last(p, '/') =~= name);
    assert(after_last(name, '/') == name);
}

impl EpubParser {
    /// Whether a spine item is front matter rather than body text.
    pub fn is_non_body_spine_item(href: &str) -> (r: bool)
        ensures
            r == non_body(href@),
    {
        let file = after_last_chars(&to_chars(href), '/');
        let lower = to_lower(from_chars(&file).as_str());
        let name = to_chars(lower.as_str());
        let names = lit_list(
            &[
                "nav.xhtml",
                "nav.html",
                "toc.xhtml",
                "toc.html",
                "toc.ncx",
                "cover.xhtml",
                "cover.html",
                "coverpage.xhtml",
                "cover-page.xhtml",
                "titlepage.xhtml",
                "title-page.xhtml",
                "titlepage.html",
                "title-page.html",
                "copyright.xhtml",
                "copyright-page.xhtml",
                "imprint.xhtml",
            ],
        );
        proof {
            crate::text::lemma_lit_list_views(
                names@,
                seq![
                    "nav.xhtml",
                    "nav.html",
                    "toc.xhtml",
                    "toc.html",
                    "toc.ncx",
                    "cover.xhtml",
                    "cover.html",
                    "coverpage.xhtml",
                    "cover-page.xhtml",
                    "titlepage.xhtml",
                    "title-page.xhtml",
                    "titlepage.html",
                    "title-page.html",
                    "copyright.xhtml",
                    "copyright-page.xhtml",
                    "imprint.xhtml",
                ],
            );
        }
        assert(views(names@) =~= non_body_names());
        crate::text::is_one_of(&name, &names)
    }
}

// ---------------------------------------------------------------------------
// Model of a chapter built from a spine item
// ---------------------------------------------------------------------------

/// Directory part of an archive path: what precedes its last `/`.
pub open spec fn archive_dir(p: Seq<char>) -> Seq<char> {
    match rfind(p, '/') {
        Some(i) => p.take(i),
        None => seq![],
    }
}

/// Paragraph texts, their links, and the assets, while inline images are placed.
#[verifier::ext_equal]
pub struct InlineAcc {
    pub assets: Seq<AssetEntry>,
    pub paras: Seq<Seq<char>>,
    pub links: Seq<Seq<LinkView>>,
}

/// The text that replaces an inline image's placeholder: the asset id between
/// the same private-use marks.
pub open spec fn asset_mark(id: Seq<char>) -> Seq<char> {
    seq!['\u{E000}'] + id + seq!['\u{E001}']
}

/// Each inline image (in order) is registered as an asset, and its
/// placeholder in each paragraph is replaced by the asset id.
pub open spec fn inline_pass(acc: InlineAcc, inl: Seq<InlineView>, dir: Seq<char>, k: int) -> InlineAcc
    decreases k,
{
    if k <= 0 {
        acc
    } else {
        let a = inline_pass(acc, inl, dir, k - 1);
        let img = inl[k - 1];
        let ph = placeholder(img.0 as nat);
        let repl = asset_mark(asset_id_of(resolved(dir, img.1)));
        InlineAcc {
            assets: register(a.assets, img.1, dir, img.2),
            paras: Seq::new(a.paras.len(), |i: int| replace_in_para(a.paras[i], a.links[i], ph, repl).0),
            links: Seq::new(a.links.len(), |i: int| replace_in_para(a.paras[i], a.links[i], ph, repl).1),
        }
    }
}

/// An image block as plain values: position, index among the chapter's
/// images, asset id.
pub type BlockView = (isize, usize, Seq<char>);

/// Each block image (in order) is registered as an asset and becomes a block.
pub open spec fn blocks_pass(
    assets: Seq<AssetEntry>,
    imgs: Seq<ImageView>,
    dir: Seq<char>,
    k: int,
) -> (Seq<AssetEntry>, Seq<BlockView>)
    decreases k,
{
    if k <= 0 {
        (assets, seq![])
    } else {
        let prev = blocks_pass(assets, imgs, dir, k - 1);
        let img = imgs[k - 1];
        (
            register(prev.0, img.1, dir, img.2),
            prev.1.push((img.0, (k - 1) as usize, asset_id_of(resolved(dir, img.1)))),
        )
    }
}

/// A chapter's title: the table-of-contents title of its href, else the
/// title found in the document, else `章节 n` with `n` its chapter number.
pub open spec fn chapter_title_of(
    titles: Seq<(Seq<char>, Seq<char>)>,
    href: Seq<char>,
    html: Seq<char>,
    n: nat,
) -> Seq<char> {
    match map_get(titles, href) {
        Some(t) => t,
        None => {
            let t = cleaned_title(raw_title(html));
            if t.len() == 0 {
                "章节 "@ + decimal(n)
            } else {
                t
            }
        },
    }
}

/// The chapters built so far, as plain values.
#[verifier::ext_equal]
pub struct SpineBuild {
    pub content: Seq<Seq<char>>,
    pub titles: Seq<Seq<char>>,
    pub hrefs: Seq<Seq<char>>,
    pub assets: Seq<AssetEntry>,
    pub blocks: Seq<Seq<BlockView>>,
    pub links: Seq<Seq<Seq<LinkView>>>,
    pub anchors: Seq<Seq<(Seq<char>, usize)>>,
    pub flags: Seq<Seq<bool>>,
    pub warnings: Seq<Seq<char>>,
}

/// A chapter from a non-empty document: noise paragraphs dropped; a chapter
/// whose text is empty or only a cover is skipped with a warning.
pub open spec fn chapter_from_html(
    m: SpineBuild,
    fp: Seq<char>,
    href: Seq<char>,
    id: Seq<char>,
    html: Seq<char>,
    titles: Seq<(Seq<char>, Seq<char>)>,
) -> SpineBuild {
    let x = html_extraction(html);
    let ps = x.paragraphs;
    let n = ps.len() as int;
    let paras = keep_upto(ps, ps, n);
    let text = join(paras, "\n\n"@);
    if text.len() == 0 || cover_only(text) {
        SpineBuild { warnings: m.warnings.push("章节 "@ + id + " 内容为空，已跳过"@), ..m }
    } else {
        let dir = archive_dir(fp);
        let ia = inline_pass(
            InlineAcc { assets: m.assets, paras, links: keep_upto(x.links, ps, n) },
            x.inline_images,
            dir,
            x.inline_images.len() as int,
        );
        let bp = blocks_pass(ia.assets, x.images, dir, x.images.len() as int);
        let content = m.content.push(join(ia.paras, "\n\n"@));
        SpineBuild {
            content,
            titles: m.titles.push(chapter_title_of(titles, href, html, content.len())),
            hrefs: m.hrefs.push(href),
            assets: bp.0,
            blocks: m.blocks.push(bp.1),
            links: m.links.push(ia.links),
            anchors: m.anchors.push(reindexed(x.anchors, ps, x.anchors.len() as int)),
            flags: m.flags.push(keep_upto(x.heading_flags, ps, n)),
            warnings: m.warnings,
        }
    }
}

/// One spine item: looked up in the manifest, front matter skipped, its
/// document read from the archive and turned into a chapter.
pub open spec fn chapter_step(
    m: SpineBuild,
    data: Seq<u8>,
    base: Seq<char>,
    manifest: Seq<(Seq<char>, Seq<char>)>,
    titles: Seq<(Seq<char>, Seq<char>)>,
    id: Seq<char>,
) -> SpineBuild {
    match map_get(manifest, id) {
        None => SpineBuild {
            warnings: m.warnings.push("spine 引用了不存在的 manifest 项: "@ + id),
            ..m
        },
        Some(href) => if non_body(href) {
            SpineBuild { warnings: m.warnings.push("跳过非正文项: "@ + href), ..m }
        } else {
            let fp = full_path(base, href);
            let html = match entry_text(data, fp) {
                Some(t) => t,
                None => seq![],
            };
            if html.len() == 0 {
                SpineBuild { warnings: m.warnings.push("无法读取章节文件: "@ + fp), ..m }
            } else {
                chapter_from_html(m, fp, href, id, html, titles)
            }
        },
    }
}

/// The chapters of the first `k` spine items.
pub open spec fn spine_build(
    start: SpineBuild,
    data: Seq<u8>,
    base: Seq<char>,
    manifest: Seq<(Seq<char>, Seq<char>)>,
    titles: Seq<(Seq<char>, Seq<char>)>,
    spine: Seq<Seq<char>>,
    k: int,
) -> SpineBuild
    decreases k,
{
    if k <= 0 {
        start
    } else {
        chapter_step(
            spine_build(start, data, base, manifest, titles, spine, k - 1),
            data,
            base,
            manifest,
            titles,
            spine[k - 1],
        )
    }
}

// ---------------------------------------------------------------------------
// Building one chapter
// ---------------------------------------------------------------------------

pub fn archive_dir_exec(p: &[char]) -> (r: Vec<char>)
    ensures
        r@ == archive_dir(p@),
{
    match rfind_char(p, '/') {
        Some(i) => {
            proof {
                crate::text::lemma_rfind_before(p@, '/', p@.len() as int);
            }
            slice_chars(p, 0, i)
        },
        None => Vec::new(),
    }
}

fn asset_mark_exec(id: &str) -> (r: Vec<char>)
    ensures
        r@ == asset_mark(id@),
{
    let mut r: Vec<char> = Vec::new();
    r.push('\u{E000}');
    extend_chars(&mut r, &to_chars(id));
    r.push('\u{E001}');
    r
}

pub open spec fn block_views(v: Seq<(isize, InlineImageBlock)>) -> Seq<BlockView> {
    v.map_values(|b: (isize, InlineImageBlock)| (b.0, b.1.index, b.1.asset_id@))
}

/// Image blocks carry no alternative text, caption or source, and are not inline.
pub open spec fn plain_blocks(v: Seq<(isize, InlineImageBlock)>) -> bool {
    forall|i: int|
        0 <= i < v.len() ==> (#[trigger] v[i]).1.alt_text is None && v[i].1.caption is None
            && v[i].1.source_href is None && !v[i].1.is_inline
}

impl EpubParser {
    /// Registers each inline image and puts its asset id in place of its
    /// placeholder in the paragraphs.
    fn place_inline_images(
        &self,
        dir: &str,
        inline_images: &Vec<(usize, String, Option<String>)>,
        paras: &mut Vec<String>,
        links: &mut Vec<Vec<TextLink>>,
        ids: &mut Vec<(String, String)>,
        assets: &mut Vec<BookImageAsset>,
    )
        requires
            old(paras)@.len() == old(links)@.len(),
            ids_ok(pair_views(old(ids)@)),
        ensures
            final(paras)@.len() == final(links)@.len(),
            ids_ok(pair_views(final(ids)@)),
            plain_assets(old(assets)@) ==> plain_assets(final(assets)@),
            inline_pass(
                InlineAcc {
                    assets: asset_entries(old(assets)@),
                    paras: str_views(old(paras)@),
                    links: para_links_view(old(links)@),
                },
                inline_views(inline_images@),
                dir@,
                inline_images@.len() as int,
            ) == (InlineAcc {
                assets: asset_entries(final(assets)@),
                paras: str_views(final(paras)@),
                links: para_links_view(final(links)@),
            }),
    {
        let ghost acc0 = InlineAcc {
            assets: asset_entries(assets@),
            paras: str_views(paras@),
            links: para_links_view(links@),
        };
        let ghost plain0 = plain_assets(assets@);
        let ghost inl = inline_views(inline_images@);
        let mut k: usize = 0;
        while k < inline_images.len()
            invariant
                k <= inline_images@.len(),
                inl == inline_views(inline_images@),
                paras@.len() == links@.len(),
                ids_ok(pair_views(ids@)),
                plain0 ==> plain_assets(assets@),
                inline_pass(acc0, inl, dir@, k as int) == (InlineAcc {
                    assets: asset_entries(assets@),
                    paras: str_views(paras@),
                    links: para_links_view(links@),
                }),
            decreases inline_images@.len() - k,
        {
            let (idx, src, alt) = &inline_images[k];
            assert(inl[k as int] == (*idx, src@, opt_view(*alt)));
            let ghost a = inline_pass(acc0, inl, dir@, k as int);
            let (asset_id, _path) = self.get_or_create_image_asset(
                src.as_str(),
                dir,
                crate::xml::clone_opt_string(alt),
                ids,
                assets,
            );
            let ph = placeholder_exec(*idx);
            let repl = asset_mark_exec(asset_id.as_str());
            let ghost p_before = paras@;
            let ghost l_before = links@;
            replace_placeholder(paras, links, &ph, &repl);
            proof {
                let b = inline_pass(acc0, inl, dir@, k + 1);
                assert(str_views(paras@) =~= b.paras) by {
                    assert forall|i: int| 0 <= i < b.paras.len() implies str_views(paras@)[i] == b.paras[i] by {
                        assert(a.paras[i] == p_before[i]@);
                        assert(a.links[i] == links_view(l_before[i]@));
                    }
                }
                assert(para_links_view(links@) =~= b.links) by {
                    assert forall|i: int| 0 <= i < b.links.len() implies para_links_view(links@)[i] == b.links[i] by {
                        assert(a.paras[i] == p_before[i]@);
                        assert(a.links[i] == links_view(l_before[i]@));
                        assert((paras@[i]@, links_view(links@[i]@)) == replace_in_para(
                            p_before[i]@,
                            links_view(l_before[i]@),
                            ph@,
                            repl@,
                        ));
                        assert(para_links_view(links@)[i] == links_view(links@[i]@));
                    }
                }
            }
            k = k + 1;
        }
    }

    /// Registers each block image and makes its image block.
    fn build_image_blocks(
        &self,
        dir: &str,
        images: &Vec<(isize, String, Option<String>)>,
        ids: &mut Vec<(String, String)>,
        assets: &mut Vec<BookImageAsset>,
    ) -> (r: Vec<(isize, InlineImageBlock)>)
        requires
            ids_ok(pair_views(old(ids)@)),
        ensures
            ids_ok(pair_views(final(ids)@)),
            plain_assets(old(assets)@) ==> plain_assets(final(assets)@),
            plain_blocks(r@),
            blocks_pass(asset_entries(old(assets)@), image_views(images@), dir@, images@.len() as int)
                == (asset_entries(final(assets)@), block_views(r@)),
    {
        let ghost a0 = asset_entries(assets@);
        let ghost plain0 = plain_assets(assets@);
        let ghost iv = image_views(images@);
        let mut out: Vec<(isize, InlineImageBlock)> = Vec::new();
        let mut k: usize = 0;
        while k < images.len()
            invariant
                k <= images@.len(),
                iv == image_views(images@),
                ids_ok(pair_views(ids@)),
                plain0 ==> plain_assets(assets@),
                plain_blocks(out@),
                blocks_pass(a0, iv, dir@, k as int) == (asset_entries(assets@), block_views(out@)),
            decreases images@.len() - k,
        {
            let (pos, src, alt) = &images[k];
            assert(iv[k as int] == (*pos, src@, opt_view(*alt)));
            let (asset_id, _path) = self.get_or_create_image_asset(
                src.as_str(),
                dir,
                crate::xml::clone_opt_string(alt),
                ids,
                assets,
            );
            let ghost before = out@;
            out.push(
                (
                    *pos,
                    InlineImageBlock {
                        index: k,
                        asset_id,
                        alt_text: None,
                        caption: None,
                        source_href: None,
                        is_inline: false,
                    },
                ),
            );
            proof {
                assert(block_views(out@) =~= block_views(before).push(
                    (*pos, k, asset_id_of(resolved(dir@, src@))),
                ));
                assert forall|i: int| 0 <= i < out@.len() implies (#[trigger] out@[i]).1.alt_text is None
                    && out@[i].1.caption is None && out@[i].1.source_href is None
                    && !out@[i].1.is_inline by {
                    if i < before.len() {
                        assert(out@[i] == before[i]);
                    }
                }
            }
            k = k + 1;
        }
        out
    }

    /// The title of a chapter: from the table of contents, else from its
    /// document, else `章节 n`.
    fn chapter_title(
        &self,
        titles: &Vec<(String, String)>,
        href: &str,
        html: &str,
        n: usize,
    ) -> (r: String)
        ensures
            r@ == chapter_title_of(pair_views(titles@), href@, html@, n as nat),
    {
        let hv = to_chars(href);
        proof {
            crate::opf_utils::lemma_key_pos(pair_views(titles@), hv@);
        }
        match map_lookup(titles, &hv) {
            Some(i) => titles[i].1.clone(),
            None => {
                let t = self.extract_title(html);
                if t.as_str().is_empty() {
                    let mut v = to_chars("章节 ");
                    extend_chars(&mut v, &decimal_chars(n));
                    from_chars(&v)
                } else {
                    t
                }
            },
        }
    }
}

// ---------------------------------------------------------------------------
// Chapters of the spine
// ---------------------------------------------------------------------------

/// The chapters built from the spine.
#[derive(Debug)]
pub struct ChapterBuildResult {
    pub content: Vec<String>,
    pub chapter_titles: Vec<String>,
    pub spine_hrefs: Vec<String>,
    pub image_assets: Vec<BookImageAsset>,
    pub chapter_image_blocks: Vec<Vec<(isize, InlineImageBlock)>>,
    pub chapter_links: Vec<Vec<Vec<TextLink>>>,
    pub chapter_anchors: Vec<Vec<(String, usize)>>,
    pub chapter_heading_flags: Vec<Vec<bool>>,
}

pub open spec fn spine_model(r: ChapterBuildResult, warnings: Seq<String>) -> SpineBuild {
    SpineBuild {
        content: str_views(r.content@),
        titles: str_views(r.chapter_titles@),
        hrefs: str_views(r.spine_hrefs@),
        assets: asset_entries(r.image_assets@),
        blocks: r.chapter_image_blocks@.map_values(
            |v: Vec<(isize, InlineImageBlock)>| block_views(v@),
        ),
        links: r.chapter_links@.map_values(|v: Vec<Vec<TextLink>>| para_links_view(v@)),
        anchors: r.chapter_anchors@.map_values(
            |v: Vec<(String, usize)>| crate::epub_parser::anchor_views(v@),
        ),
        flags: r.chapter_heading_flags@.map_values(|v: Vec<bool>| v@),
        warnings: str_views(warnings),
    }
}

/// Assets and image blocks carry only what the parser fills in.
pub open spec fn spine_plain(r: ChapterBuildResult) -> bool {
    &&& plain_assets(r.image_assets@)
    &&& forall|i: int|
        0 <= i < r.chapter_image_blocks@.len() ==> plain_blocks(
            #[trigger] r.chapter_image_blocks@[i]@,
        )
}

fn join_paragraphs(paras: &Vec<String>) -> (r: Vec<char>)
    ensures
        r@ == join(str_views(paras@), "\n\n"@),
{
    let mut parts: Vec<Vec<char>> = Vec::new();
    let mut i: usize = 0;
    while i < paras.len()
        invariant
            i <= paras@.len(),
            views(parts@) == str_views(paras@).take(i as int),
        decreases paras@.len() - i,
    {
        let ghost before = views(parts@);
        parts.push(to_chars(paras[i].as_str()));
        assert(views(parts@) =~= before.push(paras@[i as int]@));
        assert(str_views(paras@).take(i + 1) =~= str_views(paras@).take(i as int).push(paras@[i as int]@));
        i = i + 1;
    }
    assert(str_views(paras@).take(paras@.len() as int) =~= str_views(paras@));
    join_chars(&parts, &to_chars("\n\n"))
}

fn push_warning(warnings: &mut Vec<String>, head: &str, tail: &str)
    ensures
        str_views(final(warnings)@) == str_views(old(warnings)@).push(head@ + tail@),
{
    let mut v = to_chars(head);
    extend_chars(&mut v, &to_chars(tail));
    let ghost before = str_views(warnings@);
    warnings.push(from_chars(&v));
    assert(str_views(warnings@) =~= before.push(head@ + tail@));
}

impl EpubParser {
    /// Adds the chapter made from a non-empty chapter document, or a warning
    /// when its text is empty or only a cover.
    fn add_chapter(
        &self,
        acc: &mut ChapterBuildResult,
        ids: &mut Vec<(String, String)>,
        warnings: &mut Vec<String>,
        fp: &str,
        href: &str,
        id: &str,
        html: &str,
        titles: &Vec<(String, String)>,
    )
        requires
            ids_ok(pair_views(old(ids)@)),
            spine_plain(*old(acc)),
        ensures
            ids_ok(pair_views(final(ids)@)),
            spine_plain(*final(acc)),
            spine_model(*final(acc), final(warnings)@) == chapter_from_html(
                spine_model(*old(acc), old(warnings)@),
                fp@,
                href@,
                id@,
                html@,
                pair_views(titles@),
            ),
    {
        let ghost m0 = spine_model(*acc, warnings@);
        let x = self.extract_html_with_positions(html);
        let HtmlExtractionResult {
            paragraphs,
            images,
            paragraph_links,
            anchors,
            heading_flags,
            inline_images,
        } = x;
        let mut plinks = paragraph_links;
        let (mut paras, mut links, flags, fanchors) = filter_noise(
            &paragraphs,
            &mut plinks,
            &heading_flags,
            &anchors,
        );
        let text = join_paragraphs(&paras);
        if text.len() == 0 || EpubParser::is_cover_only_text(from_chars(&text).as_str()) {
            let mut v = to_chars("章节 ");
            extend_chars(&mut v, &to_chars(id));
            extend_chars(&mut v, &to_chars(" 内容为空，已跳过"));
            let ghost before = str_views(warnings@);
            warnings.push(from_chars(&v));
            proof {
                assert(str_views(warnings@) =~= before.push("章节 "@ + id@ + " 内容为空，已跳过"@));
                assert(spine_model(*acc, warnings@) =~= chapter_from_html(
                    m0,
                    fp@,
                    href@,
                    id@,
                    html@,
                    pair_views(titles@),
                ));
            }
            return ;
        }
        let dir = from_chars(&archive_dir_exec(&to_chars(fp)));
        let ghost assets0 = acc.image_assets@;
        self.place_inline_images(
            dir.as_str(),
            &inline_images,
            &mut paras,
            &mut links,
            ids,
            &mut acc.image_assets,
        );
        let text2 = join_paragraphs(&paras);
        let ghost m1 = spine_model(*acc, warnings@);
        acc.spine_hrefs.push(from_chars(&to_chars(href)));
        acc.chapter_links.push(links);
        acc.chapter_anchors.push(fanchors);
        acc.chapter_heading_flags.push(flags);
        let blocks = self.build_image_blocks(dir.as_str(), &images, ids, &mut acc.image_assets);
        acc.chapter_image_blocks.push(blocks);
        acc.content.push(from_chars(&text2));
        let n = acc.content.len();
        let title = self.chapter_title(titles, href, html, n);
        acc.chapter_titles.push(title);
        proof {
            let mm = chapter_from_html(m0, fp@, href@, id@, html@, pair_views(titles@));
            let fin = spine_model(*acc, warnings@);
            assert(fin.content =~= mm.content);
            assert(fin.titles =~= mm.titles);
            assert(fin.hrefs =~= mm.hrefs);
            assert(fin.assets =~= mm.assets);
            assert(fin.blocks =~= mm.blocks);
            assert(fin.links =~= mm.links);
            assert(fin.anchors =~= mm.anchors);
            assert(fin.flags =~= mm.flags);
            assert(fin.warnings =~= mm.warnings);
            assert forall|i: int| 0 <= i < acc.chapter_image_blocks@.len() implies plain_blocks(
                #[trigger] acc.chapter_image_blocks@[i]@,
            ) by {
                if i < acc.chapter_image_blocks@.len() - 1 {
                    assert(acc.chapter_image_blocks@[i] == old(acc).chapter_image_blocks@[i]);
                }
            }
        }
    }
}

impl EpubParser {
    /// Builds the chapters of the book from its spine, in reading order:
    /// each spine id is looked up in the manifest, front matter is skipped,
    /// and each readable, non-empty document becomes a chapter.
    pub fn build_chapters_from_spine(
        &self,
        archive: &mut EpubArchive,
        opf_base_path: &str,
        manifest: &Vec<(String, String)>,
        spine_ids: &Vec<String>,
        toc_title_map: &Vec<(String, String)>,
        warnings: &mut Vec<String>,
    ) -> (r: ChapterBuildResult)
        ensures
            archive_data(*final(archive)) == archive_data(*old(archive)),
            spine_plain(r),
            spine_model(r, final(warnings)@) == spine_build(
                SpineBuild {
                    content: seq![],
                    titles: seq![],
                    hrefs: seq![],
                    assets: seq![],
                    blocks: seq![],
                    links: seq![],
                    anchors: seq![],
                    flags: seq![],
                    warnings: str_views(old(warnings)@),
                },
                archive_data(*old(archive)),
                opf_base_path@,
                pair_views(manifest@),
                pair_views(toc_title_map@),
                str_views(spine_ids@),
                spine_ids@.len() as int,
            ),
    {
        let ghost data = archive_data(*archive);
        let ghost start = SpineBuild {
            content: seq![],
            titles: seq![],
            hrefs: seq![],
            assets: seq![],
            blocks: seq![],
            links: seq![],
            anchors: seq![],
            flags: seq![],
            warnings: str_views(warnings@),
        };
        let mut acc = ChapterBuildResult {
            content: Vec::new(),
            chapter_titles: Vec::new(),
            spine_hrefs: Vec::new(),
            image_assets: Vec::new(),
            chapter_image_blocks: Vec::new(),
            chapter_links: Vec::new(),
            chapter_anchors: Vec::new(),
            chapter_heading_flags: Vec::new(),
        };
        let mut ids: Vec<(String, String)> = Vec::new();
        assert(spine_model(acc, warnings@) =~= start);
        assert(pair_views(ids@) =~= Seq::<(Seq<char>, Seq<char>)>::empty());
        let mut k: usize = 0;
        while k < spine_ids.len()
            invariant
                k <= spine_ids@.len(),
                archive_data(*archive) == data,
                ids_ok(pair_views(ids@)),
                spine_plain(acc),
                spine_model(acc, warnings@) == spine_build(
                    start,
                    data,
                    opf_base_path@,
                    pair_views(manifest@),
                    pair_views(toc_title_map@),
                    str_views(spine_ids@),
                    k as int,
                ),
            decreases spine_ids@.len() - k,
        {
            let idref = &spine_ids[k];
            assert(str_views(spine_ids@)[k as int] == idref@);
            let iv = to_chars(idref.as_str());
            proof {
                crate::opf_utils::lemma_key_pos(pair_views(manifest@), iv@);
            }
            match map_lookup(manifest, &iv) {
                None => {
                    push_warning(warnings, "spine 引用了不存在的 manifest 项: ", idref.as_str());
                    assert(spine_model(acc, warnings@) =~= spine_build(
                        start,
                        data,
                        opf_base_path@,
                        pair_views(manifest@),
                        pair_views(toc_title_map@),
                        str_views(spine_ids@),
                        k + 1,
                    ));
                },
                Some(mi) => {
                    let href = &manifest[mi].1;
                    if EpubParser::is_non_body_spine_item(href.as_str()) {
                        push_warning(warnings, "跳过非正文项: ", href.as_str());
                        assert(spine_model(acc, warnings@) =~= spine_build(
                            start,
                            data,
                            opf_base_path@,
                            pair_views(manifest@),
                            pair_views(toc_title_map@),
                            str_views(spine_ids@),
                            k + 1,
                        ));
                    } else {
                        let fp = self.get_full_path(opf_base_path, href.as_str());
                        let html = match read_entry_text(archive, fp.as_str()) {
                            Some(t) => t,
                            None => String::new(),
                        };
                        if html.as_str().is_empty() {
                            push_warning(warnings, "无法读取章节文件: ", fp.as_str());
                            assert(spine_model(acc, warnings@) =~= spine_build(
                                start,
                                data,
                                opf_base_path@,
                                pair_views(manifest@),
                                pair_views(toc_title_map@),
                                str_views(spine_ids@),
                                k + 1,
                            ));
                        } else {
                            self.add_chapter(
                                &mut acc,
                                &mut ids,
                                warnings,
                                fp.as_str(),
                                href.as_str(),
                                idref.as_str(),
                                html.as_str(),
                                toc_title_map,
                            );
                        }
                    }
                },
            }
            k = k + 1;
        }
        acc
    }
}

// ---------------------------------------------------------------------------
// Laws
// ---------------------------------------------------------------------------

/// Law: an image referenced again, under any spelling that resolves to the
/// same archive path, adds no second asset, and gets the same asset id.
pub proof fn law_same_image_stored_once(
    assets: Seq<AssetEntry>,
    src1: Seq<char>,
    dir1: Seq<char>,
    alt1: Option<Seq<char>>,
    src2: Seq<char>,
    dir2: Seq<char>,
    alt2: Option<Seq<char>>,
)
    requires
        resolved(dir1, src1) == resolved(dir2, src2),
    ensures
        register(register(assets, src1, dir1, alt1), src2, dir2, alt2) == register(
            assets,
            src1,
            dir1,
            alt1,
        ),
        asset_id_of(resolved(dir1, src1)) == asset_id_of(resolved(dir2, src2)),
{
    let full = resolved(dir1, src1);
    let a1 = register(assets, src1, dir1, alt1);
    if !has_path(assets, full) {
        assert(a1[assets.len() as int].path == full);
    }
    assert(has_path(a1, full));
}

pub proof fn lemma_keep_monotone(ps: Seq<Seq<char>>, i: int, j: int)
    requires
        0 <= i <= j,
    ensures
        keep_upto(ps, ps, i).len() <= keep_upto(ps, ps, j).len(),
    decreases j - i,
{
    if i < j {
        lemma_keep_monotone(ps, i, j - 1);
    }
}

pub proof fn lemma_kept_are_clean(ps: Seq<Seq<char>>, n: int)
    requires
        0 <= n <= ps.len(),
    ensures
        forall|k: int|
            0 <= k < keep_upto(ps, ps, n).len() ==> !xml_noise(#[trigger] keep_upto(ps, ps, n)[k]),
    decreases n,
{
    if n > 0 {
        lemma_kept_are_clean(ps, n - 1);
        let prev = keep_upto(ps, ps, n - 1);
        let cur = keep_upto(ps, ps, n);
        assert forall|k: int| 0 <= k < cur.len() implies !xml_noise(#[trigger] cur[k]) by {
            if k < prev.len() {
                assert(cur[k] == prev[k]);
            }
        }
    }
}

pub proof fn lemma_reindexed_in_range(as_: Seq<(Seq<char>, usize)>, ps: Seq<Seq<char>>, m: int)
    requires
        0 <= m <= as_.len(),
    ensures
        forall|k: int|
            0 <= k < reindexed(as_, ps, m).len() ==> (#[trigger] reindexed(as_, ps, m)[k]).1
                < keep_upto(ps, ps, ps.len() as int).len(),
    decreases m,
{
    if m > 0 {
        lemma_reindexed_in_range(as_, ps, m - 1);
        let a = as_[m - 1];
        let prev = reindexed(as_, ps, m - 1);
        let cur = reindexed(as_, ps, m);
        if a.1 < ps.len() && kept(ps, a.1 as int) {
            lemma_keep_monotone(ps, a.1 + 1, ps.len() as int);
            lemma_keep_len(ps, ps, a.1 as int);
            assert(keep_upto(ps, ps, a.1 + 1).len() == keep_upto(ps, ps, a.1 as int).len() + 1);
        }
        assert forall|k: int| 0 <= k < cur.len() implies (#[trigger] cur[k]).1 < keep_upto(
            ps,
            ps,
            ps.len() as int,
        ).len() by {
            if k < prev.len() {
                assert(cur[k] == prev[k]);
            }
        }
    }
}

/// Law: dropping noise keeps only paragraphs that are not noise, keeps the
/// links and heading flags in step with the paragraphs, and every anchor it
/// keeps points at one of the remaining paragraphs.
pub proof fn law_noise_filter_consistent(
    ps: Seq<Seq<char>>,
    links: Seq<Seq<LinkView>>,
    flags: Seq<bool>,
    anchors: Seq<(Seq<char>, usize)>,
)
    requires
        links.len() == ps.len(),
        flags.len() == ps.len(),
    ensures
        forall|k: int|
            0 <= k < keep_upto(ps, ps, ps.len() as int).len() ==> !xml_noise(
                #[trigger] keep_upto(ps, ps, ps.len() as int)[k],
            ),
        keep_upto(links, ps, ps.len() as int).len() == keep_upto(ps, ps, ps.len() as int).len(),
        keep_upto(flags, ps, ps.len() as int).len() == keep_upto(ps, ps, ps.len() as int).len(),
        forall|k: int|
            0 <= k < reindexed(anchors, ps, anchors.len() as int).len() ==> (#[trigger] reindexed(
                anchors,
                ps,
                anchors.len() as int,
            )[k]).1 < keep_upto(ps, ps, ps.len() as int).len(),
{
    lemma_kept_are_clean(ps, ps.len() as int);
    lemma_keep_len(links, ps, ps.len() as int);
    lemma_keep_len(flags, ps, ps.len() as int);
    lemma_reindexed_in_range(anchors, ps, anchors.len() as int);
}

/// Every per-chapter sequence has one entry per chapter.
pub open spec fn spine_aligned(m: SpineBuild) -> bool {
    &&& m.titles.len() == m.content.len()
    &&& m.hrefs.len() == m.content.len()
    &&& m.blocks.len() == m.content.len()
    &&& m.links.len() == m.content.len()
    &&& m.anchors.len() == m.content.len()
    &&& m.flags.len() == m.content.len()
}

/// Law: building chapters from the spine keeps one title, href, image-block
/// list, link list, anchor list and heading-flag list per chapter.
pub proof fn law_spine_chapters_aligned(
    start: SpineBuild,
    data: Seq<u8>,
    base: Seq<char>,
    manifest: Seq<(Seq<char>, Seq<char>)>,
    titles: Seq<(Seq<char>, Seq<char>)>,
    spine: Seq<Seq<char>>,
    k: int,
)
    requires
        spine_aligned(start),
    ensures
        spine_aligned(spine_build(start, data, base, manifest, titles, spine, k)),
    decreases k,
{
    if k > 0 {
        law_spine_chapters_aligned(start, data, base, manifest, titles, spine, k - 1);
    }
}

} // verus!
