//! Lightweight line-based OPF helpers: locating the package document and
//! finding the cover image.

use vstd::prelude::*;
use crate::epub_assets::{is_image, is_image_href, normalize_href, normalized};
use crate::text::{
    contains, contains_chars, extend_chars, find, find_chars, find_from, find_from_exec,
    from_chars, has_prefix, is_whitespace, is_ws, lemma_find_from, lines, lines_chars,
    match_at, match_at_exec, slice_chars, starts_with, to_chars, to_lower, trim, trim_chars,
    unicode_lower, views,
};

verus! {

// ---------------------------------------------------------------------------
// Attribute values
// ---------------------------------------------------------------------------

/// The text after the first occurrence of `pat`, up to the next `q`.
pub open spec fn quoted_after(tag: Seq<char>, pat: Seq<char>, q: char) -> Option<Seq<char>> {
    match find(tag, pat) {
        Some(s) => match find_from(tag, seq![q], s + pat.len()) {
            Some(e) => Some(tag.subrange(s + pat.len(), e)),
            None => None,
        },
        None => None,
    }
}

/// An attribute name can begin at `j`: the start of the tag text, or just
/// after whitespace (so `id` is not found inside `data-id`).
pub open spec fn at_name_start(tag: Seq<char>, j: int) -> bool {
    j == 0 || (0 < j <= tag.len() && is_ws(tag[j - 1]))
}

/// First index at or after `i` where `pat` occurs at the start of a name.
pub open spec fn find_name_from(tag: Seq<char>, pat: Seq<char>, i: int) -> Option<int>
    decreases tag.len() + 1 - i,
{
    if i < 0 || i + pat.len() > tag.len() {
        None
    } else if match_at(tag, pat, i) && at_name_start(tag, i) {
        Some(i)
    } else {
        find_name_from(tag, pat, i + 1)
    }
}

pub proof fn lemma_find_name_from(tag: Seq<char>, pat: Seq<char>, i: int)
    requires
        0 <= i,
    ensures
        find_name_from(tag, pat, i) matches Some(j) ==> i <= j && j + pat.len() <= tag.len()
            && match_at(tag, pat, j) && at_name_start(tag, j),
    decreases tag.len() + 1 - i,
{
    if i + pat.len() <= tag.len() && !(match_at(tag, pat, i) && at_name_start(tag, i)) {
        lemma_find_name_from(tag, pat, i + 1);
    }
}

/// The text after `pat` found at the start of a name, up to the next `q`.
pub open spec fn named_quoted(tag: Seq<char>, pat: Seq<char>, q: char) -> Option<Seq<char>> {
    match find_name_from(tag, pat, 0) {
        Some(s) => match find_from(tag, seq![q], s + pat.len()) {
            Some(e) => Some(tag.subrange(s + pat.len(), e)),
            None => None,
        },
        None => None,
    }
}

/// Value of the attribute named `attr`: `attr="..."`, else `attr='...'`,
/// where the name starts the tag text or follows whitespace.
pub open spec fn attr_value(tag: Seq<char>, attr: Seq<char>) -> Option<Seq<char>> {
    match named_quoted(tag, attr + seq!['=', '"'], '"') {
        Some(v) => Some(v),
        None => named_quoted(tag, attr + seq!['=', '\''], '\''),
    }
}

fn find_name_exec(tag: &[char], pat: &[char]) -> (r: Option<usize>)
    ensures
        r matches Some(j) ==> find_name_from(tag@, pat@, 0) == Some(j as int),
        r is None ==> find_name_from(tag@, pat@, 0) is None,
{
    let mut i: usize = 0;
    while i <= tag.len() && pat.len() <= tag.len() - i
        invariant
            find_name_from(tag@, pat@, 0) == find_name_from(tag@, pat@, i as int),
        decreases tag.len() + 1 - i,
    {
        if match_at_exec(tag, pat, i) && (i == 0 || is_whitespace(tag[i - 1])) {
            return Some(i);
        }
        if i == tag.len() {
            assert(find_name_from(tag@, pat@, i + 1) is None);
            return None;
        }
        i = i + 1;
    }
    None
}

fn named_quoted_exec(tag: &[char], pat: &[char], q: char) -> (r: Option<Vec<char>>)
    ensures
        match r {
            Some(v) => named_quoted(tag@, pat@, q) == Some(v@),
            None => named_quoted(tag@, pat@, q) is None,
        },
{
    match find_name_exec(tag, pat) {
        Some(s) => {
            proof {
                lemma_find_name_from(tag@, pat@, 0);
            }
            let qv: Vec<char> = vec![q];
            assert(qv@ == seq![q]);
            assert(tag@.len() == tag.len());
            let st = s + pat.len();
            match find_from_exec(tag, &qv, st) {
                Some(e) => {
                    proof {
                        lemma_find_from(tag@, qv@, st as int);
                    }
                    Some(slice_chars(tag, st, e))
                },
                None => None,
            }
        },
        None => None,
    }
}

fn quoted_after_exec(tag: &[char], pat: &[char], q: char) -> (r: Option<Vec<char>>)
    ensures
        match r {
            Some(v) => quoted_after(tag@, pat@, q) == Some(v@),
            None => quoted_after(tag@, pat@, q) is None,
        },
{
    match find_chars(tag, pat) {
        Some(s) => {
            proof {
                lemma_find_from(tag@, pat@, 0);
            }
            let qv: Vec<char> = vec![q];
            assert(qv@ == seq![q]);
            assert(s + pat@.len() <= tag@.len());
            assert(tag@.len() == tag.len());
            let st = s + pat.len();
            match find_from_exec(tag, &qv, st) {
                Some(e) => {
                    proof {
                        lemma_find_from(tag@, qv@, st as int);
                    }
                    Some(slice_chars(tag, st, e))
                },
                None => None,
            }
        },
        None => None,
    }
}

fn attr_value_chars(tag: &[char], attr: &[char]) -> (r: Option<Vec<char>>)
    ensures
        match r {
            Some(v) => attr_value(tag@, attr@) == Some(v@),
            None => attr_value(tag@, attr@) is None,
        },
{
    let mut p1: Vec<char> = Vec::new();
    extend_chars(&mut p1, attr);
    p1.push('=');
    p1.push('"');
    assert(p1@ == attr@ + seq!['=', '"']);
    match named_quoted_exec(tag, &p1, '"') {
        Some(v) => Some(v),
        None => {
            let mut p2: Vec<char> = Vec::new();
            extend_chars(&mut p2, attr);
            p2.push('=');
            p2.push('\'');
            assert(p2@ == attr@ + seq!['=', '\'']);
            named_quoted_exec(tag, &p2, '\'')
        },
    }
}

/// Value of attribute `attr` in a tag string, double-quoted form first,
/// then single-quoted; the name must start the tag text or follow whitespace.
pub fn extract_attr(tag: &str, attr: &str) -> (r: Option<String>)
    ensures
        match r {
            Some(v) => attr_value(tag@, attr@) == Some(v@),
            None => attr_value(tag@, attr@) is None,
        },
{
    let t = to_chars(tag);
    let a = to_chars(attr);
    match attr_value_chars(&t, &a) {
        Some(v) => Some(from_chars(&v)),
        None => None,
    }
}

// ---------------------------------------------------------------------------
// container.xml
// ---------------------------------------------------------------------------

/// The OPF path declared on one line of `container.xml`, if any.
pub open spec fn opf_path_in_line(line: Seq<char>) -> Option<Seq<char>> {
    if contains(line, "application/oebps-package+xml"@) {
        quoted_after(line, "full-path=\""@, '"')
    } else {
        None
    }
}

/// The first line (among the first `n`) that declares an OPF path.
pub open spec fn first_opf_path(ls: Seq<Seq<char>>, n: int) -> Option<Seq<char>>
    decreases n,
{
    if n <= 0 {
        None
    } else {
        match first_opf_path(ls, n - 1) {
            Some(p) => Some(p),
            None => opf_path_in_line(ls[n - 1]),
        }
    }
}

/// Extracts the OPF path from `container.xml`: the `full-path` of the first
/// line that mentions the OEBPS package media type and has that attribute.
pub fn extract_opf_path(container_xml: &str) -> (r: Option<String>)
    ensures
        match r {
            Some(p) => first_opf_path(lines(container_xml@), lines(container_xml@).len() as int)
                == Some(p@),
            None => first_opf_path(lines(container_xml@), lines(container_xml@).len() as int) is None,
        },
{
    let cv = to_chars(container_xml);
    let ls = lines_chars(&cv);
    let needle = to_chars("application/oebps-package\x2bxml");
    let key = to_chars("full-path=\"");
    proof {
        reveal_strlit("application/oebps-package\x2bxml");
        reveal_strlit("application/oebps-package+xml");
        assert(needle@ == "application/oebps-package+xml"@);
    }
    let mut i: usize = 0;
    while i < ls.len()
        invariant
            i <= ls.len(),
            needle@ == "application/oebps-package+xml"@,
            key@ == "full-path=\""@,
            views(ls@) == lines(container_xml@),
            first_opf_path(views(ls@), i as int) is None,
        decreases ls.len() - i,
    {
        let line = &ls[i];
        assert(views(ls@)[i as int] == line@);
        if contains_chars(line, &needle) {
            match quoted_after_exec(line, &key, '"') {
                Some(v) => {
                    proof {
                        lemma_first_opf_path_prefix(views(ls@), (i + 1) as int);
                    }
                    return Some(from_chars(&v));
                },
                None => {},
            }
        }
        i = i + 1;
    }
    None
}

pub proof fn lemma_first_opf_path_prefix(ls: Seq<Seq<char>>, n: int)
    requires
        0 <= n <= ls.len(),
        first_opf_path(ls, n) is Some,
    ensures
        first_opf_path(ls, ls.len() as int) == first_opf_path(ls, n),
    decreases ls.len() - n,
{
    if n < ls.len() {
        lemma_first_opf_path_prefix(ls, n + 1);
    }
}

// ---------------------------------------------------------------------------
// Manifest as an association list
// ---------------------------------------------------------------------------

/// Views of `(key, value)` string pairs.
pub open spec fn pair_views(v: Seq<(String, String)>) -> Seq<(Seq<char>, Seq<char>)> {
    v.map_values(|p: (String, String)| (p.0@, p.1@))
}

pub open spec fn keys_unique(m: Seq<(Seq<char>, Seq<char>)>) -> bool {
    forall|i: int, j: int| 0 <= i < j < m.len() ==> m[i].0 != m[j].0
}

/// Position of `k` among the keys of `m`.
pub open spec fn key_pos(m: Seq<(Seq<char>, Seq<char>)>, k: Seq<char>) -> Option<int>
    decreases m.len(),
{
    if m.len() == 0 {
        None
    } else if m.last().0 == k {
        Some(m.len() - 1)
    } else {
        key_pos(m.drop_last(), k)
    }
}

/// Value stored under `k`.
pub open spec fn map_get(m: Seq<(Seq<char>, Seq<char>)>, k: Seq<char>) -> Option<Seq<char>> {
    match key_pos(m, k) {
        Some(i) => Some(m[i].1),
        None => None,
    }
}

/// `HashMap::insert` on an association list: replace in place or append.
pub open spec fn map_insert(m: Seq<(Seq<char>, Seq<char>)>, k: Seq<char>, v: Seq<char>) -> Seq<(
    Seq<char>,
    Seq<char>,
)> {
    match key_pos(m, k) {
        Some(i) => m.update(i, (k, v)),
        None => m.push((k, v)),
    }
}

pub proof fn lemma_key_pos(m: Seq<(Seq<char>, Seq<char>)>, k: Seq<char>)
    ensures
        key_pos(m, k) matches Some(i) ==> 0 <= i < m.len() && m[i].0 == k,
        key_pos(m, k) is None ==> forall|i: int| 0 <= i < m.len() ==> m[i].0 != k,
        key_pos(m, k) matches Some(i) ==> forall|j: int| i < j < m.len() ==> m[j].0 != k,
    decreases m.len(),
{
    if m.len() > 0 && m.last().0 != k {
        let d = m.drop_last();
        lemma_key_pos(d, k);
        assert forall|i: int| 0 <= i < d.len() implies d[i] == m[i] by {}
        if key_pos(m, k) is None {
            assert forall|i: int| 0 <= i < m.len() implies m[i].0 != k by {
                if i < d.len() {
                    assert(d[i] == m[i]);
                }
            }
        }
        if let Some(i) = key_pos(m, k) {
            assert forall|j: int| i < j < m.len() implies m[j].0 != k by {
                if j < d.len() {
                    assert(d[j] == m[j]);
                }
            }
        }
    }
}

pub proof fn lemma_key_pos_unique(m: Seq<(Seq<char>, Seq<char>)>, k: Seq<char>, i: int)
    requires
        keys_unique(m),
        0 <= i < m.len(),
        m[i].0 == k,
    ensures
        key_pos(m, k) == Some(i),
{
    lemma_key_pos(m, k);
}

/// After `map_insert`, the key maps to the new value, other keys keep their
/// values, and keys stay unique.
pub proof fn lemma_map_insert(m: Seq<(Seq<char>, Seq<char>)>, k: Seq<char>, v: Seq<char>, k2: Seq<char>)
    requires
        keys_unique(m),
    ensures
        keys_unique(map_insert(m, k, v)),
        map_get(map_insert(m, k, v), k2) == if k2 == k {
            Some(v)
        } else {
            map_get(m, k2)
        },
{
    let r = map_insert(m, k, v);
    lemma_key_pos(m, k);
    lemma_key_pos(m, k2);
    lemma_key_pos(r, k2);
    match key_pos(m, k) {
        Some(i) => {
            assert forall|a: int, b: int| 0 <= a < b < r.len() implies r[a].0 != r[b].0 by {
                if a != i && b != i {
                    assert(r[a] == m[a] && r[b] == m[b]);
                }
            }
            if k2 == k {
                lemma_key_pos_unique(r, k2, i);
            } else {
                if let Some(j) = key_pos(m, k2) {
                    assert(r[j] == m[j]);
                    lemma_key_pos_unique(r, k2, j);
                } else {
                    assert forall|q: int| 0 <= q < r.len() implies r[q].0 != k2 by {
                        if q != i {
                            assert(r[q] == m[q]);
                        }
                    }
                }
            }
        },
        None => {
            assert forall|a: int, b: int| 0 <= a < b < r.len() implies r[a].0 != r[b].0 by {
                if b < m.len() {
                    assert(r[a] == m[a] && r[b] == m[b]);
                } else {
                    assert(r[a] == m[a]);
                }
            }
            if k2 == k {
                lemma_key_pos_unique(r, k2, m.len() as int);
            } else {
                if let Some(j) = key_pos(m, k2) {
                    assert(r[j] == m[j]);
                    lemma_key_pos_unique(r, k2, j);
                } else {
                    assert forall|q: int| 0 <= q < r.len() implies r[q].0 != k2 by {
                        if q < m.len() {
                            assert(r[q] == m[q]);
                        }
                    }
                }
            }
        },
    }
}

pub fn map_lookup(m: &Vec<(String, String)>, k: &[char]) -> (r: Option<usize>)
    ensures
        match r {
            Some(i) => key_pos(pair_views(m@), k@) == Some(i as int),
            None => key_pos(pair_views(m@), k@) is None,
        },
{
    let ghost pv = pair_views(m@);
    assert(pv.take(m@.len() as int) == pv);
    let mut i: usize = m.len();
    while i > 0
        invariant
            i <= m.len(),
            pv == pair_views(m@),
            key_pos(pv, k@) == key_pos(pv.take(i as int), k@),
        decreases i,
    {
        let kc = to_chars(m[i - 1].0.as_str());
        assert(pv.take(i as int).last() == pv[i - 1]);
        assert(pv.take(i as int).drop_last() == pv.take(i - 1));
        if crate::text::chars_eq(&kc, k) {
            return Some(i - 1);
        }
        i = i - 1;
    }
    None
}

pub fn map_insert_exec(m: &mut Vec<(String, String)>, k: String, v: String)
    requires
        keys_unique(pair_views(old(m)@)),
    ensures
        pair_views(final(m)@) == map_insert(pair_views(old(m)@), k@, v@),
        keys_unique(pair_views(final(m)@)),
{
    let kc = to_chars(k.as_str());
    let ghost before = pair_views(m@);
    proof {
        lemma_key_pos(before, k@);
    }
    match map_lookup(m, &kc) {
        Some(i) => {
            let ghost kv = k@;
            let ghost vv = v@;
            m.set(i, (k, v));
            assert(pair_views(m@) =~= before.update(i as int, (kv, vv)));
        },
        None => {
            let ghost kv = k@;
            let ghost vv = v@;
            m.push((k, v));
            assert(pair_views(m@) =~= before.push((kv, vv)));
        },
    }
}

// ---------------------------------------------------------------------------
// Cover detection
// ---------------------------------------------------------------------------

/// State of the line scan: inside `<manifest>`, manifest so far, EPUB 2
/// cover id, EPUB 3 cover href.
pub struct CoverScan {
    pub in_manifest: bool,
    pub manifest: Seq<(Seq<char>, Seq<char>)>,
    pub cover_id: Option<Seq<char>>,
    pub cover_href: Option<Seq<char>>,
}

/// One line of the OPF scan.
pub open spec fn cover_step(st: CoverScan, line: Seq<char>) -> CoverScan {
    let t = trim(line);
    let in1 = if contains(t, "<manifest"@) {
        true
    } else {
        st.in_manifest
    };
    let in2 = if contains(t, "</manifest"@) {
        false
    } else {
        in1
    };
    let (man, href) = if in2 && contains(t, "<item"@) {
        match (attr_value(t, "id"@), attr_value(t, "href"@)) {
            (Some(id), Some(h)) => {
                let hn = normalized(h);
                let props = match attr_value(t, "properties"@) {
                    Some(p) => p,
                    None => Seq::<char>::empty(),
                };
                (
                    map_insert(st.manifest, id, hn),
                    if contains(props, "cover-image"@) {
                        Some(hn)
                    } else {
                        st.cover_href
                    },
                )
            },
            _ => (st.manifest, st.cover_href),
        }
    } else {
        (st.manifest, st.cover_href)
    };
    let cid = if contains(t, "<meta"@) && attr_value(t, "name"@) == Some("cover"@) && attr_value(
        t,
        "content"@,
    ) is Some {
        attr_value(t, "content"@)
    } else {
        st.cover_id
    };
    CoverScan { in_manifest: in2, manifest: man, cover_id: cid, cover_href: href }
}

pub open spec fn cover_scan(ls: Seq<Seq<char>>, n: int) -> CoverScan
    decreases n,
{
    if n <= 0 {
        CoverScan { in_manifest: false, manifest: seq![], cover_id: None, cover_href: None }
    } else {
        cover_step(cover_scan(ls, n - 1), ls[n - 1])
    }
}

/// First manifest entry (in order) whose id contains "cover" (any case) and
/// whose href names an image.
pub open spec fn first_cover_by_id(m: Seq<(Seq<char>, Seq<char>)>, n: int) -> Option<Seq<char>>
    decreases n,
{
    if n <= 0 {
        None
    } else {
        match first_cover_by_id(m, n - 1) {
            Some(h) => Some(h),
            None => if contains(unicode_lower(m[n - 1].0), "cover"@) && is_image(m[n - 1].1) {
                Some(m[n - 1].1)
            } else {
                None
            },
        }
    }
}

/// First manifest href (in order) that contains "cover" (any case) and names an image.
pub open spec fn first_cover_by_href(m: Seq<(Seq<char>, Seq<char>)>, n: int) -> Option<Seq<char>>
    decreases n,
{
    if n <= 0 {
        None
    } else {
        match first_cover_by_href(m, n - 1) {
            Some(h) => Some(h),
            None => if contains(unicode_lower(m[n - 1].1), "cover"@) && is_image(m[n - 1].1) {
                Some(m[n - 1].1)
            } else {
                None
            },
        }
    }
}

/// The cover href after the scan: EPUB 3 property, else the EPUB 2 cover id
/// (directly, or behind an `__id__:` marker, or any image entry whose id
/// mentions "cover"), else any image href mentioning "cover".
pub open spec fn cover_href_of(st: CoverScan) -> Option<Seq<char>> {
    let m = st.manifest;
    let via_id = match st.cover_href {
        Some(h) => Some(h),
        None => match st.cover_id {
            Some(id) => match map_get(m, id) {
                Some(h) => Some(h),
                None => match (if has_prefix(id, "__id__:"@) {
                    map_get(m, id.subrange(7, id.len() as int))
                } else {
                    None
                }) {
                    Some(h) => Some(h),
                    None => first_cover_by_id(m, m.len() as int),
                },
            },
            None => None,
        },
    };
    match via_id {
        Some(h) => Some(h),
        None => first_cover_by_href(m, m.len() as int),
    }
}

fn cover_line_step(
    line: &[char],
    in_manifest: &mut bool,
    manifest: &mut Vec<(String, String)>,
    cover_id: &mut Option<String>,
    cover_href: &mut Option<String>,
)
    requires
        keys_unique(pair_views(old(manifest)@)),
    ensures
        keys_unique(pair_views(final(manifest)@)),
        ({
            let st = CoverScan {
                in_manifest: *old(in_manifest),
                manifest: pair_views(old(manifest)@),
                cover_id: match *old(cover_id) {
                    Some(s) => Some(s@),
                    None => None,
                },
                cover_href: match *old(cover_href) {
                    Some(s) => Some(s@),
                    None => None,
                },
            };
            let nx = cover_step(st, line@);
            &&& *final(in_manifest) == nx.in_manifest
            &&& pair_views(final(manifest)@) == nx.manifest
            &&& nx.cover_id == match *final(cover_id) {
                Some(s) => Some(s@),
                None => None,
            }
            &&& nx.cover_href == match *final(cover_href) {
                Some(s) => Some(s@),
                None => None,
            }
        }),
{
    let t = trim_chars(line);
    if contains_chars(&t, &to_chars("<manifest")) {
        *in_manifest = true;
    }
    if contains_chars(&t, &to_chars("</manifest")) {
        *in_manifest = false;
    }
    if *in_manifest && contains_chars(&t, &to_chars("<item")) {
        let id = attr_value_chars(&t, &to_chars("id"));
        let href = attr_value_chars(&t, &to_chars("href"));
        let props = attr_value_chars(&t, &to_chars("properties"));
        match (id, href) {
            (Some(id), Some(h)) => {
                let hn = from_chars(&crate::epub_assets::normalize_chars(&h));
                let hn2 = hn.clone();
                map_insert_exec(manifest, from_chars(&id), hn);
                let pv = match props {
                    Some(p) => p,
                    None => Vec::new(),
                };
                if contains_chars(&pv, &to_chars("cover-image")) {
                    *cover_href = Some(hn2);
                }
            },
            _ => {},
        }
    }
    if contains_chars(&t, &to_chars("<meta")) {
        let name = attr_value_chars(&t, &to_chars("name"));
        let content = attr_value_chars(&t, &to_chars("content"));
        let is_cover = match &name {
            Some(n) => crate::text::chars_eq(n, &to_chars("cover")),
            None => false,
        };
        if is_cover {
            match content {
                Some(c) => {
                    *cover_id = Some(from_chars(&c));
                },
                None => {},
            }
        }
    }
}

fn lower_contains_cover(s: &String) -> (b: bool)
    ensures
        b == contains(unicode_lower(s@), "cover"@),
{
    let l = to_chars(to_lower(s.as_str()).as_str());
    contains_chars(&l, &to_chars("cover"))
}

/// Finds the cover image of a package document by scanning its lines.
/// Returns the manifest (id to normalized href, in order of first appearance)
/// together with the cover href, or `None` when no cover is found.
pub fn parse_opf_cover(opf_content: &str) -> (r: Option<(Vec<(String, String)>, String)>)
    ensures
        ({
            let ls = lines(opf_content@);
            let st = cover_scan(ls, ls.len() as int);
            match r {
                Some((m, h)) => cover_href_of(st) == Some(h@) && pair_views(m@) == st.manifest,
                None => cover_href_of(st) is None,
            }
        }),
{
    let cv = to_chars(opf_content);
    let ls = lines_chars(&cv);
    let mut in_manifest = false;
    let mut manifest: Vec<(String, String)> = Vec::new();
    let mut cover_id: Option<String> = None;
    let mut cover_href: Option<String> = None;
    let mut i: usize = 0;
    assert(pair_views(manifest@) =~= Seq::<(Seq<char>, Seq<char>)>::empty());
    while i < ls.len()
        invariant
            i <= ls.len(),
            views(ls@) == lines(opf_content@),
            keys_unique(pair_views(manifest@)),
            ({
                let st = cover_scan(views(ls@), i as int);
                &&& in_manifest == st.in_manifest
                &&& pair_views(manifest@) == st.manifest
                &&& st.cover_id == match cover_id {
                    Some(s) => Some(s@),
                    None => None,
                }
                &&& st.cover_href == match cover_href {
                    Some(s) => Some(s@),
                    None => None,
                }
            }),
        decreases ls.len() - i,
    {
        assert(views(ls@)[i as int] == ls@[i as int]@);
        cover_line_step(&ls[i], &mut in_manifest, &mut manifest, &mut cover_id, &mut cover_href);
        i = i + 1;
    }
    let ghost m = pair_views(manifest@);
    // EPUB 2: resolve the cover id through the manifest.
    if cover_href.is_none() {
        match &cover_id {
            Some(id) => {
                let idc = to_chars(id.as_str());
                proof {
                    lemma_key_pos(m, idc@);
                }
                match map_lookup(&manifest, &idc) {
                    Some(p) => {
                        cover_href = Some(manifest[p].1.clone());
                    },
                    None => {},
                }
                if cover_href.is_none() {
                    let marker = to_chars("__id__:");
                    proof {
                        reveal_strlit("__id__:");
                    }
                    if starts_with(&idc, &marker) {
                        let actual = slice_chars(&idc, 7, idc.len());
                        proof {
                            lemma_key_pos(m, actual@);
                        }
                        match map_lookup(&manifest, &actual) {
                            Some(p) => {
                                cover_href = Some(manifest[p].1.clone());
                            },
                            None => {},
                        }
                    }
                }
                if cover_href.is_none() {
                    let mut j: usize = 0;
                    while j < manifest.len() && cover_href.is_none()
                        invariant
                            j <= manifest.len(),
                            m == pair_views(manifest@),
                            cover_href is None ==> first_cover_by_id(m, j as int) is None,
                            cover_href matches Some(h) ==> first_cover_by_id(m, m.len() as int)
                                == Some(h@),
                        decreases manifest.len() - j,
                    {
                        if lower_contains_cover(&manifest[j].0) && is_image_href(
                            manifest[j].1.as_str(),
                        ) {
                            cover_href = Some(manifest[j].1.clone());
                            proof {
                                lemma_first_cover_by_id_prefix(m, (j + 1) as int);
                            }
                        }
                        j = j + 1;
                    }
                }
            },
            None => {},
        }
    }
    if cover_href.is_none() {
        let mut j: usize = 0;
        while j < manifest.len() && cover_href.is_none()
            invariant
                j <= manifest.len(),
                m == pair_views(manifest@),
                cover_href is None ==> first_cover_by_href(m, j as int) is None,
                cover_href matches Some(h) ==> first_cover_by_href(m, m.len() as int) == Some(h@),
            decreases manifest.len() - j,
        {
            if lower_contains_cover(&manifest[j].1) && is_image_href(manifest[j].1.as_str()) {
                cover_href = Some(manifest[j].1.clone());
                proof {
                    lemma_first_cover_by_href_prefix(m, (j + 1) as int);
                }
            }
            j = j + 1;
        }
    }
    match cover_href {
        Some(h) => Some((manifest, h)),
        None => None,
    }
}

pub proof fn lemma_first_cover_by_id_prefix(m: Seq<(Seq<char>, Seq<char>)>, n: int)
    requires
        0 <= n <= m.len(),
        first_cover_by_id(m, n) is Some,
    ensures
        first_cover_by_id(m, m.len() as int) == first_cover_by_id(m, n),
    decreases m.len() - n,
{
    if n < m.len() {
        lemma_first_cover_by_id_prefix(m, n + 1);
    }
}

pub proof fn lemma_first_cover_by_href_prefix(m: Seq<(Seq<char>, Seq<char>)>, n: int)
    requires
        0 <= n <= m.len(),
        first_cover_by_href(m, n) is Some,
    ensures
        first_cover_by_href(m, m.len() as int) == first_cover_by_href(m, n),
    decreases m.len() - n,
{
    if n < m.len() {
        lemma_first_cover_by_href_prefix(m, n + 1);
    }
}

} // verus!
