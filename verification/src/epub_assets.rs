//! EPUB-internal paths and image asset helpers.

use vstd::prelude::*;
use crate::archive::{EpubArchive, archive_data, entry_bytes, read_entry_bytes};
use crate::text::{
    ends_with, from_chars, has_suffix, is_one_of, join, join_chars, lit_list, lit_views,
    lemma_lit_list_views, slice_chars, split, split_chars, to_chars, to_lower, trim,
    trim_chars, unicode_lower, views,
};

verus! {

pub open spec fn is_query_or_fragment(c: char) -> bool {
    c == '?' || c == '#'
}

/// Index of the first `?` or `#` at or after `i`, or the length.
pub open spec fn qf_end(s: Seq<char>, i: int) -> int
    decreases s.len() - i,
{
    if i < 0 || i >= s.len() {
        s.len() as int
    } else if is_query_or_fragment(s[i]) {
        i
    } else {
        qf_end(s, i + 1)
    }
}

/// An href without query and fragment, trimmed.
pub open spec fn normalized(href: Seq<char>) -> Seq<char> {
    trim(href.subrange(0, qf_end(href, 0)))
}

pub proof fn lemma_qf_end_bounds(s: Seq<char>, i: int)
    requires
        0 <= i,
    ensures
        qf_end(s, i) <= s.len(),
        i <= s.len() ==> i <= qf_end(s, i),
    decreases s.len() - i,
{
    if i < s.len() && !is_query_or_fragment(s[i]) {
        lemma_qf_end_bounds(s, i + 1);
    }
}

pub proof fn lemma_qf_end_clear(s: Seq<char>, i: int)
    requires
        0 <= i,
    ensures
        forall|j: int| i <= j < qf_end(s, i) ==> !is_query_or_fragment(#[trigger] s[j]),
    decreases s.len() - i,
{
    if i < s.len() && !is_query_or_fragment(s[i]) {
        lemma_qf_end_clear(s, i + 1);
    }
}

pub proof fn lemma_qf_end_none(s: Seq<char>, i: int)
    requires
        0 <= i <= s.len(),
        forall|j: int| i <= j < s.len() ==> !is_query_or_fragment(#[trigger] s[j]),
    ensures
        qf_end(s, i) == s.len(),
    decreases s.len() - i,
{
    if i < s.len() {
        lemma_qf_end_none(s, i + 1);
    }
}

/// Law: normalizing an href twice changes nothing more than normalizing it once.
pub proof fn law_normalize_href_idempotent(href: Seq<char>)
    ensures
        normalized(normalized(href)) == normalized(href),
{
    lemma_qf_end_bounds(href, 0);
    lemma_qf_end_clear(href, 0);
    let p = href.subrange(0, qf_end(href, 0));
    let t = trim(p);
    crate::text::lemma_trim_is_part(p);
    let (a, b) = choose|a: int, b: int| 0 <= a <= b <= p.len() && t == p.subrange(a, b);
    assert forall|j: int| 0 <= j < t.len() implies !is_query_or_fragment(#[trigger] t[j]) by {
        assert(t[j] == p[a + j]);
        assert(p[a + j] == href[a + j]);
    }
    lemma_qf_end_none(t, 0);
    assert(t.subrange(0, t.len() as int) == t);
    crate::text::lemma_trim_idempotent(p);
}

pub fn normalize_chars(href: &[char]) -> (r: Vec<char>)
    ensures
        r@ == normalized(href@),
{
    let mut i: usize = 0;
    while i < href.len() && !(href[i] == '?' || href[i] == '#')
        invariant
            i <= href.len(),
            qf_end(href@, 0) == qf_end(href@, i as int),
        decreases href.len() - i,
    {
        i = i + 1;
    }
    let head = slice_chars(href, 0, i);
    trim_chars(&head)
}

/// Normalizes an EPUB href for archive lookups: drops the query and the
/// fragment, then trims whitespace.
pub fn normalize_href(href: &str) -> (r: String)
    ensures
        r@ == normalized(href@),
{
    let v = to_chars(href);
    from_chars(&normalize_chars(&v))
}

/// `s.trim_start_matches('/')`.
pub open spec fn skip_slashes(s: Seq<char>) -> Seq<char>
    decreases s.len(),
{
    if s.len() > 0 && s[0] == '/' {
        skip_slashes(s.drop_first())
    } else {
        s
    }
}

pub proof fn lemma_skip_slashes_at(s: Seq<char>, k: int)
    requires
        0 <= k <= s.len(),
        forall|j: int| 0 <= j < k ==> #[trigger] s[j] == '/',
        k == s.len() || s[k] != '/',
    ensures
        skip_slashes(s) == s.subrange(k, s.len() as int),
    decreases k,
{
    if k > 0 {
        let t = s.drop_first();
        assert forall|j: int| 0 <= j < k - 1 implies #[trigger] t[j] == '/' by {
            assert(t[j] == s[j + 1]);
        }
        lemma_skip_slashes_at(t, k - 1);
        assert(t.subrange(k - 1, t.len() as int) == s.subrange(k, s.len() as int));
    } else {
        assert(s.subrange(0, s.len() as int) == s);
    }
}

pub fn skip_slashes_chars(s: &[char]) -> (r: Vec<char>)
    ensures
        r@ == skip_slashes(s@),
{
    let mut k: usize = 0;
    while k < s.len() && s[k] == '/'
        invariant
            k <= s.len(),
            forall|j: int| 0 <= j < k ==> #[trigger] s@[j] == '/',
        decreases s.len() - k,
    {
        k = k + 1;
    }
    proof {
        lemma_skip_slashes_at(s@, k as int);
    }
    slice_chars(s, k, s.len())
}

/// One step of path resolution: `""` and `"."` are ignored, `".."` drops
/// the last part (if any), anything else is appended.
pub open spec fn path_step(parts: Seq<Seq<char>>, seg: Seq<char>) -> Seq<Seq<char>> {
    if seg.len() == 0 || seg == "."@ {
        parts
    } else if seg == ".."@ {
        if parts.len() > 0 {
            parts.drop_last()
        } else {
            parts
        }
    } else {
        parts.push(seg)
    }
}

/// Applies the first `n` segments to `parts`.
pub open spec fn path_walk(parts: Seq<Seq<char>>, segs: Seq<Seq<char>>, n: int) -> Seq<Seq<char>>
    decreases n,
{
    if n <= 0 {
        parts
    } else {
        path_step(path_walk(parts, segs, n - 1), segs[n - 1])
    }
}

/// Resolution of an href against a base directory inside the archive.
pub open spec fn resolved(base_dir: Seq<char>, href: Seq<char>) -> Seq<char> {
    let h = normalized(href);
    if h.len() > 0 && h[0] == '/' {
        skip_slashes(h)
    } else {
        let start: Seq<Seq<char>> = if base_dir.len() == 0 {
            seq![]
        } else {
            split(base_dir, "/"@)
        };
        let segs = split(h, "/"@);
        join(path_walk(start, segs, segs.len() as int), "/"@)
    }
}

/// Resolves an EPUB-internal href relative to an EPUB-internal base directory.
pub fn resolve_path(base_dir: &str, href: &str) -> (r: String)
    ensures
        r@ == resolved(base_dir@, href@),
{
    let hv = to_chars(href);
    let h = normalize_chars(&hv);
    if h.len() > 0 && h[0] == '/' {
        return from_chars(&skip_slashes_chars(&h));
    }
    let slash = to_chars("/");
    let dot = to_chars(".");
    let dotdot = to_chars("..");
    proof {
        reveal_strlit("/");
    }
    let bv = to_chars(base_dir);
    let mut parts: Vec<Vec<char>> = if bv.len() == 0 {
        Vec::new()
    } else {
        split_chars(&bv, &slash)
    };
    let ghost start = views(parts@);
    assert(start =~= (if base_dir@.len() == 0 {
        Seq::<Seq<char>>::empty()
    } else {
        split(base_dir@, "/"@)
    }));
    let segs = split_chars(&h, &slash);
    let mut i: usize = 0;
    while i < segs.len()
        invariant
            i <= segs.len(),
            dot@ == "."@,
            dotdot@ == ".."@,
            views(parts@) == path_walk(start, views(segs@), i as int),
        decreases segs.len() - i,
    {
        let seg = &segs[i];
        let ghost before = views(parts@);
        assert(views(segs@)[i as int] == seg@);
        if seg.len() == 0 || chars_eq_lit(seg, &dot) {
        } else if chars_eq_lit(seg, &dotdot) {
            if parts.len() > 0 {
                parts.pop();
                assert(views(parts@) == before.drop_last());
            }
        } else {
            parts.push(slice_chars(seg, 0, seg.len()));
            assert(seg@.subrange(0, seg@.len() as int) == seg@);
            assert(views(parts@) == before.push(seg@));
        }
        i = i + 1;
    }
    assert(views(segs@) == split(normalized(href@), "/"@));
    from_chars(&join_chars(&parts, &slash))
}

fn chars_eq_lit(a: &Vec<char>, b: &Vec<char>) -> (r: bool)
    ensures
        r == (a@ == b@),
{
    crate::text::chars_eq(a, b)
}

/// Lower-cased, normalized href.
pub open spec fn lowered(href: Seq<char>) -> Seq<char> {
    unicode_lower(normalized(href))
}

pub open spec fn media_type_of(href: Seq<char>) -> Seq<char> {
    let l = lowered(href);
    if has_suffix(l, ".jpg"@) || has_suffix(l, ".jpeg"@) {
        "image/jpeg"@
    } else if has_suffix(l, ".png"@) {
        "image/png"@
    } else if has_suffix(l, ".webp"@) {
        "image/webp"@
    } else if has_suffix(l, ".gif"@) {
        "image/gif"@
    } else if has_suffix(l, ".svg"@) {
        "image/svg+xml"@
    } else {
        "image/png"@
    }
}

fn lowered_chars(href: &str) -> (r: Vec<char>)
    ensures
        r@ == lowered(href@),
{
    let n = normalize_href(href);
    to_chars(to_lower(n.as_str()).as_str())
}

/// Media type guessed from the extension of an href (PNG when unknown).
pub fn media_type_from_href(href: &str) -> (r: &'static str)
    ensures
        r@ == media_type_of(href@),
{
    let l = lowered_chars(href);
    if ends_with(&l, &to_chars(".jpg")) || ends_with(&l, &to_chars(".jpeg")) {
        "image/jpeg"
    } else if ends_with(&l, &to_chars(".png")) {
        "image/png"
    } else if ends_with(&l, &to_chars(".webp")) {
        "image/webp"
    } else if ends_with(&l, &to_chars(".gif")) {
        "image/gif"
    } else if ends_with(&l, &to_chars(".svg")) {
        "image/svg+xml"
    } else {
        "image/png"
    }
}

pub open spec fn ext_of_media_type(mime: Option<Seq<char>>) -> Seq<char> {
    match mime {
        Some(m) => if m == "image/jpeg"@ {
            "jpg"@
        } else if m == "image/png"@ {
            "png"@
        } else if m == "image/webp"@ {
            "webp"@
        } else if m == "image/gif"@ {
            "gif"@
        } else if m == "image/svg+xml"@ {
            "svg"@
        } else {
            "png"@
        },
        None => "png"@,
    }
}

/// File extension for a media type (PNG when unknown or absent).
pub fn ext_from_media_type(mime: Option<&str>) -> (r: &'static str)
    ensures
        r@ == ext_of_media_type(
            match mime {
                Some(m) => Some(m@),
                None => None,
            },
        ),
{
    match mime {
        Some(m) => {
            let v = to_chars(m);
            if crate::text::chars_eq(&v, &to_chars("image/jpeg")) {
                "jpg"
            } else if crate::text::chars_eq(&v, &to_chars("image/png")) {
                "png"
            } else if crate::text::chars_eq(&v, &to_chars("image/webp")) {
                "webp"
            } else if crate::text::chars_eq(&v, &to_chars("image/gif")) {
                "gif"
            } else if crate::text::chars_eq(&v, &to_chars("image/svg+xml")) {
                "svg"
            } else {
                "png"
            }
        },
        None => "png",
    }
}

/// File extension for a cached image of the given media type (PNG when
/// unknown or absent).
pub fn media_type_to_ext(mime: Option<&str>) -> (r: &'static str)
    ensures
        r@ == ext_of_media_type(
            match mime {
                Some(m) => Some(m@),
                None => None,
            },
        ),
{
    ext_from_media_type(mime)
}

/// File extension of the media type guessed from an href.
pub fn ext_from_href(href: &str) -> (r: &'static str)
    ensures
        r@ == ext_of_media_type(Some(media_type_of(href@))),
{
    ext_from_media_type(Some(media_type_from_href(href)))
}

pub open spec fn image_suffixes() -> Seq<Seq<char>> {
    seq![".jpg"@, ".jpeg"@, ".png"@, ".webp"@, ".gif"@, ".svg"@]
}

pub open spec fn is_image(href: Seq<char>) -> bool {
    exists|k: int| 0 <= k < image_suffixes().len() && has_suffix(lowered(href), #[trigger] image_suffixes()[k])
}

/// Whether an href names an image file (by extension).
pub fn is_image_href(href: &str) -> (b: bool)
    ensures
        b == is_image(href@),
{
    let l = lowered_chars(href);
    let items: [&str; 6] = [".jpg", ".jpeg", ".png", ".webp", ".gif", ".svg"];
    let sufs = lit_list(&items);
    proof {
        lemma_lit_list_views(sufs@, items@);
        assert(lit_views(items@) =~= image_suffixes());
    }
    let mut i: usize = 0;
    while i < sufs.len()
        invariant
            i <= sufs.len(),
            views(sufs@) == image_suffixes(),
            l@ == lowered(href@),
            forall|k: int| 0 <= k < i ==> !has_suffix(l@, #[trigger] image_suffixes()[k]),
        decreases sufs.len() - i,
    {
        assert(views(sufs@)[i as int] == sufs@[i as int]@);
        if ends_with(&l, &sufs[i]) {
            return true;
        }
        i = i + 1;
    }
    false
}

/// Archive path used to look an href up: normalized, without leading slashes.
pub open spec fn entry_path(path: Seq<char>) -> Seq<char> {
    skip_slashes(normalized(path))
}

/// The bytes of an archive entry, or `None` when it is missing, unreadable or empty.
pub open spec fn zip_entry_content(data: Seq<u8>, path: Seq<char>) -> Option<Seq<u8>> {
    match entry_bytes(data, entry_path(path)) {
        Some(b) => if b.len() == 0 {
            None
        } else {
            Some(b)
        },
        None => None,
    }
}

/// Reads an archive entry by (normalized) path; an empty entry reads as `None`.
pub fn read_zip_entry(archive: &mut EpubArchive, path: &str) -> (r: Option<Vec<u8>>)
    ensures
        archive_data(*final(archive)) == archive_data(*old(archive)),
        match r {
            Some(b) => zip_entry_content(archive_data(*old(archive)), path@) == Some(b@),
            None => zip_entry_content(archive_data(*old(archive)), path@) is None,
        },
{
    let pv = to_chars(path);
    let p = from_chars(&skip_slashes_chars(&normalize_chars(&pv)));
    match read_entry_bytes(archive, p.as_str()) {
        Some(buf) => if buf.len() == 0 {
            None
        } else {
            Some(buf)
        },
        None => None,
    }
}

} // verus!
