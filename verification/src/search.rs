//! Full-text search over the paragraphs of an open book.
//!
//! A hit is the first occurrence of the keyword in a paragraph, found on the
//! UTF-8 bytes of the paragraph text (lowercased first when the search
//! ignores case). Its snippet is cut from the paragraph text as written, about
//! twenty bytes on either side of the match, widened to character boundaries.

use vstd::prelude::*;
use vstd::string::StringSliceAdditionalSpecFns;
use vstd::utf8::encode_utf8;

use crate::domain::{Book, Chapter, ChapterBlock, Paragraph, SearchQuery, SearchScope};
use crate::text::{
    ceil_boundary, ceil_char_boundary, floor_boundary, floor_char_boundary, to_lower,
    unicode_lower,
};

verus! {

/// A search hit: where in the book the keyword occurs and the text around it.
#[derive(Debug)]
pub struct SearchResult {
    pub book_id: String,
    pub chapter_index: usize,
    pub paragraph_index: usize,
    /// Byte offset of the match in the searched text.
    pub match_start: usize,
    pub match_end: usize,
    pub chapter_title: String,
    pub snippet: String,
}

/// The search panel's state: the query, its results and the selection.
#[derive(Debug)]
pub struct SearchState {
    pub current_query: Option<SearchQuery>,
    pub results: Vec<SearchResult>,
    pub selected_result_index: Option<usize>,
    pub is_searching: bool,
    pub last_search_at: Option<String>,
}

impl Default for SearchState {
    fn default() -> (r: SearchState)
        ensures
            r.current_query is None,
            r.results@.len() == 0,
            r.selected_result_index is None,
            !r.is_searching,
            r.last_search_at is None,
    {
        SearchState {
            current_query: None,
            results: Vec::new(),
            selected_result_index: None,
            is_searching: false,
            last_search_at: None,
        }
    }
}

// ---------------------------------------------------------------------------
// Byte search
// ---------------------------------------------------------------------------

/// `n` occurs in `h` at byte offset `i`.
pub open spec fn bytes_match_at(h: Seq<u8>, n: Seq<u8>, i: int) -> bool {
    &&& 0 <= i
    &&& i + n.len() <= h.len()
    &&& h.subrange(i, i + n.len()) == n
}

/// The first offset at or after `i` where `n` occurs in `h`.
pub open spec fn find_bytes_from(h: Seq<u8>, n: Seq<u8>, i: int) -> Option<int>
    decreases h.len() + 1 - i,
{
    if i < 0 || i + n.len() > h.len() {
        None
    } else if bytes_match_at(h, n, i) {
        Some(i)
    } else {
        find_bytes_from(h, n, i + 1)
    }
}

/// The first offset where `n` occurs in `h` (`str::find` on the bytes).
pub open spec fn find_bytes(h: Seq<u8>, n: Seq<u8>) -> Option<int> {
    find_bytes_from(h, n, 0)
}

pub proof fn lemma_find_bytes_from(h: Seq<u8>, n: Seq<u8>, i: int)
    requires
        0 <= i,
    ensures
        find_bytes_from(h, n, i) matches Some(p) ==> i <= p && bytes_match_at(h, n, p) && forall|
            j: int,
        |
            i <= j < p ==> !bytes_match_at(h, n, j),
        find_bytes_from(h, n, i) is None ==> forall|j: int| i <= j ==> !bytes_match_at(h, n, j),
    decreases h.len() + 1 - i,
{
    if i + n.len() > h.len() {
    } else if bytes_match_at(h, n, i) {
    } else {
        lemma_find_bytes_from(h, n, i + 1);
    }
}

/// Whether `n` occurs in `h` at `i`; the caller keeps the window in bounds.
fn match_bytes_at(h: &[u8], n: &[u8], i: usize) -> (b: bool)
    requires
        i + n@.len() <= h@.len(),
    ensures
        b == bytes_match_at(h@, n@, i as int),
{
    let hl = h.len();
    let mut j: usize = 0;
    while j < n.len()
        invariant
            hl == h@.len(),
            j <= n@.len(),
            i + n@.len() <= h@.len(),
            forall|k: int| 0 <= k < j ==> h@[i + k] == n@[k],
        decreases n.len() - j,
    {
        assert(i + j < h@.len());
        if h[i + j] != n[j] {
            assert(h@.subrange(i as int, i + n@.len())[j as int] != n@[j as int]);
            return false;
        }
        j = j + 1;
    }
    assert(h@.subrange(i as int, i + n@.len()) =~= n@);
    true
}

/// The first byte offset where `n` occurs in `h`.
pub fn search_bytes(h: &[u8], n: &[u8]) -> (r: Option<usize>)
    ensures
        r matches Some(p) ==> find_bytes(h@, n@) == Some(p as int),
        r is None ==> find_bytes(h@, n@) is None,
{
    if n.len() > h.len() {
        return None;
    }
    let last = h.len() - n.len();
    let mut i: usize = 0;
    loop
        invariant
            i <= last,
            last + n@.len() == h@.len(),
            find_bytes(h@, n@) == find_bytes_from(h@, n@, i as int),
        decreases last - i,
    {
        if match_bytes_at(h, n, i) {
            return Some(i);
        }
        if i == last {
            assert(find_bytes_from(h@, n@, i + 1) is None);
            return None;
        }
        i = i + 1;
    }
}

// ---------------------------------------------------------------------------
// Model of a search
// ---------------------------------------------------------------------------

/// The text as it is searched: itself, or its lowercase mapping.
pub open spec fn fold_case(s: Seq<char>, case_sensitive: bool) -> Seq<char> {
    if case_sensitive {
        s
    } else {
        unicode_lower(s)
    }
}

/// The bytes looked for by a query.
pub open spec fn search_key(q: SearchQuery) -> Seq<u8> {
    encode_utf8(fold_case(q.keyword@, q.case_sensitive))
}

/// Where a paragraph text matches the key, as a byte offset into the
/// searched form of the text.
pub open spec fn hit_in(text: Seq<char>, key: Seq<u8>, case_sensitive: bool) -> Option<int> {
    find_bytes(encode_utf8(fold_case(text, case_sensitive)), key)
}

/// The byte range of the snippet around a match at `pos` of `klen` bytes.
pub open spec fn snippet_range(t: Seq<u8>, pos: int, klen: int) -> (int, int) {
    let start = if pos >= 20 {
        pos - 20
    } else {
        0
    };
    let end = if pos + klen + 20 < t.len() {
        pos + klen + 20
    } else {
        t.len() as int
    };
    (floor_boundary(t, start), ceil_boundary(t, end))
}

/// The paragraph a block carries, if it carries text.
pub open spec fn block_text(b: ChapterBlock) -> Option<Paragraph> {
    match b {
        ChapterBlock::Paragraph(p) => Some(p),
        ChapterBlock::Heading(p) => Some(p),
        ChapterBlock::Quote(p) => Some(p),
        _ => None,
    }
}

/// Hits among the first `n` blocks of a chapter, as pairs of block position
/// and match offset, in block order.
pub open spec fn block_hits(blocks: Seq<ChapterBlock>, n: int, key: Seq<u8>, cs: bool) -> Seq<
    (int, int),
>
    decreases n,
{
    if n <= 0 {
        seq![]
    } else {
        let prev = block_hits(blocks, n - 1, key, cs);
        match block_text(blocks[n - 1]) {
            Some(p) => match hit_in(p.text@, key, cs) {
                Some(pos) => prev.push((n - 1, pos)),
                None => prev,
            },
            None => prev,
        }
    }
}

/// Whether a chapter is searched: all of them, or the current one by index.
pub open spec fn chapter_in_scope(c: Chapter, current: int, all: bool) -> bool {
    all || c.index == current
}

/// Hits among the first `n` chapters, as triples of chapter position, block
/// position and match offset, in book order.
pub open spec fn book_hits(
    chapters: Seq<Chapter>,
    n: int,
    current: int,
    all: bool,
    key: Seq<u8>,
    cs: bool,
) -> Seq<(int, int, int)>
    decreases n,
{
    if n <= 0 {
        seq![]
    } else {
        let prev = book_hits(chapters, n - 1, current, all, key, cs);
        let c = chapters[n - 1];
        if chapter_in_scope(c, current, all) {
            prev + block_hits(c.blocks@, c.blocks@.len() as int, key, cs).map_values(
                |h: (int, int)| (n - 1, h.0, h.1),
            )
        } else {
            prev
        }
    }
}

impl SearchResult {
    /// This result reports a match at `pos` (of `klen` bytes) in paragraph
    /// `p` of chapter `c` of the book `book_id`.
    pub open spec fn reports(
        self,
        book_id: Seq<char>,
        c: Chapter,
        p: Paragraph,
        pos: int,
        klen: int,
    ) -> bool {
        let t = encode_utf8(p.text@);
        let range = snippet_range(t, pos, klen);
        &&& self.book_id@ == book_id
        &&& self.chapter_index == c.index
        &&& self.paragraph_index == p.index
        &&& self.match_start == pos
        &&& self.match_end == pos + klen
        &&& self.chapter_title@ == c.title@
        &&& encode_utf8(self.snippet@) == t.subrange(range.0, range.1)
    }
}

/// The results of a search on a book match its hits one for one.
pub open spec fn results_report(
    r: Seq<SearchResult>,
    b: Book,
    hits: Seq<(int, int, int)>,
    klen: int,
) -> bool {
    &&& r.len() == hits.len()
    &&& forall|k: int|
        0 <= k < hits.len() ==> #[trigger] r[k].reports(
            b.id@,
            b.chapters@[hits[k].0],
            block_text(b.chapters@[hits[k].0].blocks@[hits[k].1])->0,
            hits[k].2,
            klen,
        )
}


// ---------------------------------------------------------------------------
// Laws
// ---------------------------------------------------------------------------

proof fn lemma_floor_boundary_le(t: Seq<u8>, i: int)
    requires
        0 <= i <= t.len(),
    ensures
        0 <= floor_boundary(t, i) <= i,
    decreases i,
{
    if i > 0 && !vstd::utf8::is_char_boundary(t, i) {
        lemma_floor_boundary_le(t, i - 1);
    }
}

proof fn lemma_ceil_boundary_ge(t: Seq<u8>, i: int)
    requires
        0 <= i <= t.len(),
    ensures
        i <= ceil_boundary(t, i) <= t.len(),
    decreases t.len() - i,
{
    if i < t.len() && !vstd::utf8::is_char_boundary(t, i) {
        lemma_ceil_boundary_ge(t, i + 1);
    }
}

/// In a case-sensitive search, the snippet of a paragraph's hit contains the
/// keyword itself, at the match.
pub proof fn law_snippet_shows_keyword(text: Seq<char>, key: Seq<u8>)
    requires
        hit_in(text, key, true) is Some,
    ensures
        ({
            let t = encode_utf8(text);
            let pos = hit_in(text, key, true)->0;
            let range = snippet_range(t, pos, key.len() as int);
            &&& range.0 <= pos
            &&& pos + key.len() <= range.1
            &&& t.subrange(range.0, range.1).subrange(pos - range.0, pos - range.0 + key.len())
                == key
        }),
{
    let t = encode_utf8(text);
    lemma_find_bytes_from(t, key, 0);
    let pos = hit_in(text, key, true)->0;
    let start = if pos >= 20 {
        pos - 20
    } else {
        0
    };
    let end = if pos + key.len() + 20 < t.len() {
        pos + key.len() + 20
    } else {
        t.len() as int
    };
    lemma_floor_boundary_le(t, start);
    lemma_ceil_boundary_ge(t, end);
    let range = snippet_range(t, pos, key.len() as int);
    assert(t.subrange(range.0, range.1).subrange(pos - range.0, pos - range.0 + key.len())
        =~= t.subrange(pos, pos + key.len()));
}

/// A search limited to the current chapter reports only chapters whose index
/// is the current one; every hit names a chapter of the book and a text block
/// of that chapter.
pub proof fn law_hits_within_scope(
    chapters: Seq<Chapter>,
    n: int,
    current: int,
    all: bool,
    key: Seq<u8>,
    cs: bool,
)
    requires
        0 <= n <= chapters.len(),
    ensures
        forall|k: int|
            #![trigger book_hits(chapters, n, current, all, key, cs)[k]]
            0 <= k < book_hits(chapters, n, current, all, key, cs).len() ==> {
                let h = book_hits(chapters, n, current, all, key, cs)[k];
                &&& 0 <= h.0 < n
                &&& chapter_in_scope(chapters[h.0], current, all)
                &&& 0 <= h.1 < chapters[h.0].blocks@.len()
                &&& block_text(chapters[h.0].blocks@[h.1]) is Some
            },
    decreases n,
{
    if n > 0 {
        law_hits_within_scope(chapters, n - 1, current, all, key, cs);
        let c = chapters[n - 1];
        lemma_block_hits_are_text(c.blocks@, c.blocks@.len() as int, key, cs);
    }
}

proof fn lemma_block_hits_are_text(blocks: Seq<ChapterBlock>, n: int, key: Seq<u8>, cs: bool)
    requires
        0 <= n <= blocks.len(),
    ensures
        forall|k: int|
            #![trigger block_hits(blocks, n, key, cs)[k]]
            0 <= k < block_hits(blocks, n, key, cs).len() ==> {
                let h = block_hits(blocks, n, key, cs)[k];
                0 <= h.0 < n && block_text(blocks[h.0]) is Some
            },
    decreases n,
{
    if n > 0 {
        lemma_block_hits_are_text(blocks, n - 1, key, cs);
    }
}

// ---------------------------------------------------------------------------
// Search
// ---------------------------------------------------------------------------

/// The text of a block, if it carries a paragraph.
fn block_paragraph(b: &ChapterBlock) -> (r: Option<&Paragraph>)
    ensures
        r matches Some(p) ==> block_text(*b) == Some(*p),
        r is None ==> block_text(*b) is None,
{
    match b {
        ChapterBlock::Paragraph(p) => Some(p),
        ChapterBlock::Heading(p) => Some(p),
        ChapterBlock::Quote(p) => Some(p),
        _ => None,
    }
}

/// Copies the bytes `lo..hi` of `t` into a new string; both ends are
/// character boundaries.
fn cut_snippet(t: &str, lo: usize, hi: usize) -> (s: String)
    requires
        lo <= hi <= t.spec_bytes().len(),
        vstd::utf8::is_char_boundary(t.spec_bytes(), lo as int),
        vstd::utf8::is_char_boundary(t.spec_bytes(), hi as int),
    ensures
        encode_utf8(s@) == t.spec_bytes().subrange(lo as int, hi as int),
{
    let ghost tb = t.spec_bytes();
    proof {
        vstd::utf8::encode_utf8_valid_utf8(t@);
    }
    let (_, rest) = t.split_at(lo);
    let ghost rb = rest.spec_bytes();
    proof {
        vstd::utf8::encode_utf8_valid_utf8(rest@);
        vstd::utf8::is_char_boundary_start_end_of_seq(rb);
        assert(rb.len() == tb.len() - lo);
        if hi < tb.len() {
            vstd::utf8::is_char_boundary_iff_not_is_continuation_byte(tb, hi as int);
            vstd::utf8::is_char_boundary_iff_not_is_continuation_byte(rb, (hi - lo) as int);
            assert(rb[(hi - lo) as int] == tb[hi as int]);
        } else {
            assert(hi - lo == rb.len());
        }
    }
    let (mid, _) = rest.split_at(hi - lo);
    proof {
        assert(mid.spec_bytes() =~= tb.subrange(lo as int, hi as int));
    }
    mid.to_owned()
}

/// The hits of one paragraph of chapter `c`, appended to `out`.
fn search_paragraph(
    book_id: &String,
    c: &Chapter,
    p: &Paragraph,
    key: &[u8],
    case_sensitive: bool,
    out: &mut Vec<SearchResult>,
) -> (found: Option<usize>)
    ensures
        found matches Some(pos) ==> hit_in(p.text@, key@, case_sensitive) == Some(pos as int),
        found is None ==> hit_in(p.text@, key@, case_sensitive) is None,
        found is None ==> final(out)@ == old(out)@,
        found matches Some(pos) ==> {
            &&& final(out)@.len() == old(out)@.len() + 1
            &&& final(out)@.drop_last() == old(out)@
            &&& final(out)@.last().reports(book_id@, *c, *p, pos as int, key@.len() as int)
        },
{
    let lowered = if case_sensitive {
        String::new()
    } else {
        to_lower(p.text.as_str())
    };
    let hay: &[u8] = if case_sensitive {
        p.text.as_str().as_bytes()
    } else {
        lowered.as_str().as_bytes()
    };
    assert(hay@ == encode_utf8(fold_case(p.text@, case_sensitive)));
    let hay_len = hay.len();
    let hit = search_bytes(hay, key);
    match hit {
        None => None,
        Some(pos) => {
            proof {
                lemma_find_bytes_from(hay@, key@, 0);
            }
            let t = p.text.as_str();
            let klen = key.len();
            let start = if pos >= 20 {
                pos - 20
            } else {
                0
            };
            let lo = floor_char_boundary(t, start);
            let end_hint = (pos + klen).saturating_add(20);
            let tlen = t.as_bytes().len();
            let end = if end_hint < tlen {
                end_hint
            } else {
                tlen
            };
            let hi = ceil_char_boundary(t, end);
            let snippet = cut_snippet(t, lo, hi);
            let ghost before = out@;
            out.push(
                SearchResult {
                    book_id: book_id.clone(),
                    chapter_index: c.index,
                    paragraph_index: p.index,
                    match_start: pos,
                    match_end: pos + klen,
                    chapter_title: c.title.clone(),
                    snippet,
                },
            );
            assert(out@.drop_last() =~= before);
            Some(pos)
        },
    }
}

/// Searches `book` for `query`: the entire book, or only the chapters whose
/// index is `current_chapter`. Without a book there is nothing to find.
pub fn execute_search(book: Option<&Book>, current_chapter: usize, query: &SearchQuery) -> (r: Vec<
    SearchResult,
>)
    ensures
        book is None ==> r@.len() == 0,
        book matches Some(b) ==> results_report(
            r@,
            *b,
            book_hits(
                b.chapters@,
                b.chapters@.len() as int,
                current_chapter as int,
                query.scope == SearchScope::EntireBook,
                search_key(*query),
                query.case_sensitive,
            ),
            search_key(*query).len() as int,
        ),
{
    let b = match book {
        Some(b) => b,
        None => return Vec::new(),
    };
    let cs = query.case_sensitive;
    let all = match query.scope {
        SearchScope::EntireBook => true,
        SearchScope::CurrentChapter => false,
    };
    let lowered_keyword = if cs {
        String::new()
    } else {
        to_lower(query.keyword.as_str())
    };
    let key: &[u8] = if cs {
        query.keyword.as_str().as_bytes()
    } else {
        lowered_keyword.as_str().as_bytes()
    };
    let ghost klen = key@.len() as int;
    assert(key@ == search_key(*query));
    let mut results: Vec<SearchResult> = Vec::new();
    let mut ci: usize = 0;
    while ci < b.chapters.len()
        invariant
            ci <= b.chapters@.len(),
            key@ == search_key(*query),
            klen == key@.len(),
            cs == query.case_sensitive,
            all == (query.scope == SearchScope::EntireBook),
            results_report(
                results@,
                *b,
                book_hits(b.chapters@, ci as int, current_chapter as int, all, key@, cs),
                klen,
            ),
        decreases b.chapters.len() - ci,
    {
        let c = &b.chapters[ci];
        let ghost prev = book_hits(b.chapters@, ci as int, current_chapter as int, all, key@, cs);
        if all || c.index == current_chapter {
            let mut bi: usize = 0;
            while bi < c.blocks.len()
                invariant
                    ci < b.chapters@.len(),
                    *c == b.chapters@[ci as int],
                    bi <= c.blocks@.len(),
                    klen == key@.len(),
                    prev == book_hits(
                        b.chapters@,
                        ci as int,
                        current_chapter as int,
                        all,
                        key@,
                        cs,
                    ),
                    results_report(
                        results@,
                        *b,
                        prev + block_hits(c.blocks@, bi as int, key@, cs).map_values(
                            |h: (int, int)| (ci as int, h.0, h.1),
                        ),
                        klen,
                    ),
                decreases c.blocks.len() - bi,
            {
                let ghost old_hits = prev + block_hits(c.blocks@, bi as int, key@, cs).map_values(
                    |h: (int, int)| (ci as int, h.0, h.1),
                );
                match block_paragraph(&c.blocks[bi]) {
                    Some(p) => {
                        let found = search_paragraph(&b.id, c, p, key, cs, &mut results);
                        proof {
                            let new_hits = prev + block_hits(
                                c.blocks@,
                                bi + 1,
                                key@,
                                cs,
                            ).map_values(|h: (int, int)| (ci as int, h.0, h.1));
                            match found {
                                Some(pos) => {
                                    assert(new_hits =~= old_hits.push((ci as int, bi as int, pos as int)));
                                    assert forall|k: int| 0 <= k < new_hits.len() implies #[trigger] results@[k].reports(
                                        b.id@,
                                        b.chapters@[new_hits[k].0],
                                        block_text(b.chapters@[new_hits[k].0].blocks@[new_hits[k].1])->0,
                                        new_hits[k].2,
                                        klen,
                                    ) by {
                                        if k < old_hits.len() {
                                            assert(results@[k] == results@.drop_last()[k]);
                                        }
                                    }
                                },
                                None => {
                                    assert(new_hits =~= old_hits);
                                },
                            }
                        }
                    },
                    None => {
                        proof {
                            let new_hits = prev + block_hits(
                                c.blocks@,
                                bi + 1,
                                key@,
                                cs,
                            ).map_values(|h: (int, int)| (ci as int, h.0, h.1));
                            assert(new_hits =~= old_hits);
                        }
                    },
                }
                bi = bi + 1;
            }
        }
        proof {
            let next = book_hits(b.chapters@, ci + 1, current_chapter as int, all, key@, cs);
            if all || c.index == current_chapter {
                assert(c.blocks@.len() as int == b.chapters@[ci as int].blocks@.len());
            } else {
                assert(next == prev);
            }
        }
        ci = ci + 1;
    }
    results
}

} // verus!
