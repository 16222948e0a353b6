//! The recent-books list and the library index, with the updates the reader
//! makes to them.
//!
//! A reading fraction is kept as two integers (`read` chapters of `total`);
//! the application turns it into a percentage where it needs one.

use vstd::prelude::*;

use crate::domain::{BookFormat, FileHealth, ReadingStatsSnapshot, opt_str_view};

verus! {

/// `read` parts of `total`; no progress when `total` is zero.
#[derive(Clone, Copy, Debug, PartialEq, Eq, Structural)]
pub struct ReadFraction {
    pub read: usize,
    pub total: usize,
}

/// An entry of the recently opened books.
#[derive(Debug)]
pub struct RecentBookItem {
    pub book_id: String,
    pub title: String,
    pub author: Option<String>,
    pub source_path: String,
    pub format: String,
    pub last_opened_at: String,
    pub last_progress: ReadFraction,
    pub cover_cached: bool,
    pub is_missing: bool,
}

/// A book of the library.
#[derive(Debug)]
pub struct LibraryItem {
    pub book_id: String,
    pub title: String,
    pub author: Option<String>,
    pub format: BookFormat,
    pub source_path: String,
    pub cover_cache_key: Option<String>,
    pub progress: ReadFraction,
    pub last_opened_at: Option<String>,
    pub imported_at: String,
    pub chapter_count: usize,
    pub file_health: FileHealth,
    pub stats: ReadingStatsSnapshot,
}

/// The library: its items and the last selected book.
#[derive(Debug)]
pub struct LibraryIndex {
    pub version: u32,
    pub items: Vec<LibraryItem>,
    pub last_selected_book_id: Option<String>,
}

impl Default for LibraryIndex {
    fn default() -> (r: LibraryIndex)
        ensures
            r.version == 1,
            r.items@.len() == 0,
            r.last_selected_book_id is None,
    {
        LibraryIndex { version: 1, items: Vec::new(), last_selected_book_id: None }
    }
}

// ---------------------------------------------------------------------------
// Views
// ---------------------------------------------------------------------------

#[verifier::ext_equal]
pub struct RecentView {
    pub book_id: Seq<char>,
    pub title: Seq<char>,
    pub author: Option<Seq<char>>,
    pub source_path: Seq<char>,
    pub format: Seq<char>,
    pub last_opened_at: Seq<char>,
    pub last_progress: ReadFraction,
    pub cover_cached: bool,
    pub is_missing: bool,
}

#[verifier::ext_equal]
pub struct StatsView {
    pub total_read_seconds: u64,
    pub last_read_at: Option<Seq<char>>,
    pub bookmark_count: usize,
    pub last_chapter_index: Option<usize>,
}

#[verifier::ext_equal]
pub struct ItemView {
    pub book_id: Seq<char>,
    pub title: Seq<char>,
    pub author: Option<Seq<char>>,
    pub format: BookFormat,
    pub source_path: Seq<char>,
    pub cover_cache_key: Option<Seq<char>>,
    pub progress: ReadFraction,
    pub last_opened_at: Option<Seq<char>>,
    pub imported_at: Seq<char>,
    pub chapter_count: usize,
    pub file_health: FileHealth,
    pub stats: StatsView,
}

#[verifier::ext_equal]
pub struct IndexView {
    pub version: u32,
    pub items: Seq<ItemView>,
    pub last_selected: Option<Seq<char>>,
}

pub open spec fn recent_view(r: RecentBookItem) -> RecentView {
    RecentView {
        book_id: r.book_id@,
        title: r.title@,
        author: opt_str_view(r.author),
        source_path: r.source_path@,
        format: r.format@,
        last_opened_at: r.last_opened_at@,
        last_progress: r.last_progress,
        cover_cached: r.cover_cached,
        is_missing: r.is_missing,
    }
}

pub open spec fn recent_views(v: Seq<RecentBookItem>) -> Seq<RecentView> {
    v.map_values(|r: RecentBookItem| recent_view(r))
}

pub open spec fn stats_view(s: ReadingStatsSnapshot) -> StatsView {
    StatsView {
        total_read_seconds: s.total_read_seconds,
        last_read_at: opt_str_view(s.last_read_at),
        bookmark_count: s.bookmark_count,
        last_chapter_index: s.last_chapter_index,
    }
}

pub open spec fn item_view(i: LibraryItem) -> ItemView {
    ItemView {
        book_id: i.book_id@,
        title: i.title@,
        author: opt_str_view(i.author),
        format: i.format,
        source_path: i.source_path@,
        cover_cache_key: opt_str_view(i.cover_cache_key),
        progress: i.progress,
        last_opened_at: opt_str_view(i.last_opened_at),
        imported_at: i.imported_at@,
        chapter_count: i.chapter_count,
        file_health: i.file_health,
        stats: stats_view(i.stats),
    }
}

pub open spec fn item_views(v: Seq<LibraryItem>) -> Seq<ItemView> {
    v.map_values(|i: LibraryItem| item_view(i))
}

pub open spec fn index_view(x: LibraryIndex) -> IndexView {
    IndexView {
        version: x.version,
        items: item_views(x.items@),
        last_selected: opt_str_view(x.last_selected_book_id),
    }
}

// ---------------------------------------------------------------------------
// Recent books
// ---------------------------------------------------------------------------

/// Most recent books kept.
pub open spec fn recent_limit() -> nat {
    20
}

/// The first `n` entries without those of book `id`.
pub open spec fn recent_without(s: Seq<RecentView>, id: Seq<char>, n: int) -> Seq<RecentView>
    decreases n,
{
    if n <= 0 {
        seq![]
    } else if s[n - 1].book_id == id {
        recent_without(s, id, n - 1)
    } else {
        recent_without(s, id, n - 1).push(s[n - 1])
    }
}

/// The first `n` entries whose file is not missing.
pub open spec fn recent_present(s: Seq<RecentView>, n: int) -> Seq<RecentView>
    decreases n,
{
    if n <= 0 {
        seq![]
    } else if s[n - 1].is_missing {
        recent_present(s, n - 1)
    } else {
        recent_present(s, n - 1).push(s[n - 1])
    }
}

/// The list after opening a book: its entry first, no older entry of the
/// same book, at most `recent_limit()` entries.
pub open spec fn recent_after_open(s: Seq<RecentView>, item: RecentView) -> Seq<RecentView> {
    let all = seq![item] + recent_without(s, item.book_id, s.len() as int);
    if all.len() > recent_limit() {
        all.take(recent_limit() as int)
    } else {
        all
    }
}

/// Position of the first entry of book `id`.
pub open spec fn first_recent(s: Seq<RecentView>, id: Seq<char>, n: int) -> Option<int>
    decreases n,
{
    if n <= 0 {
        None
    } else {
        match first_recent(s, id, n - 1) {
            Some(k) => Some(k),
            None => if s[n - 1].book_id == id {
                Some(n - 1)
            } else {
                None
            },
        }
    }
}

proof fn lemma_first_recent_stays(s: Seq<RecentView>, id: Seq<char>, n: int, m: int)
    requires
        0 <= n <= m,
        first_recent(s, id, n) is Some,
    ensures
        first_recent(s, id, m) == first_recent(s, id, n),
    decreases m - n,
{
    if m > n {
        lemma_first_recent_stays(s, id, n, m - 1);
    }
}

/// Position of the first recent entry of book `id`.
pub fn find_recent(recent: &Vec<RecentBookItem>, id: &String) -> (r: Option<usize>)
    ensures
        match r {
            Some(k) => k < recent@.len() && first_recent(
                recent_views(recent@),
                id@,
                recent@.len() as int,
            ) == Some(k as int),
            None => first_recent(recent_views(recent@), id@, recent@.len() as int) is None,
        },
{
    let ghost v = recent_views(recent@);
    let mut i: usize = 0;
    while i < recent.len()
        invariant
            i <= recent@.len(),
            v == recent_views(recent@),
            first_recent(v, id@, i as int) is None,
        decreases recent.len() - i,
    {
        if recent[i].book_id == *id {
            proof {
                lemma_first_recent_stays(v, id@, i + 1, recent@.len() as int);
            }
            return Some(i);
        }
        i = i + 1;
    }
    None
}

/// Removes the entries of book `id`, keeping the order of the others.
pub fn remove_recent(recent: &mut Vec<RecentBookItem>, id: &String)
    ensures
        recent_views(final(recent)@) == recent_without(
            recent_views(old(recent)@),
            id@,
            old(recent)@.len() as int,
        ),
{
    let ghost orig = recent_views(recent@);
    let mut rest: Vec<RecentBookItem> = Vec::new();
    std::mem::swap(&mut rest, recent);
    let ghost all = rest@;
    let total = rest.len();
    let mut k: usize = 0;
    while rest.len() > 0
        invariant
            orig == recent_views(all),
            total == all.len(),
            k + rest@.len() == all.len(),
            rest@ == all.skip(k as int),
            recent_views(recent@) == recent_without(orig, id@, k as int),
        decreases rest.len(),
    {
        let r = rest.remove(0);
        assert(recent_view(r) == orig[k as int]);
        let ghost before = recent@;
        if !(r.book_id == *id) {
            recent.push(r);
            assert(recent_views(recent@) =~= recent_views(before).push(orig[k as int]));
        }
        assert(rest@ =~= all.skip(k + 1));
        k = k + 1;
    }
}

/// Removes the entries whose file is missing, keeping the order of the others.
pub fn remove_missing_recent(recent: &mut Vec<RecentBookItem>)
    ensures
        recent_views(final(recent)@) == recent_present(
            recent_views(old(recent)@),
            old(recent)@.len() as int,
        ),
{
    let ghost orig = recent_views(recent@);
    let mut rest: Vec<RecentBookItem> = Vec::new();
    std::mem::swap(&mut rest, recent);
    let ghost all = rest@;
    let total = rest.len();
    let mut k: usize = 0;
    while rest.len() > 0
        invariant
            orig == recent_views(all),
            total == all.len(),
            k + rest@.len() == all.len(),
            rest@ == all.skip(k as int),
            recent_views(recent@) == recent_present(orig, k as int),
        decreases rest.len(),
    {
        let r = rest.remove(0);
        assert(recent_view(r) == orig[k as int]);
        let ghost before = recent@;
        if !r.is_missing {
            recent.push(r);
            assert(recent_views(recent@) =~= recent_views(before).push(orig[k as int]));
        }
        assert(rest@ =~= all.skip(k + 1));
        k = k + 1;
    }
}

/// Puts the entry of a just opened book first, drops older entries of the
/// same book and keeps at most `recent_limit()` entries.
pub fn remember_recent(recent: &mut Vec<RecentBookItem>, item: RecentBookItem)
    ensures
        recent_views(final(recent)@) == recent_after_open(
            recent_views(old(recent)@),
            recent_view(item),
        ),
{
    let ghost iv = recent_view(item);
    remove_recent(recent, &item.book_id);
    let ghost rest = recent_views(recent@);
    let mut out: Vec<RecentBookItem> = Vec::new();
    out.push(item);
    let mut others: Vec<RecentBookItem> = Vec::new();
    std::mem::swap(&mut others, recent);
    let ghost all = others@;
    assert(rest.len() == all.len());
    let total = others.len();
    let mut k: usize = 0;
    while others.len() > 0 && out.len() < 20
        invariant
            rest == recent_views(all),
            total == all.len(),
            k + others@.len() == all.len(),
            others@ == all.skip(k as int),
            out@.len() == k + 1,
            out@.len() <= 20,
            rest.len() == all.len(),
            recent_views(out@) == seq![iv] + rest.take(k as int),
        decreases others.len(),
    {
        let r = others.remove(0);
        assert(recent_view(r) == rest[k as int]);
        let ghost before = out@;
        out.push(r);
        assert(recent_views(out@) =~= recent_views(before).push(rest[k as int]));
        assert(rest.take(k + 1) =~= rest.take(k as int).push(rest[k as int]));
        assert(others@ =~= all.skip(k + 1));
        k = k + 1;
    }
    proof {
        let full = seq![iv] + rest;
        if full.len() > 20 {
            assert(out@.len() == 20);
            assert(recent_views(out@) =~= full.take(20));
        } else {
            assert(k == rest.len());
            assert(rest.take(k as int) =~= rest);
        }
    }
    *recent = out;
}

// ---------------------------------------------------------------------------
// Library index
// ---------------------------------------------------------------------------

/// Position of the first item of book `id`.
pub open spec fn first_item(s: Seq<ItemView>, id: Seq<char>, n: int) -> Option<int>
    decreases n,
{
    if n <= 0 {
        None
    } else {
        match first_item(s, id, n - 1) {
            Some(k) => Some(k),
            None => if s[n - 1].book_id == id {
                Some(n - 1)
            } else {
                None
            },
        }
    }
}

proof fn lemma_first_item_stays(s: Seq<ItemView>, id: Seq<char>, n: int, m: int)
    requires
        0 <= n <= m,
        first_item(s, id, n) is Some,
    ensures
        first_item(s, id, m) == first_item(s, id, n),
    decreases m - n,
{
    if m > n {
        lemma_first_item_stays(s, id, n, m - 1);
    }
}

proof fn lemma_first_item_bound(s: Seq<ItemView>, id: Seq<char>, n: int)
    requires
        0 <= n <= s.len(),
    ensures
        first_item(s, id, n) matches Some(k) ==> 0 <= k < n && s[k].book_id == id,
    decreases n,
{
    if n > 0 {
        lemma_first_item_bound(s, id, n - 1);
    }
}

/// The first `n` items without those of book `id`.
pub open spec fn items_without(s: Seq<ItemView>, id: Seq<char>, n: int) -> Seq<ItemView>
    decreases n,
{
    if n <= 0 {
        seq![]
    } else if s[n - 1].book_id == id {
        items_without(s, id, n - 1)
    } else {
        items_without(s, id, n - 1).push(s[n - 1])
    }
}

/// The health a file check gives.
pub open spec fn health_of(exists: bool) -> FileHealth {
    if exists {
        FileHealth::Healthy
    } else {
        FileHealth::Missing
    }
}

/// An imported item replaces the first item of the same book, or is added
/// last; it becomes the last selected book.
pub open spec fn index_upsert(x: IndexView, it: ItemView) -> IndexView {
    IndexView {
        items: match first_item(x.items, it.book_id, x.items.len() as int) {
            Some(k) => x.items.update(k, it),
            None => x.items.push(it),
        },
        last_selected: Some(it.book_id),
        ..x
    }
}

/// Removing a book: its items go, and it is no longer the last selected.
pub open spec fn index_remove(x: IndexView, id: Seq<char>) -> IndexView {
    IndexView {
        items: items_without(x.items, id, x.items.len() as int),
        last_selected: if x.last_selected == Some(id) {
            None
        } else {
            x.last_selected
        },
        ..x
    }
}

/// The first item of book `id` changed by `f`, if there is one.
pub open spec fn index_change(
    x: IndexView,
    id: Seq<char>,
    f: spec_fn(ItemView) -> ItemView,
) -> IndexView {
    match first_item(x.items, id, x.items.len() as int) {
        Some(k) => IndexView { items: x.items.update(k, f(x.items[k])), ..x },
        None => x,
    }
}

/// A file check of book `id`: its first item's health follows the check.
pub open spec fn index_refresh(x: IndexView, id: Seq<char>, exists: bool) -> IndexView {
    index_change(x, id, |it: ItemView| ItemView { file_health: health_of(exists), ..it })
}

/// A moved file: the first item of book `id` takes the new path and the
/// health of its check.
pub open spec fn index_repair(
    x: IndexView,
    id: Seq<char>,
    path: Seq<char>,
    exists: bool,
) -> IndexView {
    index_change(
        x,
        id,
        |it: ItemView| ItemView { source_path: path, file_health: health_of(exists), ..it },
    )
}

/// A check of every item: item `i` takes the health of check `i`; items
/// beyond the checks stay as they are.
pub open spec fn index_rescan(x: IndexView, exists: Seq<bool>) -> IndexView {
    IndexView {
        items: Seq::new(
            x.items.len(),
            |i: int|
                if i < exists.len() {
                    ItemView { file_health: health_of(exists[i]), ..x.items[i] }
                } else {
                    x.items[i]
                },
        ),
        ..x
    }
}

/// Position of the first item of book `id`.
pub fn find_item(items: &Vec<LibraryItem>, id: &String) -> (r: Option<usize>)
    ensures
        match r {
            Some(k) => k < items@.len() && first_item(item_views(items@), id@, items@.len() as int)
                == Some(k as int),
            None => first_item(item_views(items@), id@, items@.len() as int) is None,
        },
{
    let ghost v = item_views(items@);
    let mut i: usize = 0;
    while i < items.len()
        invariant
            i <= items@.len(),
            v == item_views(items@),
            first_item(v, id@, i as int) is None,
        decreases items.len() - i,
    {
        if items[i].book_id == *id {
            proof {
                lemma_first_item_stays(v, id@, i + 1, items@.len() as int);
            }
            return Some(i);
        }
        i = i + 1;
    }
    None
}

fn health_exec(exists: bool) -> (h: FileHealth)
    ensures
        h == health_of(exists),
{
    if exists {
        FileHealth::Healthy
    } else {
        FileHealth::Missing
    }
}

/// Adds an imported item, or replaces the first item of the same book.
pub fn upsert_item(index: &mut LibraryIndex, item: LibraryItem)
    ensures
        index_view(*final(index)) == index_upsert(index_view(*old(index)), item_view(item)),
{
    let ghost x = index_view(*index);
    let ghost iv = item_view(item);
    let id = item.book_id.clone();
    match find_item(&index.items, &id) {
        Some(k) => {
            index.items.set(k, item);
            assert(item_views(index.items@) =~= x.items.update(k as int, iv));
        },
        None => {
            index.items.push(item);
            assert(item_views(index.items@) =~= x.items.push(iv));
        },
    }
    index.last_selected_book_id = Some(id);
    assert(index_view(*index) =~= index_upsert(x, iv));
}

/// Removes the items of book `id`; it is no longer the last selected.
pub fn remove_item(index: &mut LibraryIndex, id: &String)
    ensures
        index_view(*final(index)) == index_remove(index_view(*old(index)), id@),
{
    let ghost x = index_view(*index);
    let mut rest: Vec<LibraryItem> = Vec::new();
    std::mem::swap(&mut rest, &mut index.items);
    let ghost all = rest@;
    let total = rest.len();
    let mut k: usize = 0;
    while rest.len() > 0
        invariant
            x.items == item_views(all),
            total == all.len(),
            k + rest@.len() == all.len(),
            rest@ == all.skip(k as int),
            item_views(index.items@) == items_without(x.items, id@, k as int),
            index.version == x.version,
            opt_str_view(index.last_selected_book_id) == x.last_selected,
        decreases rest.len(),
    {
        let it = rest.remove(0);
        assert(item_view(it) == x.items[k as int]);
        let ghost before = index.items@;
        if !(it.book_id == *id) {
            index.items.push(it);
            assert(item_views(index.items@) =~= item_views(before).push(x.items[k as int]));
        }
        assert(rest@ =~= all.skip(k + 1));
        k = k + 1;
    }
    let clear = match &index.last_selected_book_id {
        Some(s) => *s == *id,
        None => false,
    };
    if clear {
        index.last_selected_book_id = None;
    }
    assert(index_view(*index) =~= index_remove(x, id@));
}

/// Sets the health of the first item of book `id`, and its path when one
/// is given.
fn change_item(index: &mut LibraryIndex, id: &String, path: Option<String>, exists: bool)
    ensures
        index_view(*final(index)) == match path {
            Some(p) => index_repair(index_view(*old(index)), id@, p@, exists),
            None => index_refresh(index_view(*old(index)), id@, exists),
        },
{
    let ghost x = index_view(*index);
    match find_item(&index.items, id) {
        Some(k) => {
            let mut it = index.items.remove(k);
            let ghost iv = item_view(it);
            proof {
                assert(iv == x.items[k as int]);
            }
            it.file_health = health_exec(exists);
            match path {
                Some(p) => {
                    it.source_path = p;
                },
                None => {},
            }
            let ghost nv = item_view(it);
            index.items.insert(k, it);
            assert(item_views(index.items@) =~= x.items.update(k as int, nv));
        },
        None => {},
    }
    assert(index_view(*index) =~= match path {
        Some(p) => index_repair(x, id@, p@, exists),
        None => index_refresh(x, id@, exists),
    });
}

/// A file check of book `id`.
pub fn refresh_item(index: &mut LibraryIndex, id: &String, exists: bool)
    ensures
        index_view(*final(index)) == index_refresh(index_view(*old(index)), id@, exists),
{
    change_item(index, id, None, exists);
}

/// A new path for book `id`, with its file check.
pub fn repair_item(index: &mut LibraryIndex, id: &String, new_path: String, exists: bool)
    ensures
        index_view(*final(index)) == index_repair(
            index_view(*old(index)),
            id@,
            new_path@,
            exists,
        ),
{
    change_item(index, id, Some(new_path), exists);
}

/// A check of every item's file, in item order.
pub fn rescan_items(index: &mut LibraryIndex, exists: &Vec<bool>)
    ensures
        index_view(*final(index)) == index_rescan(index_view(*old(index)), exists@),
{
    let ghost x = index_view(*index);
    let ghost target = index_rescan(x, exists@);
    let mut i: usize = 0;
    while i < index.items.len()
        invariant
            i <= index.items@.len(),
            index.items@.len() == x.items.len(),
            target.items.len() == x.items.len(),
            target == index_rescan(x, exists@),
            index.version == x.version,
            opt_str_view(index.last_selected_book_id) == x.last_selected,
            forall|j: int| 0 <= j < i ==> #[trigger] item_views(index.items@)[j] == target.items[j],
            forall|j: int| i <= j < x.items.len() ==> #[trigger] item_views(index.items@)[j] == x.items[j],
        decreases index.items.len() - i,
    {
        if i < exists.len() {
            let ghost before = index.items@;
            assert(item_views(before)[i as int] == x.items[i as int]);
            let mut it = index.items.remove(i);
            it.file_health = health_exec(exists[i]);
            let ghost nv = it;
            index.items.insert(i, it);
            assert(index.items@ =~= before.update(i as int, nv));
            assert(item_views(index.items@) =~= item_views(before).update(i as int, item_view(nv)));
            assert(target.items[i as int] =~= item_view(nv));
        } else {
            assert(target.items[i as int] == x.items[i as int]);
        }
        i = i + 1;
    }
    assert(item_views(index.items@) =~= target.items);
    assert(index_view(*index) =~= target);
}

// ---------------------------------------------------------------------------
// Laws
// ---------------------------------------------------------------------------

/// Entries of a book other than `id`.
pub open spec fn not_recent_of(id: Seq<char>) -> spec_fn(RecentView) -> bool {
    |r: RecentView| r.book_id != id
}

/// Entries whose file is there.
pub open spec fn present_recent() -> spec_fn(RecentView) -> bool {
    |r: RecentView| !r.is_missing
}

/// Items of a book other than `id`.
pub open spec fn not_item_of(id: Seq<char>) -> spec_fn(ItemView) -> bool {
    |it: ItemView| it.book_id != id
}

/// Removing the entries of a book keeps exactly the entries of other books,
/// in their order.
pub proof fn law_remove_recent_keeps_others(s: Seq<RecentView>, id: Seq<char>)
    ensures
        recent_without(s, id, s.len() as int) == s.filter(not_recent_of(id)),
{
    lemma_recent_without_filter(s, id, s.len() as int);
    assert(s.take(s.len() as int) =~= s);
}

proof fn lemma_recent_without_filter(s: Seq<RecentView>, id: Seq<char>, n: int)
    requires
        0 <= n <= s.len(),
    ensures
        recent_without(s, id, n) == s.take(n).filter(not_recent_of(id)),
    decreases n,
{
    if n > 0 {
        lemma_recent_without_filter(s, id, n - 1);
        reveal(Seq::filter);
        assert(s.take(n).drop_last() =~= s.take(n - 1));
        assert(s.take(n).last() == s[n - 1]);
    } else {
        assert(s.take(0) =~= Seq::<RecentView>::empty());
    }
}

/// Clearing missing entries keeps exactly the entries whose file is there,
/// in their order.
pub proof fn law_clear_missing_keeps_present(s: Seq<RecentView>)
    ensures
        recent_present(s, s.len() as int) == s.filter(present_recent()),
{
    lemma_recent_present_filter(s, s.len() as int);
    assert(s.take(s.len() as int) =~= s);
}

proof fn lemma_recent_present_filter(s: Seq<RecentView>, n: int)
    requires
        0 <= n <= s.len(),
    ensures
        recent_present(s, n) == s.take(n).filter(present_recent()),
    decreases n,
{
    if n > 0 {
        lemma_recent_present_filter(s, n - 1);
        reveal(Seq::filter);
        assert(s.take(n).drop_last() =~= s.take(n - 1));
        assert(s.take(n).last() == s[n - 1]);
    } else {
        assert(s.take(0) =~= Seq::<RecentView>::empty());
    }
}

/// Removing a book from the library keeps exactly the items of other books,
/// in their order.
pub proof fn law_remove_item_keeps_others(x: IndexView, id: Seq<char>)
    ensures
        index_remove(x, id).items == x.items.filter(not_item_of(id)),
{
    lemma_items_without_filter(x.items, id, x.items.len() as int);
    assert(x.items.take(x.items.len() as int) =~= x.items);
}

proof fn lemma_items_without_filter(s: Seq<ItemView>, id: Seq<char>, n: int)
    requires
        0 <= n <= s.len(),
    ensures
        items_without(s, id, n) == s.take(n).filter(not_item_of(id)),
    decreases n,
{
    if n > 0 {
        lemma_items_without_filter(s, id, n - 1);
        reveal(Seq::filter);
        assert(s.take(n).drop_last() =~= s.take(n - 1));
        assert(s.take(n).last() == s[n - 1]);
    } else {
        assert(s.take(0) =~= Seq::<ItemView>::empty());
    }
}

} // verus!
