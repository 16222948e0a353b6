//! The reader's controller: the decisions taken around input and output.
//!
//! Each step takes the state and an event (a user action, or the answer to
//! input/output the application performed) and gives the next state and the
//! input/output to perform now. The application runs the loop: it performs
//! the named work on the state it holds and hands the answers back as
//! events. Reading, parsing and storing files, checking that a path exists,
//! and the clock stay with the application.

use vstd::prelude::*;

use crate::book_loader::{file_stem_exec, file_stem_of, loaded_format};
use crate::domain::{AppError, Book, BookFormat, Bookmark, ReadingStatsSnapshot, opt_str_view};
use crate::library::item_views;
use crate::library::{
    IndexView, ItemView, LibraryIndex, LibraryItem, ReadFraction, StatsView, find_item,
    first_item, health_of, index_change, index_upsert, index_view, item_view, upsert_item,
};
use crate::parser_base::ParseResult;
use crate::reducer::{
    CoreAction, CoreState, CoreView, ProgressView, ReadingProgress, UiView, bookmark_view,
    core_step, progress_view, reduce, search_submitted,
};
use crate::text::{ends_with, from_chars, to_chars};
use crate::xml::clone_opt_string;

verus! {

// ---------------------------------------------------------------------------
// State, events, work
// ---------------------------------------------------------------------------

/// The controller's state: the reading state, and the total reading time
/// the open book had when its session started.
#[derive(Debug)]
pub struct ControllerState {
    pub core: CoreState,
    pub total_read_seconds_at_session_start: u64,
}

/// What the controller is told.
#[derive(Debug)]
pub enum ControllerEvent {
    /// A user action on the reading state.
    Act(CoreAction),
    /// The user picked a file to open.
    OpenBookSelected(String),
    /// The answer to `check_open`: the path, and whether its file exists.
    OpenIfExists(String, bool),
    /// The answer to `load_book`: the loaded book or the error, the stored
    /// progress and bookmarks of the book, and whether its file exists.
    BookLoaded(Result<Book, AppError>, Option<ReadingProgress>, Vec<Bookmark>, bool),
    /// The answer to `save_progress`: seconds read in this session.
    ProgressSaved(u64),
    /// The answer to `finish_close`: the book's data is stored.
    CloseSaved,
    /// The answer to `load_library`: the stored library index.
    LibraryLoaded(LibraryIndex),
    /// A file picked for import was parsed: its path, its book id, the parse
    /// result, and whether the file exists.
    ImportParsed(String, String, Result<ParseResult, AppError>, bool),
}

/// The input/output the application is to perform now, on the state as the
/// step leaves it.
#[derive(Debug)]
pub struct ControllerAction {
    /// Read and parse this file, then answer `BookLoaded`.
    pub load_book: Option<String>,
    /// Check that this file exists, then answer `OpenIfExists`.
    pub check_open: Option<String>,
    /// Store the reading progress of the open book, then answer `ProgressSaved`.
    pub save_progress: bool,
    /// Store the bookmarks of the open book.
    pub save_bookmarks: bool,
    /// Store the recent-books list.
    pub save_recent: bool,
    /// Store the library index.
    pub save_library: bool,
    /// Store the reader settings.
    pub save_settings: bool,
    /// Read the stored library index, then answer `LibraryLoaded`.
    pub load_library: bool,
    /// Delete the stored progress, bookmarks and cached files of this book.
    pub delete_book_data: Option<String>,
    /// After the stores above, answer `CloseSaved`.
    pub finish_close: bool,
}

#[verifier::ext_equal]
pub struct ControllerView {
    pub core: CoreView,
    pub total_at_start: u64,
}

#[verifier::ext_equal]
pub struct ActionView {
    pub load_book: Option<Seq<char>>,
    pub check_open: Option<Seq<char>>,
    pub save_progress: bool,
    pub save_bookmarks: bool,
    pub save_recent: bool,
    pub save_library: bool,
    pub save_settings: bool,
    pub load_library: bool,
    pub delete_book_data: Option<Seq<char>>,
    pub finish_close: bool,
}

impl View for ControllerState {
    type V = ControllerView;

    open spec fn view(&self) -> ControllerView {
        ControllerView { core: self.core@, total_at_start: self.total_read_seconds_at_session_start }
    }
}

impl View for ControllerAction {
    type V = ActionView;

    open spec fn view(&self) -> ActionView {
        ActionView {
            load_book: opt_str_view(self.load_book),
            check_open: opt_str_view(self.check_open),
            save_progress: self.save_progress,
            save_bookmarks: self.save_bookmarks,
            save_recent: self.save_recent,
            save_library: self.save_library,
            save_settings: self.save_settings,
            load_library: self.load_library,
            delete_book_data: opt_str_view(self.delete_book_data),
            finish_close: self.finish_close,
        }
    }
}

// ---------------------------------------------------------------------------
// Model of a step
// ---------------------------------------------------------------------------

/// No input/output.
pub open spec fn no_io() -> ActionView {
    ActionView {
        load_book: None,
        check_open: None,
        save_progress: false,
        save_bookmarks: false,
        save_recent: false,
        save_library: false,
        save_settings: false,
        load_library: false,
        delete_book_data: None,
        finish_close: false,
    }
}

pub open spec fn with_core(s: ControllerView, c: CoreView) -> ControllerView {
    ControllerView { core: c, ..s }
}

/// The first library item of book `id`, with its statistics changed by `f`.
pub open spec fn change_stats(x: IndexView, id: Seq<char>, f: spec_fn(StatsView) -> StatsView) -> IndexView {
    index_change(x, id, |it: ItemView| ItemView { stats: f(it.stats), ..it })
}

/// Starting to open a file: the loading screen shows the path.
pub open spec fn open_selected(s: ControllerView, path: Seq<char>, now: Seq<char>) -> (ControllerView, ActionView) {
    let c = s.core;
    (
        with_core(
            s,
            CoreView {
                status_message: "正在打开文件: "@ + path,
                status_set_at: Some(now),
                last_error: None,
                ui: UiView {
                    is_loading: true,
                    screen: crate::domain::ScreenKind::LoadingBook,
                    pending_open_path: Some(path),
                    last_attempted_path: Some(path),
                    ..c.ui
                },
                ..c
            },
        ),
        ActionView { load_book: Some(path), ..no_io() },
    )
}

/// The progress fraction of a library item: chapters up to the current one
/// of all chapters.
pub open spec fn read_fraction(p: Option<ProgressView>, total: nat) -> ReadFraction {
    match p {
        Some(q) => ReadFraction {
            read: if q.chapter_index + 1 <= total {
                (q.chapter_index + 1) as usize
            } else {
                total as usize
            },
            total: total as usize,
        },
        None => ReadFraction { read: 0, total: total as usize },
    }
}

/// The library item of an opened book: updated when the library has one,
/// added otherwise.
pub open spec fn opened_item(c: CoreView, b: Book, now: Seq<char>, exists: bool) -> IndexView {
    let x = c.index;
    let ci = match c.progress {
        Some(p) => Some(p.chapter_index),
        None => None,
    };
    let frac = read_fraction(c.progress, b.chapters@.len());
    match first_item(x.items, b.id@, x.items.len() as int) {
        Some(k) => IndexView {
            items: x.items.update(
                k,
                ItemView {
                    title: b.metadata.title@,
                    author: opt_str_view(b.metadata.author),
                    format: b.format,
                    source_path: b.source_path@,
                    chapter_count: b.chapters@.len() as usize,
                    progress: frac,
                    last_opened_at: Some(now),
                    file_health: health_of(exists),
                    stats: StatsView { last_read_at: Some(now), last_chapter_index: ci, ..x.items[k].stats },
                    ..x.items[k]
                },
            ),
            ..x
        },
        None => IndexView {
            items: x.items.push(
                ItemView {
                    book_id: b.id@,
                    title: b.metadata.title@,
                    author: opt_str_view(b.metadata.author),
                    format: b.format,
                    source_path: b.source_path@,
                    cover_cache_key: None,
                    progress: frac,
                    last_opened_at: Some(now),
                    imported_at: now,
                    chapter_count: b.chapters@.len() as usize,
                    file_health: health_of(exists),
                    stats: StatsView {
                        total_read_seconds: 0,
                        last_read_at: Some(now),
                        bookmark_count: 0,
                        last_chapter_index: ci,
                    },
                },
            ),
            ..x
        },
    }
}

/// After a book opened: its stored progress and bookmarks come back, and
/// its library item records the opening.
pub open spec fn after_open(
    s: ControllerView,
    b: Book,
    saved: Option<ReadingProgress>,
    marks: Seq<Bookmark>,
    exists: bool,
    now: Seq<char>,
) -> ControllerView {
    let c0 = s.core;
    let s1 = match saved {
        Some(p) => ControllerView {
            core: CoreView { progress: Some(progress_view(p)), ..c0 },
            total_at_start: p.total_read_seconds,
        },
        None => if b.chapters@.len() > 0 && (c0.status_message.len() == 0 || c0.status_set_at is None) {
            with_core(
                s,
                CoreView {
                    status_message: "上次阅读进度无法恢复，已从开头开始阅读"@,
                    status_set_at: Some(now),
                    ..c0
                },
            )
        } else {
            s
        },
    };
    let c1 = s1.core;
    let c2 = if marks.len() > 0 {
        CoreView { bookmarks: marks.map_values(|m: Bookmark| bookmark_view(m)), ..c1 }
    } else {
        c1
    };
    with_core(s1, CoreView { index: opened_item(c2, b, now, exists), ..c2 })
}

/// The library item of an imported file.
pub open spec fn imported_item(
    path: Seq<char>,
    id: Seq<char>,
    r: ParseResult,
    now: Seq<char>,
    exists: bool,
) -> ItemView {
    let n = r.content@.len();
    ItemView {
        book_id: id,
        title: match r.metadata {
            Some(m) => m.title@,
            None => if file_stem_of(path).len() > 0 {
                file_stem_of(path)
            } else {
                "未命名书籍"@
            },
        },
        author: match r.metadata {
            Some(m) => opt_str_view(m.author),
            None => None,
        },
        format: loaded_format(path),
        source_path: path,
        cover_cache_key: None,
        progress: ReadFraction {
            read: if n > 0 {
                1
            } else {
                0
            },
            total: n as usize,
        },
        last_opened_at: None,
        imported_at: now,
        chapter_count: n as usize,
        file_health: health_of(exists),
        stats: StatsView {
            total_read_seconds: 0,
            last_read_at: None,
            bookmark_count: 0,
            last_chapter_index: None,
        },
    }
}

/// An imported item keeps the import time of the item it replaces.
pub open spec fn keep_import_time(x: IndexView, it: ItemView) -> ItemView {
    match first_item(x.items, it.book_id, x.items.len() as int) {
        Some(k) => ItemView { imported_at: x.items[k].imported_at, ..it },
        None => it,
    }
}

/// The id of the open book.
pub open spec fn open_id(c: CoreView) -> Option<Seq<char>> {
    match c.book {
        Some(b) => Some(b.id@),
        None => None,
    }
}

/// A user action: the reading state changes as `core_step` says, and the
/// stores the action calls for are named.
pub open spec fn act_next(s: ControllerView, a: CoreAction, now: Seq<char>, now_ms: nat) -> (ControllerView, ActionView) {
    let c = s.core;
    match a {
        CoreAction::CloseBook => (
            s,
            ActionView { save_progress: true, save_bookmarks: true, finish_close: true, ..no_io() },
        ),
        CoreAction::OpenLibraryHome => (s, ActionView { load_library: true, ..no_io() }),
        CoreAction::RecentBookSelected(_) => {
            let t = core_step(c, a, now, now_ms);
            (
                with_core(s, CoreView { ui: UiView { pending_open_path: None, ..t.ui }, ..t }),
                ActionView { check_open: t.ui.pending_open_path, ..no_io() },
            )
        },
        CoreAction::LibraryBookSelected(id) => {
            let t = core_step(c, a, now, now_ms);
            let u = match first_item(t.index.items, id@, t.index.items.len() as int) {
                Some(k) => CoreView {
                    ui: UiView {
                        loading_book_title: Some(t.index.items[k].title),
                        loading_book_author: t.index.items[k].author,
                        loading_book_cover_key: t.index.items[k].cover_cache_key,
                        ..t.ui
                    },
                    ..t
                },
                None => t,
            };
            (
                with_core(s, CoreView { ui: UiView { pending_open_path: None, ..u.ui }, ..u }),
                ActionView { check_open: t.ui.pending_open_path, ..no_io() },
            )
        },
        CoreAction::GoToChapter(_) | CoreAction::NextChapter | CoreAction::PrevChapter
        | CoreAction::JumpToBookmark(_) => (
            with_core(s, core_step(c, a, now, now_ms)),
            ActionView { save_progress: true, ..no_io() },
        ),
        CoreAction::AddBookmarkRequested | CoreAction::RemoveBookmark(_) => {
            let t = core_step(c, a, now, now_ms);
            let n = t.bookmarks.len() as usize;
            let u = match open_id(t) {
                Some(id) => CoreView {
                    index: change_stats(t.index, id, |st: StatsView| StatsView { bookmark_count: n, ..st }),
                    ..t
                },
                None => t,
            };
            (with_core(s, u), ActionView { save_bookmarks: true, ..no_io() })
        },
        CoreAction::RemoveRecentBook(_) | CoreAction::ClearMissingRecentBooks => (
            with_core(s, core_step(c, a, now, now_ms)),
            ActionView { save_recent: true, ..no_io() },
        ),
        CoreAction::RemoveFromLibrary(id) => (
            with_core(s, core_step(c, a, now, now_ms)),
            ActionView { save_library: true, delete_book_data: Some(id@), ..no_io() },
        ),
        CoreAction::RefreshLibraryItem(_, _) | CoreAction::RescanMissingBooks(_)
        | CoreAction::RepairLibraryPath { .. } => (
            with_core(s, core_step(c, a, now, now_ms)),
            ActionView { save_library: true, ..no_io() },
        ),
        CoreAction::ThemeChanged(_) => (
            with_core(s, core_step(c, a, now, now_ms)),
            ActionView { save_settings: true, ..no_io() },
        ),
        _ => (with_core(s, core_step(c, a, now, now_ms)), no_io()),
    }
}

/// The next state and the input/output to perform. A submitted search is
/// stated apart, by `search_submitted`.
pub open spec fn controller_next(
    s: ControllerView,
    e: ControllerEvent,
    now: Seq<char>,
    now_ms: nat,
) -> (ControllerView, ActionView) {
    let c = s.core;
    match e {
        ControllerEvent::Act(a) => act_next(s, a, now, now_ms),
        ControllerEvent::OpenBookSelected(path) => open_selected(s, path@, now),
        ControllerEvent::OpenIfExists(path, exists) => if exists {
            open_selected(s, path@, now)
        } else {
            (s, no_io())
        },
        ControllerEvent::BookLoaded(r, saved, marks, exists) => match r {
            Err(err) => (with_core(s, core_step(c, CoreAction::OpenBookFailed(err), now, now_ms)), no_io()),
            Ok(b) => {
                let t = with_core(s, core_step(c, CoreAction::OpenBookSucceeded(b), now, now_ms));
                (
                    after_open(t, b, saved, marks@, exists, now),
                    ActionView { save_library: true, save_recent: true, ..no_io() },
                )
            },
        },
        ControllerEvent::ProgressSaved(elapsed) => match (open_id(c), c.progress) {
            (Some(id), Some(p)) => {
                let total: u64 = if s.total_at_start + elapsed > u64::MAX {
                    u64::MAX
                } else {
                    (s.total_at_start + elapsed) as u64
                };
                (
                    with_core(
                        s,
                        CoreView {
                            index: change_stats(
                                c.index,
                                id,
                                |st: StatsView| StatsView {
                                    total_read_seconds: total,
                                    last_chapter_index: Some(p.chapter_index),
                                    last_read_at: Some(now),
                                    ..st
                                },
                            ),
                            ..c
                        },
                    ),
                    no_io(),
                )
            },
            _ => (s, no_io()),
        },
        ControllerEvent::CloseSaved => match c.book {
            Some(b) => {
                let frac = read_fraction(c.progress, b.chapters@.len());
                let t = core_step(c, CoreAction::CloseBook, now, now_ms);
                (
                    with_core(
                        s,
                        CoreView {
                            index: index_change(t.index, b.id@, |it: ItemView| ItemView { progress: frac, ..it }),
                            ..t
                        },
                    ),
                    ActionView { save_library: true, ..no_io() },
                )
            },
            None => (with_core(s, core_step(c, CoreAction::CloseBook, now, now_ms)), no_io()),
        },
        ControllerEvent::LibraryLoaded(ix) => (
            with_core(s, core_step(CoreView { index: index_view(ix), ..c }, CoreAction::OpenLibraryHome, now, now_ms)),
            no_io(),
        ),
        ControllerEvent::ImportParsed(path, id, r, exists) => match r {
            Err(_) => (s, no_io()),
            Ok(p) => {
                let it = keep_import_time(c.index, imported_item(path@, id@, p, now, exists));
                (
                    with_core(s, CoreView { index: index_upsert(c.index, it), ..c }),
                    ActionView { save_library: true, ..no_io() },
                )
            },
        },
    }
}

// ---------------------------------------------------------------------------
// Steps
// ---------------------------------------------------------------------------

fn no_io_exec() -> (r: ControllerAction)
    ensures
        r@ == no_io(),
{
    ControllerAction {
        load_book: None,
        check_open: None,
        save_progress: false,
        save_bookmarks: false,
        save_recent: false,
        save_library: false,
        save_settings: false,
        load_library: false,
        delete_book_data: None,
        finish_close: false,
    }
}

/// Takes item `k` out of the library, leaving the others in order.
fn take_item(index: &mut LibraryIndex, k: usize) -> (it: LibraryItem)
    requires
        k < old(index).items@.len(),
    ensures
        it == old(index).items@[k as int],
        final(index).items@ == old(index).items@.remove(k as int),
        final(index).version == old(index).version,
        final(index).last_selected_book_id == old(index).last_selected_book_id,
{
    index.items.remove(k)
}

/// Puts an item back at position `k`.
fn put_item(index: &mut LibraryIndex, k: usize, it: LibraryItem)
    requires
        k <= old(index).items@.len(),
    ensures
        final(index).items@ == old(index).items@.insert(k as int, it),
        final(index).version == old(index).version,
        final(index).last_selected_book_id == old(index).last_selected_book_id,
{
    index.items.insert(k, it);
}

proof fn lemma_take_put(x: Seq<LibraryItem>, k: int, it: LibraryItem)
    requires
        0 <= k < x.len(),
    ensures
        crate::library::item_views(x.remove(k).insert(k, it)) == crate::library::item_views(x).update(
            k,
            item_view(it),
        ),
{
    assert(x.remove(k).insert(k, it) =~= x.update(k, it));
    assert(crate::library::item_views(x.update(k, it)) =~= crate::library::item_views(x).update(
        k,
        item_view(it),
    ));
}

/// The bookmark count of the open book's library item follows its bookmarks.
fn sync_bookmark_count(state: &mut ControllerState)
    ensures
        ({
            let t = old(state)@.core;
            let n = t.bookmarks.len() as usize;
            final(state)@ == with_core(
                old(state)@,
                match open_id(t) {
                    Some(id) => CoreView {
                        index: change_stats(
                            t.index,
                            id,
                            |st: StatsView| StatsView { bookmark_count: n, ..st },
                        ),
                        ..t
                    },
                    None => t,
                },
            )
        }),
{
    let ghost s0 = state@;
    let n = state.core.bookmarks.len();
    let id = match &state.core.current_book {
        Some(b) => b.id.clone(),
        None => {
            return;
        },
    };
    match find_item(&state.core.library_index.items, &id) {
        Some(k) => {
            let ghost items0 = state.core.library_index.items@;
            let mut it = take_item(&mut state.core.library_index, k);
            it.stats.bookmark_count = n;
            let ghost nv = it;
            put_item(&mut state.core.library_index, k, it);
            proof {
                lemma_take_put(items0, k as int, nv);
                assert(item_view(nv) =~= ItemView {
                    stats: StatsView { bookmark_count: n, ..item_view(items0[k as int]).stats },
                    ..item_view(items0[k as int])
                });
            }
        },
        None => {},
    }
    assert(state@ =~= with_core(
        s0,
        match open_id(s0.core) {
            Some(id) => CoreView {
                index: change_stats(
                    s0.core.index,
                    id,
                    |st: StatsView| StatsView { bookmark_count: n, ..st },
                ),
                ..s0.core
            },
            None => s0.core,
        },
    ));
}

fn open_selected_exec(state: &mut ControllerState, path: String, now: &str) -> (r: ControllerAction)
    ensures
        (final(state)@, r@) == open_selected(old(state)@, path@, now@),
{
    let ghost s0 = state@;
    let mut m = to_chars("正在打开文件: ");
    let pv = to_chars(path.as_str());
    crate::text::extend_chars(&mut m, &pv);
    state.core.status_message = from_chars(&m);
    state.core.status_message_set_at = Some(now.to_owned());
    state.core.last_error = None;
    state.core.ui_state.is_loading = true;
    state.core.ui_state.screen = crate::domain::ScreenKind::LoadingBook;
    state.core.ui_state.pending_open_path = Some(path.clone());
    state.core.ui_state.last_attempted_path = Some(path.clone());
    let mut r = no_io_exec();
    r.load_book = Some(path);
    assert(state@ =~= open_selected(s0, path@, now@).0);
    assert(r@ =~= open_selected(s0, path@, now@).1);
    r
}

/// A user action other than a submitted search.
fn act_exec(state: &mut ControllerState, a: CoreAction, now: &str, now_ms: usize) -> (r: ControllerAction)
    requires
        !(a is SearchSubmitted),
    ensures
        (final(state)@, r@) == act_next(old(state)@, a, now@, now_ms as nat),
{
    let ghost s0 = state@;
    let ghost a0 = a;
    let mut r = no_io_exec();
    match a {
        CoreAction::CloseBook => {
            r.save_progress = true;
            r.save_bookmarks = true;
            r.finish_close = true;
        },
        CoreAction::OpenLibraryHome => {
            r.load_library = true;
        },
        CoreAction::RecentBookSelected(id) => {
            reduce(&mut state.core, CoreAction::RecentBookSelected(id), now, now_ms);
            r.check_open = state.core.ui_state.pending_open_path.take();
        },
        CoreAction::LibraryBookSelected(id) => {
            let id2 = id.clone();
            reduce(&mut state.core, CoreAction::LibraryBookSelected(id), now, now_ms);
            match find_item(&state.core.library_index.items, &id2) {
                Some(k) => {
                    let title = state.core.library_index.items[k].title.clone();
                    let author = clone_opt_string(&state.core.library_index.items[k].author);
                    let cover = clone_opt_string(&state.core.library_index.items[k].cover_cache_key);
                    state.core.ui_state.loading_book_title = Some(title);
                    state.core.ui_state.loading_book_author = author;
                    state.core.ui_state.loading_book_cover_key = cover;
                },
                None => {},
            }
            r.check_open = state.core.ui_state.pending_open_path.take();
        },
        CoreAction::GoToChapter(_) | CoreAction::NextChapter | CoreAction::PrevChapter
        | CoreAction::JumpToBookmark(_) => {
            reduce(&mut state.core, a, now, now_ms);
            r.save_progress = true;
        },
        CoreAction::AddBookmarkRequested | CoreAction::RemoveBookmark(_) => {
            reduce(&mut state.core, a, now, now_ms);
            sync_bookmark_count(state);
            r.save_bookmarks = true;
        },
        CoreAction::RemoveRecentBook(_) | CoreAction::ClearMissingRecentBooks => {
            reduce(&mut state.core, a, now, now_ms);
            r.save_recent = true;
        },
        CoreAction::RemoveFromLibrary(id) => {
            let id2 = id.clone();
            reduce(&mut state.core, CoreAction::RemoveFromLibrary(id), now, now_ms);
            r.save_library = true;
            r.delete_book_data = Some(id2);
        },
        CoreAction::RefreshLibraryItem(_, _) | CoreAction::RescanMissingBooks(_)
        | CoreAction::RepairLibraryPath { .. } => {
            reduce(&mut state.core, a, now, now_ms);
            r.save_library = true;
        },
        CoreAction::ThemeChanged(_) => {
            reduce(&mut state.core, a, now, now_ms);
            r.save_settings = true;
        },
        _ => {
            reduce(&mut state.core, a, now, now_ms);
        },
    }
    assert(state@ =~= act_next(s0, a0, now@, now_ms as nat).0);
    assert(r@ =~= act_next(s0, a0, now@, now_ms as nat).1);
    r
}

/// The library item of the open book records the opening.
fn record_opened_item(state: &mut ControllerState, now: &str, exists: bool)
    requires
        old(state).core.current_book is Some,
    ensures
        final(state)@ == with_core(
            old(state)@,
            CoreView {
                index: opened_item(old(state)@.core, old(state).core.current_book->0, now@, exists),
                ..old(state)@.core
            },
        ),
{
    let ghost s0 = state@;
    let (id, title, author, format, path, n) = match &state.core.current_book {
        Some(b) => (
            b.id.clone(),
            b.metadata.title.clone(),
            clone_opt_string(&b.metadata.author),
            b.format,
            b.source_path.clone(),
            b.chapters.len(),
        ),
        None => {
            return;
        },
    };
    let ci = match &state.core.reading_progress {
        Some(p) => Some(p.chapter_index),
        None => None,
    };
    let frac = match &state.core.reading_progress {
        Some(p) => ReadFraction {
            read: if p.chapter_index < n {
                p.chapter_index + 1
            } else {
                n
            },
            total: n,
        },
        None => ReadFraction { read: 0, total: n },
    };
    let health = if exists {
        crate::domain::FileHealth::Healthy
    } else {
        crate::domain::FileHealth::Missing
    };
    match find_item(&state.core.library_index.items, &id) {
        Some(k) => {
            let ghost items0 = state.core.library_index.items@;
            let mut it = take_item(&mut state.core.library_index, k);
            it.title = title;
            it.author = author;
            it.format = format;
            it.source_path = path;
            it.chapter_count = n;
            it.progress = frac;
            it.last_opened_at = Some(now.to_owned());
            it.file_health = health;
            it.stats.last_read_at = Some(now.to_owned());
            it.stats.last_chapter_index = ci;
            let ghost nv = it;
            put_item(&mut state.core.library_index, k, it);
            proof {
                lemma_take_put(items0, k as int, nv);
            }
        },
        None => {
            let it = LibraryItem {
                book_id: id,
                title,
                author,
                format,
                source_path: path,
                cover_cache_key: None,
                progress: frac,
                last_opened_at: Some(now.to_owned()),
                imported_at: now.to_owned(),
                chapter_count: n,
                file_health: health,
                stats: ReadingStatsSnapshot {
                    total_read_seconds: 0,
                    last_read_at: Some(now.to_owned()),
                    bookmark_count: 0,
                    last_chapter_index: ci,
                },
            };
            let ghost items0 = state.core.library_index.items@;
            state.core.library_index.items.push(it);
            assert(item_views(state.core.library_index.items@) =~= item_views(items0).push(item_view(it)));
        },
    }
    assert(state@ =~= with_core(
        s0,
        CoreView { index: opened_item(s0.core, s0.core.book->0, now@, exists), ..s0.core },
    ));
}

/// A loaded book: opened in the reading state, with its stored progress and
/// bookmarks, and recorded in the library.
fn book_loaded_exec(
    state: &mut ControllerState,
    b: Book,
    saved: Option<ReadingProgress>,
    marks: Vec<Bookmark>,
    exists: bool,
    now: &str,
    now_ms: usize,
)
    ensures
        final(state)@ == after_open(
            with_core(old(state)@, core_step(old(state)@.core, CoreAction::OpenBookSucceeded(b), now@, now_ms as nat)),
            b,
            saved,
            marks@,
            exists,
            now@,
        ),
{
    let ghost b0 = b;
    let has_chapters = b.chapters.len() > 0;
    reduce(&mut state.core, CoreAction::OpenBookSucceeded(b), now, now_ms);
    let ghost s1 = state@;
    match saved {
        Some(p) => {
            state.total_read_seconds_at_session_start = p.total_read_seconds;
            state.core.reading_progress = Some(p);
        },
        None => {
            if has_chapters && (state.core.status_message.as_str().is_empty()
                || state.core.status_message_set_at.is_none()) {
                state.core.status_message = "上次阅读进度无法恢复，已从开头开始阅读".to_owned();
                state.core.status_message_set_at = Some(now.to_owned());
            }
        },
    }
    let ghost s2 = state@;
    if marks.len() > 0 {
        state.core.bookmarks = marks;
    }
    let ghost s3 = state@;
    proof {
        assert(s2 =~= match saved {
            Some(p) => ControllerView {
                core: CoreView { progress: Some(progress_view(p)), ..s1.core },
                total_at_start: p.total_read_seconds,
            },
            None => if b0.chapters@.len() > 0 && (s1.core.status_message.len() == 0 || s1.core.status_set_at is None) {
                with_core(
                    s1,
                    CoreView {
                        status_message: "上次阅读进度无法恢复，已从开头开始阅读"@,
                        status_set_at: Some(now@),
                        ..s1.core
                    },
                )
            } else {
                s1
            },
        });
        assert(s3.core =~= (if marks@.len() > 0 {
            CoreView { bookmarks: marks@.map_values(|m: Bookmark| bookmark_view(m)), ..s2.core }
        } else {
            s2.core
        }));
        assert(state.core.current_book == Some(b0));
    }
    record_opened_item(state, now, exists);
}

/// The open book's library item takes the session's reading time.
fn progress_saved_exec(state: &mut ControllerState, elapsed: u64, now: &str)
    ensures
        final(state)@ == controller_next(old(state)@, ControllerEvent::ProgressSaved(elapsed), now@, 0).0,
{
    let ghost s0 = state@;
    let id = match &state.core.current_book {
        Some(b) => b.id.clone(),
        None => {
            return;
        },
    };
    let ci = match &state.core.reading_progress {
        Some(p) => p.chapter_index,
        None => {
            return;
        },
    };
    let total = state.total_read_seconds_at_session_start.saturating_add(elapsed);
    match find_item(&state.core.library_index.items, &id) {
        Some(k) => {
            let ghost items0 = state.core.library_index.items@;
            let mut it = take_item(&mut state.core.library_index, k);
            it.stats.total_read_seconds = total;
            it.stats.last_chapter_index = Some(ci);
            it.stats.last_read_at = Some(now.to_owned());
            let ghost nv = it;
            put_item(&mut state.core.library_index, k, it);
            proof {
                lemma_take_put(items0, k as int, nv);
            }
        },
        None => {},
    }
    assert(state@ =~= controller_next(s0, ControllerEvent::ProgressSaved(elapsed), now@, 0).0);
}

/// The book's data is stored: the book closes and its library item keeps
/// the reached progress.
fn close_saved_exec(state: &mut ControllerState, now: &str, now_ms: usize) -> (r: ControllerAction)
    ensures
        (final(state)@, r@) == controller_next(old(state)@, ControllerEvent::CloseSaved, now@, now_ms as nat),
{
    let ghost s0 = state@;
    let info = match &state.core.current_book {
        Some(b) => {
            let n = b.chapters.len();
            let frac = match &state.core.reading_progress {
                Some(p) => ReadFraction {
                    read: if p.chapter_index < n {
                        p.chapter_index + 1
                    } else {
                        n
                    },
                    total: n,
                },
                None => ReadFraction { read: 0, total: n },
            };
            Some((b.id.clone(), frac))
        },
        None => None,
    };
    reduce(&mut state.core, CoreAction::CloseBook, now, now_ms);
    let mut r = no_io_exec();
    match info {
        Some((id, frac)) => {
            match find_item(&state.core.library_index.items, &id) {
                Some(k) => {
                    let ghost items0 = state.core.library_index.items@;
                    let mut it = take_item(&mut state.core.library_index, k);
                    it.progress = frac;
                    let ghost nv = it;
                    put_item(&mut state.core.library_index, k, it);
                    proof {
                        lemma_take_put(items0, k as int, nv);
                    }
                },
                None => {},
            }
            r.save_library = true;
        },
        None => {},
    }
    assert(state@ =~= controller_next(s0, ControllerEvent::CloseSaved, now@, now_ms as nat).0);
    assert(r@ =~= controller_next(s0, ControllerEvent::CloseSaved, now@, now_ms as nat).1);
    r
}

/// The library item of an imported file.
fn imported_item_exec(path: &String, id: String, p: ParseResult, now: &str, exists: bool) -> (it: LibraryItem)
    ensures
        item_view(it) == imported_item(path@, id@, p, now@, exists),
{
    let n = p.content.len();
    let (title, author) = match p.metadata {
        Some(m) => (m.title, m.author),
        None => {
            let stem = file_stem_exec(path.as_str());
            if stem.len() > 0 {
                (from_chars(&stem), None)
            } else {
                ("未命名书籍".to_owned(), None)
            }
        },
    };
    let format = if ends_with(&to_chars(path.as_str()), &to_chars(".epub")) {
        BookFormat::Epub
    } else {
        BookFormat::Txt
    };
    let it = LibraryItem {
        book_id: id,
        title,
        author,
        format,
        source_path: path.clone(),
        cover_cache_key: None,
        progress: ReadFraction {
            read: if n > 0 {
                1
            } else {
                0
            },
            total: n,
        },
        last_opened_at: None,
        imported_at: now.to_owned(),
        chapter_count: n,
        file_health: if exists {
            crate::domain::FileHealth::Healthy
        } else {
            crate::domain::FileHealth::Missing
        },
        stats: ReadingStatsSnapshot {
            total_read_seconds: 0,
            last_read_at: None,
            bookmark_count: 0,
            last_chapter_index: None,
        },
    };
    assert(item_view(it) =~= imported_item(path@, it.book_id@, p, now@, exists));
    it
}

/// Advances the controller by one event and names the input/output to
/// perform now. `now` is the current time in RFC 3339 form and `now_ms` the
/// same instant in milliseconds since the epoch.
pub fn controller_step(
    state: &mut ControllerState,
    event: ControllerEvent,
    now: &str,
    now_ms: usize,
) -> (action: ControllerAction)
    ensures
        !is_search_submit(event) ==> (final(state)@, action@) == controller_next(
            old(state)@,
            event,
            now@,
            now_ms as nat,
        ),
        is_search_submit(event) ==> final(state)@.total_at_start == old(state)@.total_at_start
            && search_submitted(old(state)@.core, final(state)@.core, now@) && action@ == no_io(),
{
    let ghost s0 = state@;
    let ghost e0 = event;
    match event {
        ControllerEvent::Act(a) => {
            if let CoreAction::SearchSubmitted = &a {
                reduce(&mut state.core, a, now, now_ms);
                no_io_exec()
            } else {
                act_exec(state, a, now, now_ms)
            }
        },
        ControllerEvent::OpenBookSelected(path) => open_selected_exec(state, path, now),
        ControllerEvent::OpenIfExists(path, exists) => {
            if exists {
                open_selected_exec(state, path, now)
            } else {
                no_io_exec()
            }
        },
        ControllerEvent::BookLoaded(r, saved, marks, exists) => {
            match r {
                Err(err) => {
                    reduce(&mut state.core, CoreAction::OpenBookFailed(err), now, now_ms);
                    no_io_exec()
                },
                Ok(b) => {
                    book_loaded_exec(state, b, saved, marks, exists, now, now_ms);
                    let mut out = no_io_exec();
                    out.save_library = true;
                    out.save_recent = true;
                    assert(out@ =~= controller_next(s0, e0, now@, now_ms as nat).1);
                    out
                },
            }
        },
        ControllerEvent::ProgressSaved(elapsed) => {
            progress_saved_exec(state, elapsed, now);
            no_io_exec()
        },
        ControllerEvent::CloseSaved => close_saved_exec(state, now, now_ms),
        ControllerEvent::LibraryLoaded(ix) => {
            state.core.library_index = ix;
            reduce(&mut state.core, CoreAction::OpenLibraryHome, now, now_ms);
            no_io_exec()
        },
        ControllerEvent::ImportParsed(path, id, r, exists) => {
            match r {
                Err(_) => no_io_exec(),
                Ok(p) => {
                    let mut it = imported_item_exec(&path, id, p, now, exists);
                    match find_item(&state.core.library_index.items, &it.book_id) {
                        Some(k) => {
                            it.imported_at = state.core.library_index.items[k].imported_at.clone();
                        },
                        None => {},
                    }
                    upsert_item(&mut state.core.library_index, it);
                    let mut out = no_io_exec();
                    out.save_library = true;
                    proof {
                        assert(state@ =~= controller_next(s0, e0, now@, now_ms as nat).0);
                    }
                    assert(out@ =~= controller_next(s0, e0, now@, now_ms as nat).1);
                    out
                },
            }
        },
    }
}

// ---------------------------------------------------------------------------
// Laws
// ---------------------------------------------------------------------------

proof fn lemma_items_without_drops(x: Seq<ItemView>, id: Seq<char>, n: int)
    ensures
        forall|i: int|
            0 <= i < crate::library::items_without(x, id, n).len() ==> (#[trigger] crate::library::items_without(
                x,
                id,
                n,
            )[i]).book_id != id,
    decreases n,
{
    if n > 0 {
        lemma_items_without_drops(x, id, n - 1);
        let prev = crate::library::items_without(x, id, n - 1);
        if x[n - 1].book_id != id {
            assert forall|i: int| 0 <= i < prev.push(x[n - 1]).len() implies (#[trigger] prev.push(
                x[n - 1],
            )[i]).book_id != id by {
                if i < prev.len() {
                    assert(prev.push(x[n - 1])[i] == prev[i]);
                }
            }
        }
    }
}

/// Removing a book from the library drops every item of it, stores the
/// library, and asks for its stored progress, bookmarks and cache to be
/// deleted.
pub proof fn law_remove_from_library_cleans_up(s: ControllerView, id: String, now: Seq<char>, now_ms: nat)
    ensures
        ({
            let r = controller_next(s, ControllerEvent::Act(CoreAction::RemoveFromLibrary(id)), now, now_ms);
            &&& r.1.delete_book_data == Some(id@)
            &&& r.1.save_library
            &&& forall|i: int| 0 <= i < r.0.core.index.items.len() ==> (#[trigger] r.0.core.index.items[i]).book_id != id@
        }),
{
    lemma_items_without_drops(s.core.index.items, id@, s.core.index.items.len() as int);
}

/// Reopening a book restores its stored reading progress and reading time.
pub proof fn law_reopen_restores_progress(
    s: ControllerView,
    b: Book,
    p: ReadingProgress,
    marks: Vec<Bookmark>,
    exists: bool,
    now: Seq<char>,
    now_ms: nat,
)
    ensures
        ({
            let r = controller_next(s, ControllerEvent::BookLoaded(Ok(b), Some(p), marks, exists), now, now_ms);
            &&& r.0.core.book == Some(b)
            &&& r.0.core.progress == Some(progress_view(p))
            &&& r.0.total_at_start == p.total_read_seconds
        }),
{
}

/// The event is a submitted search.
pub open spec fn is_search_submit(e: ControllerEvent) -> bool {
    e matches ControllerEvent::Act(CoreAction::SearchSubmitted)
}

} // verus!
