//! The reader's state machine: what each user action does to the reading
//! state (opening and closing books, chapter navigation, bookmarks, search,
//! status line, panels, the recent-books list and the library index).
//!
//! The state holds no floating-point values: progress fractions, scroll
//! offsets and typographic settings are kept by the application around it.
//! The clock is read by the caller and handed in as `now` (an RFC 3339 time)
//! and `now_ms` (milliseconds since the epoch).

use vstd::prelude::*;
use vstd::utf8::encode_utf8;

use crate::domain::{
    AppError, Book, BookFormat, Bookmark, Chapter, ChapterBlock, LeftPanelTab, LibraryFilterMode,
    LibrarySortMode, LibraryViewState, ScreenKind, SearchQuery, SearchScope, ThemeKind, UiState,
    opt_str_view,
};
use crate::library::{
    IndexView, LibraryIndex, LibraryItem, ReadFraction, RecentBookItem, RecentView, find_item,
    find_recent, first_item, first_recent, index_refresh, index_remove, index_repair,
    index_rescan, index_upsert, index_view, item_view, recent_after_open, recent_present,
    recent_view, recent_views, recent_without, refresh_item, remember_recent, remove_item,
    remove_missing_recent, remove_recent, repair_item, rescan_items, upsert_item,
};
use crate::book_format::format_label;
use crate::xml::clone_opt_string;
use crate::search::{
    SearchResult, SearchState, block_text, book_hits, execute_search, fold_case, results_report,
};
use crate::text::{decimal, decimal_chars, extend_chars, from_chars, slice_chars, to_chars};

verus! {

// ---------------------------------------------------------------------------
// State
// ---------------------------------------------------------------------------

/// Where the reader is in the open book.
#[derive(Debug)]
pub struct ReadingProgress {
    pub book_id: String,
    pub chapter_index: usize,
    pub paragraph_index: Option<usize>,
    pub last_read_at: String,
    pub session_read_seconds: u64,
    pub total_read_seconds: u64,
}

/// Panel and toolbar switches of the reader window.
#[derive(Clone, Copy, Debug, PartialEq, Eq, Structural)]
pub struct ReaderFlags {
    pub sidebar_collapsed: bool,
    pub show_settings_panel: bool,
    pub show_search_panel: bool,
    pub focused_search_input: bool,
    pub show_floating_toc: bool,
    pub reader_toolbar_visible: bool,
}

/// The reading state an action changes.
#[derive(Debug)]
pub struct CoreState {
    pub current_book: Option<Book>,
    pub reading_progress: Option<ReadingProgress>,
    pub bookmarks: Vec<Bookmark>,
    pub search_state: SearchState,
    pub status_message: String,
    pub status_message_set_at: Option<String>,
    pub last_error: Option<AppError>,
    pub ui_state: UiState,
    pub flags: ReaderFlags,
    pub theme: ThemeKind,
    pub library_view_state: LibraryViewState,
    pub session_started_at: Option<String>,
    pub recent_books: Vec<RecentBookItem>,
    pub library_index: LibraryIndex,
}

/// What the user (or a finished load) asks of the reading state.
#[derive(Debug)]
pub enum CoreAction {
    OpenBookSucceeded(Book),
    OpenBookFailed(AppError),
    CloseBook,
    GoToChapter(usize),
    NextChapter,
    PrevChapter,
    AddBookmarkRequested,
    RemoveBookmark(String),
    JumpToBookmark(String),
    SearchQueryChanged(SearchQuery),
    SearchSubmitted,
    SearchResultSelected(usize),
    ClearSearch,
    ToggleSearchCaseSensitive,
    ToggleSidebar,
    ToggleSettingsPanel,
    ToggleSearchPanel,
    ToggleFloatingToc,
    SetReaderToolbarVisible(bool),
    SwitchLeftPanelTab(LeftPanelTab),
    ThemeChanged(ThemeKind),
    StatusMessageTimedOut,
    DismissError,
    CloseSearchOrSettings,
    OpenLibraryHome,
    LibrarySearchChanged(String),
    LibrarySortChanged(LibrarySortMode),
    LibraryFilterChanged(LibraryFilterMode),
    RecentBookSelected(String),
    RemoveRecentBook(String),
    ClearMissingRecentBooks,
    LibraryBookSelected(String),
    ImportBookSucceeded(LibraryItem),
    RemoveFromLibrary(String),
    /// A file check of one book: whether its file exists.
    RefreshLibraryItem(String, bool),
    /// File checks of every library item, in item order.
    RescanMissingBooks(Vec<bool>),
    RepairLibraryPath { book_id: String, new_path: String, exists: bool },
}

// ---------------------------------------------------------------------------
// Views
// ---------------------------------------------------------------------------

#[verifier::ext_equal]
pub struct ProgressView {
    pub book_id: Seq<char>,
    pub chapter_index: usize,
    pub paragraph_index: Option<usize>,
    pub last_read_at: Seq<char>,
    pub session_read_seconds: u64,
    pub total_read_seconds: u64,
}

#[verifier::ext_equal]
pub struct BookmarkView {
    pub id: Seq<char>,
    pub book_id: Seq<char>,
    pub chapter_index: usize,
    pub paragraph_index: Option<usize>,
    pub title: Seq<char>,
    pub snippet: Seq<char>,
    pub created_at: Seq<char>,
    pub note: Option<Seq<char>>,
}

#[verifier::ext_equal]
pub struct SearchView {
    pub query: Option<(Seq<char>, bool, SearchScope)>,
    pub results: Seq<SearchResult>,
    pub selected_result_index: Option<usize>,
    pub is_searching: bool,
    pub last_search_at: Option<Seq<char>>,
}

#[verifier::ext_equal]
pub struct UiView {
    pub screen: ScreenKind,
    pub left_panel_tab: LeftPanelTab,
    pub is_loading: bool,
    pub pending_open_path: Option<Seq<char>>,
    pub last_attempted_path: Option<Seq<char>>,
    pub loading_book_id: Option<Seq<char>>,
    pub loading_book_title: Option<Seq<char>>,
    pub loading_book_author: Option<Seq<char>>,
    pub loading_book_cover_key: Option<Seq<char>>,
}

#[verifier::ext_equal]
pub struct LibraryView {
    pub search_query: Seq<char>,
    pub sort_mode: LibrarySortMode,
    pub filter_mode: LibraryFilterMode,
    pub selected_book_id: Option<Seq<char>>,
}

/// The reading state as plain values.
#[verifier::ext_equal]
pub struct CoreView {
    pub book: Option<Book>,
    pub progress: Option<ProgressView>,
    pub bookmarks: Seq<BookmarkView>,
    pub search: SearchView,
    pub status_message: Seq<char>,
    pub status_set_at: Option<Seq<char>>,
    pub last_error: Option<AppError>,
    pub ui: UiView,
    pub flags: ReaderFlags,
    pub theme: ThemeKind,
    pub library: LibraryView,
    pub session_started_at: Option<Seq<char>>,
    pub recent: Seq<RecentView>,
    pub index: IndexView,
}

pub open spec fn progress_view(p: ReadingProgress) -> ProgressView {
    ProgressView {
        book_id: p.book_id@,
        chapter_index: p.chapter_index,
        paragraph_index: p.paragraph_index,
        last_read_at: p.last_read_at@,
        session_read_seconds: p.session_read_seconds,
        total_read_seconds: p.total_read_seconds,
    }
}

pub open spec fn bookmark_view(b: Bookmark) -> BookmarkView {
    BookmarkView {
        id: b.id@,
        book_id: b.book_id@,
        chapter_index: b.chapter_index,
        paragraph_index: b.paragraph_index,
        title: b.title@,
        snippet: b.snippet@,
        created_at: b.created_at@,
        note: opt_str_view(b.note),
    }
}

pub open spec fn query_view(q: SearchQuery) -> (Seq<char>, bool, SearchScope) {
    (q.keyword@, q.case_sensitive, q.scope)
}

pub open spec fn search_view(s: SearchState) -> SearchView {
    SearchView {
        query: match s.current_query {
            Some(q) => Some(query_view(q)),
            None => None,
        },
        results: s.results@,
        selected_result_index: s.selected_result_index,
        is_searching: s.is_searching,
        last_search_at: opt_str_view(s.last_search_at),
    }
}

pub open spec fn ui_view(u: UiState) -> UiView {
    UiView {
        screen: u.screen,
        left_panel_tab: u.left_panel_tab,
        is_loading: u.is_loading,
        pending_open_path: opt_str_view(u.pending_open_path),
        last_attempted_path: opt_str_view(u.last_attempted_path),
        loading_book_id: opt_str_view(u.loading_book_id),
        loading_book_title: opt_str_view(u.loading_book_title),
        loading_book_author: opt_str_view(u.loading_book_author),
        loading_book_cover_key: opt_str_view(u.loading_book_cover_key),
    }
}

pub open spec fn library_view(l: LibraryViewState) -> LibraryView {
    LibraryView {
        search_query: l.search_query@,
        sort_mode: l.sort_mode,
        filter_mode: l.filter_mode,
        selected_book_id: opt_str_view(l.selected_book_id),
    }
}

impl View for CoreState {
    type V = CoreView;

    open spec fn view(&self) -> CoreView {
        CoreView {
            book: self.current_book,
            progress: match self.reading_progress {
                Some(p) => Some(progress_view(p)),
                None => None,
            },
            bookmarks: self.bookmarks@.map_values(|b: Bookmark| bookmark_view(b)),
            search: search_view(self.search_state),
            status_message: self.status_message@,
            status_set_at: opt_str_view(self.status_message_set_at),
            last_error: self.last_error,
            ui: ui_view(self.ui_state),
            flags: self.flags,
            theme: self.theme,
            library: library_view(self.library_view_state),
            session_started_at: opt_str_view(self.session_started_at),
            recent: recent_views(self.recent_books@),
            index: index_view(self.library_index),
        }
    }
}

/// The state before any book is opened.
pub open spec fn initial_core() -> CoreView {
    CoreView {
        book: None,
        progress: None,
        bookmarks: seq![],
        search: no_search(),
        status_message: ready_message(),
        status_set_at: None,
        last_error: None,
        ui: UiView {
            screen: ScreenKind::EmptyLibrary,
            left_panel_tab: LeftPanelTab::TableOfContents,
            is_loading: false,
            pending_open_path: None,
            last_attempted_path: None,
            loading_book_id: None,
            loading_book_title: None,
            loading_book_author: None,
            loading_book_cover_key: None,
        },
        flags: ReaderFlags {
            sidebar_collapsed: false,
            show_settings_panel: false,
            show_search_panel: false,
            focused_search_input: false,
            show_floating_toc: false,
            reader_toolbar_visible: false,
        },
        theme: ThemeKind::Light,
        library: LibraryView {
            search_query: seq![],
            sort_mode: LibrarySortMode::LastOpenedDesc,
            filter_mode: LibraryFilterMode::All,
            selected_book_id: None,
        },
        session_started_at: None,
        recent: seq![],
        index: IndexView { version: 1, items: seq![], last_selected: None },
    }
}

impl Default for CoreState {
    fn default() -> (r: CoreState)
        ensures
            r@ == initial_core(),
    {
        let r = CoreState {
            current_book: None,
            reading_progress: None,
            bookmarks: Vec::new(),
            search_state: SearchState::default(),
            status_message: "就绪".to_owned(),
            status_message_set_at: None,
            last_error: None,
            ui_state: UiState::default(),
            flags: ReaderFlags {
                sidebar_collapsed: false,
                show_settings_panel: false,
                show_search_panel: false,
                focused_search_input: false,
                show_floating_toc: false,
                reader_toolbar_visible: false,
            },
            theme: ThemeKind::Light,
            library_view_state: LibraryViewState::default(),
            session_started_at: None,
            recent_books: Vec::new(),
            library_index: LibraryIndex::default(),
        };
        assert(r@ =~= initial_core());
        r
    }
}

// ---------------------------------------------------------------------------
// Transitions
// ---------------------------------------------------------------------------

/// The status line's resting text.
pub open spec fn ready_message() -> Seq<char> {
    "就绪"@
}

pub open spec fn cleared_status(s: CoreView) -> CoreView {
    CoreView { status_message: ready_message(), status_set_at: None, ..s }
}

pub open spec fn with_status(s: CoreView, m: Seq<char>, now: Seq<char>) -> CoreView {
    CoreView { status_message: m, status_set_at: Some(now), ..s }
}

/// The empty search state.
pub open spec fn no_search() -> SearchView {
    SearchView {
        query: None,
        results: seq![],
        selected_result_index: None,
        is_searching: false,
        last_search_at: None,
    }
}

pub open spec fn chapter_count(s: CoreView) -> int {
    match s.book {
        Some(b) => b.chapters@.len() as int,
        None => 0,
    }
}

pub open spec fn current_chapter(s: CoreView) -> usize {
    match s.progress {
        Some(p) => p.chapter_index,
        None => 0,
    }
}

/// Moves to chapter `index`, clamped to the last chapter; nothing happens
/// without chapters. Existing progress keeps its book and reading time and
/// loses its paragraph; without progress, a fresh one starts.
pub open spec fn go_to(s: CoreView, index: usize, now: Seq<char>) -> CoreView {
    let total = chapter_count(s);
    if total == 0 {
        s
    } else {
        let c: usize = if index < total {
            index
        } else {
            (total - 1) as usize
        };
        CoreView {
            progress: Some(
                match s.progress {
                    Some(p) => ProgressView {
                        chapter_index: c,
                        paragraph_index: None,
                        last_read_at: now,
                        ..p
                    },
                    None => ProgressView {
                        book_id: s.book->0.id@,
                        chapter_index: c,
                        paragraph_index: None,
                        last_read_at: now,
                        session_read_seconds: 0,
                        total_read_seconds: 0,
                    },
                },
            ),
            ..s
        }
    }
}

/// Position of the first bookmark with this id.
pub open spec fn find_bookmark(bms: Seq<BookmarkView>, id: Seq<char>, n: int) -> Option<int>
    decreases n,
{
    if n <= 0 {
        None
    } else {
        match find_bookmark(bms, id, n - 1) {
            Some(k) => Some(k),
            None => if bms[n - 1].id == id {
                Some(n - 1)
            } else {
                None
            },
        }
    }
}

/// The first `n` bookmarks without those with this id.
pub open spec fn without_bookmark(bms: Seq<BookmarkView>, id: Seq<char>, n: int) -> Seq<
    BookmarkView,
>
    decreases n,
{
    if n <= 0 {
        seq![]
    } else if bms[n - 1].id == id {
        without_bookmark(bms, id, n - 1)
    } else {
        without_bookmark(bms, id, n - 1).push(bms[n - 1])
    }
}

/// Block positions of a chapter's text paragraphs.
pub open spec fn text_blocks(ch: Chapter) -> Seq<int> {
    Chapter::text_block_indices_upto(ch.blocks@, ch.blocks@.len() as int)
}

/// The first 100 characters of a text.
pub open spec fn first_100(t: Seq<char>) -> Seq<char> {
    if t.len() <= 100 {
        t
    } else {
        t.take(100)
    }
}

/// A bookmark's snippet: the start of the chosen text paragraph (the one at
/// `pi`, else the first one), empty without a chapter or paragraph.
pub open spec fn bookmark_snippet(chapters: Seq<Chapter>, ci: usize, pi: Option<usize>) -> Seq<
    char,
> {
    if ci >= chapters.len() {
        seq![]
    } else {
        let ch = chapters[ci as int];
        let tb = text_blocks(ch);
        let k: int = match pi {
            Some(p) => if p < tb.len() {
                p as int
            } else {
                0
            },
            None => 0,
        };
        if k < tb.len() {
            first_100(block_text(ch.blocks@[tb[k]])->0.text@)
        } else {
            seq![]
        }
    }
}

/// A bookmark's title: the chapter title, or 书签 without a chapter.
pub open spec fn bookmark_title(chapters: Seq<Chapter>, ci: usize) -> Seq<char> {
    if ci < chapters.len() {
        chapters[ci as int].title@
    } else {
        "书签"@
    }
}

/// The status line after a book opened with `n` chapters and `w` warnings.
pub open spec fn opened_message(n: nat, w: nat) -> Seq<char> {
    if w > 0 {
        "内容已加载，共 "@ + decimal(n) + " 章（"@ + decimal(w) + " 条告警）"@
    } else {
        "内容已加载，共 "@ + decimal(n) + " 章"@
    }
}

/// Opening a book: it becomes current at its first chapter with fresh
/// progress, the search and any error are cleared, the reader screen shows.
pub open spec fn open_book(s: CoreView, b: Book, now: Seq<char>) -> CoreView {
    CoreView {
        book: Some(b),
        progress: Some(
            ProgressView {
                book_id: b.id@,
                chapter_index: 0,
                paragraph_index: None,
                last_read_at: now,
                session_read_seconds: 0,
                total_read_seconds: 0,
            },
        ),
        search: no_search(),
        last_error: None,
        ui: UiView {
            is_loading: false,
            pending_open_path: None,
            screen: ScreenKind::Reader,
            ..s.ui
        },
        session_started_at: Some(now),
        status_message: opened_message(
            b.chapters@.len() as nat,
            b.load_info.parse_warnings@.len() as nat,
        ),
        status_set_at: Some(now),
        recent: recent_after_open(s.recent, opened_recent(b, now)),
        ..s
    }
}

/// The format name a recent entry records.
pub open spec fn format_name(f: BookFormat) -> Seq<char> {
    match f {
        BookFormat::Epub => "epub"@,
        BookFormat::Txt => "txt"@,
    }
}

/// The recent entry of a just opened book: one chapter of its chapters read.
pub open spec fn opened_recent(b: Book, now: Seq<char>) -> RecentView {
    let n = b.chapters@.len();
    RecentView {
        book_id: b.id@,
        title: b.metadata.title@,
        author: opt_str_view(b.metadata.author),
        source_path: b.source_path@,
        format: format_name(b.format),
        last_opened_at: now,
        last_progress: ReadFraction {
            read: if n > 0 {
                1
            } else {
                0
            },
            total: n as usize,
        },
        cover_cached: b.assets.cover_image_bytes is Some,
        is_missing: false,
    }
}

/// Selecting search result `i`: it is marked, and an existing result moves
/// the reader to its chapter and paragraph.
pub open spec fn select_result(s: CoreView, i: usize, now: Seq<char>) -> CoreView {
    let t = CoreView { search: SearchView { selected_result_index: Some(i), ..s.search }, ..s };
    if i < s.search.results.len() {
        let r = s.search.results[i as int];
        let u = go_to(t, r.chapter_index, now);
        match u.progress {
            Some(p) => CoreView {
                progress: Some(ProgressView { paragraph_index: Some(r.paragraph_index), ..p }),
                ..u
            },
            None => u,
        }
    } else {
        t
    }
}

/// Submitting the search query: with a query, its results (as
/// `execute_search` finds them in the current book, from the current
/// chapter) replace the old ones, the selection is cleared and the time
/// recorded; without a query nothing changes.
pub open spec fn search_submitted(s: CoreView, t: CoreView, now: Seq<char>) -> bool {
    match s.search.query {
        None => t == s,
        Some(q) => {
            &&& t == (CoreView {
                search: SearchView {
                    results: t.search.results,
                    selected_result_index: None,
                    last_search_at: Some(now),
                    ..s.search
                },
                ..s
            })
            &&& match s.book {
                None => t.search.results.len() == 0,
                Some(b) => {
                    let key = encode_utf8(fold_case(q.0, q.1));
                    results_report(
                        t.search.results,
                        b,
                        book_hits(
                            b.chapters@,
                            b.chapters@.len() as int,
                            current_chapter(s) as int,
                            q.2 == SearchScope::EntireBook,
                            key,
                            q.1,
                        ),
                        key.len() as int,
                    )
                },
            }
        },
    }
}

/// Adds a bookmark at the reading position, when a book is open and has
/// progress.
pub open spec fn add_bookmark(s: CoreView, now: Seq<char>, now_ms: nat) -> CoreView {
    match (s.book, s.progress) {
        (Some(b), Some(p)) => {
            let bm = BookmarkView {
                id: "bm-"@ + decimal(now_ms),
                book_id: b.id@,
                chapter_index: p.chapter_index,
                paragraph_index: p.paragraph_index,
                title: bookmark_title(b.chapters@, p.chapter_index),
                snippet: bookmark_snippet(b.chapters@, p.chapter_index, p.paragraph_index),
                created_at: now,
                note: None,
            };
            with_status(CoreView { bookmarks: s.bookmarks.push(bm), ..s }, "已添加书签"@, now)
        },
        _ => s,
    }
}

/// Jumps to a bookmark's chapter and, where it has one, its paragraph.
pub open spec fn jump_to_bookmark(s: CoreView, id: Seq<char>, now: Seq<char>) -> CoreView {
    match find_bookmark(s.bookmarks, id, s.bookmarks.len() as int) {
        None => s,
        Some(k) => {
            let bm = s.bookmarks[k];
            let t = go_to(s, bm.chapter_index, now);
            match (bm.paragraph_index, t.progress) {
                (Some(pi), Some(p)) => CoreView {
                    progress: Some(ProgressView { paragraph_index: Some(pi), ..p }),
                    ..t
                },
                _ => t,
            }
        },
    }
}

pub open spec fn with_flags(s: CoreView, f: ReaderFlags) -> CoreView {
    CoreView { flags: f, ..s }
}

/// Opening failures, closing, chapter navigation and bookmarks.
pub open spec fn reading_step(s: CoreView, a: CoreAction, now: Seq<char>, now_ms: nat) -> CoreView {
    match a {
        CoreAction::OpenBookSucceeded(b) => open_book(s, b, now),
        CoreAction::OpenBookFailed(err) => {
            let t = with_status(s, err.message@, now);
            CoreView {
                last_error: Some(err),
                ui: UiView {
                    is_loading: false,
                    screen: ScreenKind::Error,
                    pending_open_path: None,
                    ..t.ui
                },
                ..t
            }
        },
        CoreAction::CloseBook => cleared_status(
            CoreView {
                book: None,
                progress: None,
                bookmarks: seq![],
                search: no_search(),
                last_error: None,
                session_started_at: None,
                ui: UiView {
                    screen: ScreenKind::EmptyLibrary,
                    is_loading: false,
                    pending_open_path: None,
                    ..s.ui
                },
                ..s
            },
        ),
        CoreAction::GoToChapter(i) => go_to(s, i, now),
        CoreAction::NextChapter => go_to(
            s,
            if current_chapter(s) == usize::MAX {
                usize::MAX
            } else {
                (current_chapter(s) + 1) as usize
            },
            now,
        ),
        CoreAction::PrevChapter => go_to(
            s,
            if current_chapter(s) == 0 {
                0
            } else {
                (current_chapter(s) - 1) as usize
            },
            now,
        ),
        CoreAction::AddBookmarkRequested => add_bookmark(s, now, now_ms),
        CoreAction::RemoveBookmark(id) => CoreView {
            bookmarks: without_bookmark(s.bookmarks, id@, s.bookmarks.len() as int),
            ..s
        },
        CoreAction::JumpToBookmark(id) => jump_to_bookmark(s, id@, now),
        _ => s,
    }
}

/// The search query and the status line.
pub open spec fn session_step(s: CoreView, a: CoreAction, now: Seq<char>, now_ms: nat) -> CoreView {
    match a {
        CoreAction::SearchResultSelected(i) => select_result(s, i, now),
        CoreAction::SearchQueryChanged(q) => CoreView {
            search: SearchView { query: Some(query_view(q)), ..s.search },
            ..s
        },
        CoreAction::ClearSearch => CoreView { search: no_search(), ..s },
        CoreAction::ToggleSearchCaseSensitive => {
            let q = match s.search.query {
                Some(q) => q,
                None => (seq![], false, SearchScope::CurrentChapter),
            };
            CoreView { search: SearchView { query: Some((q.0, !q.1, q.2)), ..s.search }, ..s }
        },
        CoreAction::StatusMessageTimedOut => if s.last_error is None {
            cleared_status(s)
        } else {
            s
        },
        CoreAction::DismissError => {
            let t = CoreView {
                last_error: None,
                ui: UiView {
                    screen: if s.book is Some {
                        ScreenKind::Reader
                    } else {
                        ScreenKind::EmptyLibrary
                    },
                    ..s.ui
                },
                ..s
            };
            if s.status_message.len() == 0 {
                cleared_status(t)
            } else {
                t
            }
        },
        CoreAction::CloseSearchOrSettings => {
            let t = if s.flags.show_search_panel {
                CoreView {
                    flags: ReaderFlags { show_search_panel: false, ..s.flags },
                    search: no_search(),
                    ..s
                }
            } else {
                s
            };
            if t.flags.show_settings_panel {
                with_flags(t, ReaderFlags { show_settings_panel: false, ..t.flags })
            } else {
                t
            }
        },
        _ => s,
    }
}

/// Panels, theme and library view settings.
pub open spec fn panel_step(s: CoreView, a: CoreAction, now: Seq<char>, now_ms: nat) -> CoreView {
    match a {
        CoreAction::ToggleSidebar => with_flags(
            s,
            ReaderFlags { sidebar_collapsed: !s.flags.sidebar_collapsed, ..s.flags },
        ),
        CoreAction::ToggleSettingsPanel => with_flags(
            s,
            ReaderFlags { show_settings_panel: !s.flags.show_settings_panel, ..s.flags },
        ),
        CoreAction::ToggleSearchPanel => with_flags(
            s,
            ReaderFlags {
                show_search_panel: !s.flags.show_search_panel,
                focused_search_input: !s.flags.show_search_panel || s.flags.focused_search_input,
                ..s.flags
            },
        ),
        CoreAction::ToggleFloatingToc => with_flags(
            s,
            ReaderFlags { show_floating_toc: !s.flags.show_floating_toc, ..s.flags },
        ),
        CoreAction::SetReaderToolbarVisible(v) => with_flags(
            s,
            ReaderFlags { reader_toolbar_visible: v, ..s.flags },
        ),
        CoreAction::SwitchLeftPanelTab(tab) => CoreView {
            ui: UiView { left_panel_tab: tab, ..s.ui },
            ..s
        },
        CoreAction::ThemeChanged(t) => CoreView { theme: t, ..s },
        CoreAction::OpenLibraryHome => CoreView {
            ui: UiView { screen: ScreenKind::EmptyLibrary, ..s.ui },
            flags: ReaderFlags { show_floating_toc: false, ..s.flags },
            ..s
        },
        CoreAction::LibrarySearchChanged(q) => CoreView {
            library: LibraryView { search_query: q@, ..s.library },
            ..s
        },
        CoreAction::LibrarySortChanged(m) => CoreView {
            library: LibraryView { sort_mode: m, ..s.library },
            ..s
        },
        CoreAction::LibraryFilterChanged(m) => CoreView {
            library: LibraryView { filter_mode: m, ..s.library },
            ..s
        },
        _ => s,
    }
}

/// The recent-books list and the library index.
pub open spec fn library_step(s: CoreView, a: CoreAction, now: Seq<char>, now_ms: nat) -> CoreView {
    match a {
        CoreAction::RecentBookSelected(id) => match first_recent(s.recent, id@, s.recent.len() as int) {
            Some(k) => CoreView {
                ui: UiView { pending_open_path: Some(s.recent[k].source_path), ..s.ui },
                ..s
            },
            None => s,
        },
        CoreAction::RemoveRecentBook(id) => CoreView {
            recent: recent_without(s.recent, id@, s.recent.len() as int),
            ..s
        },
        CoreAction::ClearMissingRecentBooks => CoreView {
            recent: recent_present(s.recent, s.recent.len() as int),
            ..s
        },
        CoreAction::LibraryBookSelected(id) => {
            let t = CoreView {
                library: LibraryView { selected_book_id: Some(id@), ..s.library },
                ..s
            };
            match first_item(s.index.items, id@, s.index.items.len() as int) {
                Some(k) => CoreView {
                    ui: UiView { pending_open_path: Some(s.index.items[k].source_path), ..t.ui },
                    ..t
                },
                None => t,
            }
        },
        CoreAction::ImportBookSucceeded(item) => CoreView {
            index: index_upsert(s.index, item_view(item)),
            ..s
        },
        CoreAction::RemoveFromLibrary(id) => CoreView { index: index_remove(s.index, id@), ..s },
        CoreAction::RefreshLibraryItem(id, e) => CoreView {
            index: index_refresh(s.index, id@, e),
            ..s
        },
        CoreAction::RescanMissingBooks(v) => CoreView { index: index_rescan(s.index, v@), ..s },
        CoreAction::RepairLibraryPath { book_id, new_path, exists } => CoreView {
            index: index_repair(s.index, book_id@, new_path@, exists),
            ..s
        },
        _ => s,
    }
}

pub open spec fn is_library_action(a: CoreAction) -> bool {
    ||| a is RecentBookSelected
    ||| a is RemoveRecentBook
    ||| a is ClearMissingRecentBooks
    ||| a is LibraryBookSelected
    ||| a is ImportBookSucceeded
    ||| a is RemoveFromLibrary
    ||| a is RefreshLibraryItem
    ||| a is RescanMissingBooks
    ||| a is RepairLibraryPath
}

pub open spec fn is_reading_action(a: CoreAction) -> bool {
    ||| a is OpenBookSucceeded
    ||| a is OpenBookFailed
    ||| a is CloseBook
    ||| a is GoToChapter
    ||| a is NextChapter
    ||| a is PrevChapter
    ||| a is AddBookmarkRequested
    ||| a is RemoveBookmark
    ||| a is JumpToBookmark
}

pub open spec fn is_session_action(a: CoreAction) -> bool {
    ||| a is SearchQueryChanged
    ||| a is SearchResultSelected
    ||| a is ClearSearch
    ||| a is ToggleSearchCaseSensitive
    ||| a is StatusMessageTimedOut
    ||| a is DismissError
    ||| a is CloseSearchOrSettings
}

/// The state after `a`. A submitted search is stated apart, by
/// `search_submitted`, as its results are found by `execute_search`.
pub open spec fn core_step(s: CoreView, a: CoreAction, now: Seq<char>, now_ms: nat) -> CoreView {
    if is_reading_action(a) {
        reading_step(s, a, now, now_ms)
    } else if is_session_action(a) {
        session_step(s, a, now, now_ms)
    } else if is_library_action(a) {
        library_step(s, a, now, now_ms)
    } else {
        panel_step(s, a, now, now_ms)
    }
}

// ---------------------------------------------------------------------------
// Laws
// ---------------------------------------------------------------------------

/// Opening a book puts its entry first, with the book's own format; no
/// other entry is of the same book, and at most 20 entries are kept.
pub proof fn law_open_book_recent_first(s: CoreView, b: Book, now: Seq<char>, now_ms: nat)
    ensures
        ({
            let r = core_step(s, CoreAction::OpenBookSucceeded(b), now, now_ms).recent;
            &&& r.len() >= 1
            &&& r.len() <= 20
            &&& r[0].book_id == b.id@
            &&& r[0].format == format_name(b.format)
            &&& forall|i: int| 1 <= i < r.len() ==> (#[trigger] r[i]).book_id != b.id@
        }),
{
    let item = opened_recent(b, now);
    let rest = recent_without(s.recent, b.id@, s.recent.len() as int);
    lemma_recent_without_drops(s.recent, b.id@, s.recent.len() as int);
    let all = seq![item] + rest;
    let r = core_step(s, CoreAction::OpenBookSucceeded(b), now, now_ms).recent;
    assert(r == recent_after_open(s.recent, item));
    assert forall|i: int| 1 <= i < r.len() implies (#[trigger] r[i]).book_id != b.id@ by {
        assert(r[i] == all[i]);
        assert(all[i] == rest[i - 1]);
    }
}

proof fn lemma_recent_without_drops(s: Seq<RecentView>, id: Seq<char>, n: int)
    ensures
        forall|i: int| 0 <= i < recent_without(s, id, n).len() ==> (#[trigger] recent_without(s, id, n)[i]).book_id != id,
    decreases n,
{
    if n > 0 {
        lemma_recent_without_drops(s, id, n - 1);
        let prev = recent_without(s, id, n - 1);
        if s[n - 1].book_id != id {
            assert forall|i: int| 0 <= i < prev.push(s[n - 1]).len() implies (#[trigger] prev.push(s[n - 1])[i]).book_id != id by {
                if i < prev.len() {
                    assert(prev.push(s[n - 1])[i] == prev[i]);
                }
            }
        }
    }
}

/// Bookmarks with an id other than `id`.
pub open spec fn not_bookmark(id: Seq<char>) -> spec_fn(BookmarkView) -> bool {
    |b: BookmarkView| b.id != id
}

/// Removing a bookmark by id keeps exactly the bookmarks with another id,
/// in their order.
pub proof fn law_remove_bookmark_keeps_others(s: CoreView, id: String, now: Seq<char>, now_ms: nat)
    ensures
        core_step(s, CoreAction::RemoveBookmark(id), now, now_ms).bookmarks == s.bookmarks.filter(not_bookmark(id@)),
{
    lemma_without_bookmark_filter(s.bookmarks, id@, s.bookmarks.len() as int);
    assert(s.bookmarks.take(s.bookmarks.len() as int) =~= s.bookmarks);
}

proof fn lemma_without_bookmark_filter(bms: Seq<BookmarkView>, id: Seq<char>, n: int)
    requires
        0 <= n <= bms.len(),
    ensures
        without_bookmark(bms, id, n) == bms.take(n).filter(not_bookmark(id)),
    decreases n,
{
    if n > 0 {
        lemma_without_bookmark_filter(bms, id, n - 1);
        reveal(Seq::filter);
        assert(bms.take(n).drop_last() =~= bms.take(n - 1));
        assert(bms.take(n).last() == bms[n - 1]);
    } else {
        assert(bms.take(0) =~= Seq::<BookmarkView>::empty());
    }
}

/// Toggling the sidebar, the settings panel or the floating table of
/// contents twice gives back the state.
pub proof fn law_toggle_twice_restores(s: CoreView, now: Seq<char>, now_ms: nat)
    ensures
        core_step(core_step(s, CoreAction::ToggleSidebar, now, now_ms), CoreAction::ToggleSidebar, now, now_ms) == s,
        core_step(core_step(s, CoreAction::ToggleSettingsPanel, now, now_ms), CoreAction::ToggleSettingsPanel, now, now_ms) == s,
        core_step(core_step(s, CoreAction::ToggleFloatingToc, now, now_ms), CoreAction::ToggleFloatingToc, now, now_ms) == s,
{
    assert(core_step(core_step(s, CoreAction::ToggleSidebar, now, now_ms), CoreAction::ToggleSidebar, now, now_ms) =~= s);
    assert(core_step(core_step(s, CoreAction::ToggleSettingsPanel, now, now_ms), CoreAction::ToggleSettingsPanel, now, now_ms) =~= s);
    assert(core_step(core_step(s, CoreAction::ToggleFloatingToc, now, now_ms), CoreAction::ToggleFloatingToc, now, now_ms) =~= s);
}

proof fn lemma_without_absent(bms: Seq<BookmarkView>, id: Seq<char>, n: int)
    requires
        0 <= n <= bms.len(),
        forall|i: int| 0 <= i < bms.len() ==> (#[trigger] bms[i]).id != id,
    ensures
        without_bookmark(bms, id, n) == bms.take(n),
    decreases n,
{
    if n > 0 {
        lemma_without_absent(bms, id, n - 1);
        assert(bms.take(n) =~= bms.take(n - 1).push(bms[n - 1]));
    }
}

proof fn lemma_without_prefix(bms: Seq<BookmarkView>, id: Seq<char>, n: int, b: BookmarkView)
    requires
        0 <= n <= bms.len(),
    ensures
        without_bookmark(bms.push(b), id, n) == without_bookmark(bms, id, n),
    decreases n,
{
    if n > 0 {
        lemma_without_prefix(bms, id, n - 1, b);
        assert(bms.push(b)[n - 1] == bms[n - 1]);
    }
}

/// Adding a bookmark and then removing it by its id gives back the
/// bookmarks there were, when none of them had that id.
pub proof fn law_add_then_remove_bookmark(
    s: CoreView,
    id: String,
    now: Seq<char>,
    now_ms: nat,
    later: Seq<char>,
    later_ms: nat,
)
    requires
        s.book is Some,
        s.progress is Some,
        id@ == "bm-"@ + decimal(now_ms),
        forall|i: int| 0 <= i < s.bookmarks.len() ==> (#[trigger] s.bookmarks[i]).id != id@,
    ensures
        core_step(
            core_step(s, CoreAction::AddBookmarkRequested, now, now_ms),
            CoreAction::RemoveBookmark(id),
            later,
            later_ms,
        ).bookmarks == s.bookmarks,
{
    let t = core_step(s, CoreAction::AddBookmarkRequested, now, now_ms);
    let n = s.bookmarks.len() as int;
    assert(t.bookmarks.len() == n + 1);
    assert(t.bookmarks.drop_last() =~= s.bookmarks);
    assert(t.bookmarks == s.bookmarks.push(t.bookmarks[n]));
    lemma_without_prefix(s.bookmarks, id@, n, t.bookmarks[n]);
    lemma_without_absent(s.bookmarks, id@, n);
    assert(s.bookmarks.take(n) =~= s.bookmarks);
}

/// Moving to a chapter lands on an existing chapter: the one asked for, or
/// the last one when the index is past the end.
pub proof fn law_go_to_chapter_clamps(s: CoreView, index: usize, now: Seq<char>, now_ms: nat)
    requires
        chapter_count(s) > 0,
    ensures
        ({
            let t = core_step(s, CoreAction::GoToChapter(index), now, now_ms);
            &&& t.progress is Some
            &&& t.progress->0.chapter_index < chapter_count(s)
            &&& t.progress->0.chapter_index == (if index < chapter_count(s) {
                index as int
            } else {
                chapter_count(s) - 1
            })
            &&& t.progress->0.paragraph_index is None
        }),
{
}

// ---------------------------------------------------------------------------
// Executable transitions
// ---------------------------------------------------------------------------

fn set_status(state: &mut CoreState, message: String, now: &str)
    ensures
        final(state)@ == with_status(old(state)@, message@, now@),
{
    state.status_message = message;
    state.status_message_set_at = Some(now.to_owned());
    assert(final(state)@ =~= with_status(old(state)@, message@, now@));
}

fn clear_status(state: &mut CoreState)
    ensures
        final(state)@ == cleared_status(old(state)@),
{
    state.status_message = "就绪".to_owned();
    state.status_message_set_at = None;
    assert(final(state)@ =~= cleared_status(old(state)@));
}

fn go_to_chapter(state: &mut CoreState, index: usize, now: &str)
    ensures
        final(state)@ == go_to(old(state)@, index, now@),
{
    let total = match &state.current_book {
        Some(b) => b.chapters.len(),
        None => 0,
    };
    if total == 0 {
        return;
    }
    let c = if index < total {
        index
    } else {
        total - 1
    };
    let ghost s0 = state@;
    let next = match state.reading_progress.take() {
        Some(p) => ReadingProgress {
            book_id: p.book_id,
            chapter_index: c,
            paragraph_index: None,
            last_read_at: now.to_owned(),
            session_read_seconds: p.session_read_seconds,
            total_read_seconds: p.total_read_seconds,
        },
        None => {
            let book_id = match &state.current_book {
                Some(b) => b.id.clone(),
                None => String::new(),
            };
            ReadingProgress {
                book_id,
                chapter_index: c,
                paragraph_index: None,
                last_read_at: now.to_owned(),
                session_read_seconds: 0,
                total_read_seconds: 0,
            }
        },
    };
    state.reading_progress = Some(next);
    assert(state@ =~= go_to(s0, index, now@));
}

fn current_chapter_index(state: &CoreState) -> (r: usize)
    ensures
        r == current_chapter(state@),
{
    match &state.reading_progress {
        Some(p) => p.chapter_index,
        None => 0,
    }
}

/// The text of the chapter's text paragraph chosen for a bookmark, cut to
/// 100 characters.
fn snippet_of(chapters: &Vec<Chapter>, ci: usize, pi: Option<usize>) -> (r: String)
    ensures
        r@ == bookmark_snippet(chapters@, ci, pi),
{
    if ci >= chapters.len() {
        return String::new();
    }
    let ch = &chapters[ci];
    let tb = ch.text_paragraphs();
    proof {
        assert(tb@.len() == text_blocks(*ch).len());
    }
    let k: usize = match pi {
        Some(p) => if p < tb.len() {
            p
        } else {
            0
        },
        None => 0,
    };
    if k >= tb.len() {
        return String::new();
    }
    let bi = tb[k];
    proof {
        assert(bi as int == text_blocks(*ch)[k as int]);
        lemma_text_block_indices(ch.blocks@, ch.blocks@.len() as int);
    }
    let text = match &ch.blocks[bi] {
        ChapterBlock::Paragraph(p) => &p.text,
        ChapterBlock::Heading(p) => &p.text,
        ChapterBlock::Quote(p) => &p.text,
        _ => {
            proof {
                assert(false);
            }
            return String::new();
        },
    };
    let cs = to_chars(text.as_str());
    let n = if cs.len() <= 100 {
        cs.len()
    } else {
        100
    };
    let cut = slice_chars(&cs, 0, n);
    proof {
        assert(cut@ =~= first_100(text@));
    }
    from_chars(&cut)
}

proof fn lemma_text_block_indices(blocks: Seq<ChapterBlock>, n: int)
    requires
        0 <= n <= blocks.len(),
    ensures
        forall|k: int|
            0 <= k < Chapter::text_block_indices_upto(blocks, n).len() ==> {
                let j = #[trigger] Chapter::text_block_indices_upto(blocks, n)[k];
                0 <= j < n && Chapter::is_text_block(blocks[j])
            },
    decreases n,
{
    if n > 0 {
        lemma_text_block_indices(blocks, n - 1);
        let prev = Chapter::text_block_indices_upto(blocks, n - 1);
        let cur = Chapter::text_block_indices_upto(blocks, n);
        if Chapter::is_text_block(blocks[n - 1]) {
            assert forall|k: int| 0 <= k < cur.len() implies {
                let j = #[trigger] cur[k];
                0 <= j < n && Chapter::is_text_block(blocks[j])
            } by {
                if k < prev.len() {
                    assert(cur[k] == prev[k]);
                }
            }
        }
    }
}

fn add_bookmark_exec(state: &mut CoreState, now: &str, now_ms: usize)
    ensures
        final(state)@ == add_bookmark(old(state)@, now@, now_ms as nat),
{
    let ghost s0 = state@;
    let bm = match (&state.current_book, &state.reading_progress) {
        (Some(b), Some(p)) => {
            let ci = p.chapter_index;
            let pi = p.paragraph_index;
            let snippet = snippet_of(&b.chapters, ci, pi);
            let title = if ci < b.chapters.len() {
                b.chapters[ci].title.clone()
            } else {
                "书签".to_owned()
            };
            let mut id = to_chars("bm-");
            let digits = decimal_chars(now_ms);
            extend_chars(&mut id, &digits);
            Bookmark {
                id: from_chars(&id),
                book_id: b.id.clone(),
                chapter_index: ci,
                paragraph_index: pi,
                title,
                snippet,
                created_at: now.to_owned(),
                note: None,
            }
        },
        _ => return,
    };
    let ghost bv = bookmark_view(bm);
    state.bookmarks.push(bm);
    proof {
        assert(state@.bookmarks =~= s0.bookmarks.push(bv));
    }
    set_status(state, "已添加书签".to_owned(), now);
    assert(state@ =~= add_bookmark(s0, now@, now_ms as nat));
}

fn remove_bookmark_exec(state: &mut CoreState, id: &String)
    ensures
        final(state)@ == (CoreView {
            bookmarks: without_bookmark(
                old(state)@.bookmarks,
                id@,
                old(state)@.bookmarks.len() as int,
            ),
            ..old(state)@
        }),
{
    let ghost s0 = state@;
    let ghost orig = s0.bookmarks;
    let mut rest: Vec<Bookmark> = Vec::new();
    std::mem::swap(&mut rest, &mut state.bookmarks);
    let ghost all = rest@;
    let total = rest.len();
    let mut k: usize = 0;
    while rest.len() > 0
        invariant
            orig == all.map_values(|b: Bookmark| bookmark_view(b)),
            total == all.len(),
            k + rest@.len() == all.len(),
            rest@ == all.skip(k as int),
            state.bookmarks@.map_values(|b: Bookmark| bookmark_view(b)) == without_bookmark(
                orig,
                id@,
                k as int,
            ),
            state@ == (CoreView { bookmarks: state@.bookmarks, ..s0 }),
        decreases rest.len(),
    {
        let b = rest.remove(0);
        assert(bookmark_view(b) == orig[k as int]);
        let keep = !(b.id == *id);
        let ghost before = state.bookmarks@;
        if keep {
            state.bookmarks.push(b);
            assert(state.bookmarks@.map_values(|b: Bookmark| bookmark_view(b)) =~= before.map_values(
                |b: Bookmark| bookmark_view(b),
            ).push(orig[k as int]));
        }
        assert(rest@ =~= all.skip(k + 1));
        k = k + 1;
    }
    assert(state@ =~= (CoreView {
        bookmarks: without_bookmark(orig, id@, orig.len() as int),
        ..s0
    }));
}

fn find_bookmark_exec(bookmarks: &Vec<Bookmark>, id: &String) -> (r: Option<usize>)
    ensures
        match r {
            Some(k) => find_bookmark(
                bookmarks@.map_values(|b: Bookmark| bookmark_view(b)),
                id@,
                bookmarks@.len() as int,
            ) == Some(k as int) && k < bookmarks@.len(),
            None => find_bookmark(
                bookmarks@.map_values(|b: Bookmark| bookmark_view(b)),
                id@,
                bookmarks@.len() as int,
            ) is None,
        },
{
    let ghost bv = bookmarks@.map_values(|b: Bookmark| bookmark_view(b));
    let mut i: usize = 0;
    while i < bookmarks.len()
        invariant
            i <= bookmarks@.len(),
            bv == bookmarks@.map_values(|b: Bookmark| bookmark_view(b)),
            find_bookmark(bv, id@, i as int) is None,
        decreases bookmarks.len() - i,
    {
        if bookmarks[i].id == *id {
            proof {
                lemma_find_bookmark_prefix(bv, id@, i + 1, bookmarks@.len() as int);
            }
            return Some(i);
        }
        i = i + 1;
    }
    None
}

proof fn lemma_find_bookmark_prefix(bms: Seq<BookmarkView>, id: Seq<char>, n: int, m: int)
    requires
        0 <= n <= m,
        find_bookmark(bms, id, n) is Some,
    ensures
        find_bookmark(bms, id, m) == find_bookmark(bms, id, n),
    decreases m - n,
{
    if m > n {
        lemma_find_bookmark_prefix(bms, id, n, m - 1);
    }
}

fn jump_to_bookmark_exec(state: &mut CoreState, id: &String, now: &str)
    ensures
        final(state)@ == jump_to_bookmark(old(state)@, id@, now@),
{
    let ghost s0 = state@;
    let k = match find_bookmark_exec(&state.bookmarks, id) {
        Some(k) => k,
        None => return,
    };
    let ci = state.bookmarks[k].chapter_index;
    let pi = state.bookmarks[k].paragraph_index;
    go_to_chapter(state, ci, now);
    let ghost s1 = state@;
    match pi {
        Some(p) => {
            match state.reading_progress.take() {
                Some(mut prog) => {
                    prog.paragraph_index = Some(p);
                    state.reading_progress = Some(prog);
                },
                None => {},
            }
        },
        None => {},
    }
    assert(state@ =~= jump_to_bookmark(s0, id@, now@));
}

fn reset_search(state: &mut CoreState)
    ensures
        final(state)@ == (CoreView { search: no_search(), ..old(state)@ }),
{
    state.search_state = SearchState::default();
    assert(final(state)@ =~= (CoreView { search: no_search(), ..old(state)@ }));
}

fn opened_message_exec(n: usize, w: usize) -> (r: String)
    ensures
        r@ == opened_message(n as nat, w as nat),
{
    let mut m = to_chars("内容已加载，共 ");
    let dn = decimal_chars(n);
    extend_chars(&mut m, &dn);
    if w > 0 {
        let mid = to_chars(" 章（");
        extend_chars(&mut m, &mid);
        let dw = decimal_chars(w);
        extend_chars(&mut m, &dw);
        let tail = to_chars(" 条告警）");
        extend_chars(&mut m, &tail);
    } else {
        let tail = to_chars(" 章");
        extend_chars(&mut m, &tail);
    }
    from_chars(&m)
}

fn open_book_exec(state: &mut CoreState, b: Book, now: &str)
    ensures
        final(state)@ == open_book(old(state)@, b, now@),
{
    let ghost s0 = state@;
    let ghost b0 = b;
    let msg = opened_message_exec(b.chapters.len(), b.load_info.parse_warnings.len());
    let n = b.chapters.len();
    let recent = RecentBookItem {
        book_id: b.id.clone(),
        title: b.metadata.title.clone(),
        author: clone_opt_string(&b.metadata.author),
        source_path: b.source_path.clone(),
        format: format_label(&b.format).to_owned(),
        last_opened_at: now.to_owned(),
        last_progress: ReadFraction {
            read: if n > 0 {
                1
            } else {
                0
            },
            total: n,
        },
        cover_cached: b.assets.cover_image_bytes.is_some(),
        is_missing: false,
    };
    assert(recent_view(recent) == opened_recent(b, now@));
    remember_recent(&mut state.recent_books, recent);
    let prog = ReadingProgress {
        book_id: b.id.clone(),
        chapter_index: 0,
        paragraph_index: None,
        last_read_at: now.to_owned(),
        session_read_seconds: 0,
        total_read_seconds: 0,
    };
    state.current_book = Some(b);
    state.reading_progress = Some(prog);
    state.search_state = SearchState::default();
    state.last_error = None;
    state.ui_state.is_loading = false;
    state.ui_state.pending_open_path = None;
    state.ui_state.screen = ScreenKind::Reader;
    state.session_started_at = Some(now.to_owned());
    set_status(state, msg, now);
    assert(state@ =~= open_book(s0, b0, now@));
}

fn select_result_exec(state: &mut CoreState, i: usize, now: &str)
    ensures
        final(state)@ == select_result(old(state)@, i, now@),
{
    let ghost s0 = state@;
    state.search_state.selected_result_index = Some(i);
    if i < state.search_state.results.len() {
        let ci = state.search_state.results[i].chapter_index;
        let pi = state.search_state.results[i].paragraph_index;
        go_to_chapter(state, ci, now);
        match state.reading_progress.take() {
            Some(mut p) => {
                p.paragraph_index = Some(pi);
                state.reading_progress = Some(p);
            },
            None => {},
        }
    }
    assert(state@ =~= select_result(s0, i, now@));
}

fn submit_search(state: &mut CoreState, now: &str)
    ensures
        search_submitted(old(state)@, final(state)@, now@),
{
    let ghost s0 = state@;
    let current = current_chapter_index(state);
    let results = match &state.search_state.current_query {
        None => {
            return;
        },
        Some(q) => {
            let book = match &state.current_book {
                Some(b) => Some(b),
                None => None,
            };
            execute_search(book, current, q)
        },
    };
    state.search_state.results = results;
    state.search_state.selected_result_index = None;
    state.search_state.last_search_at = Some(now.to_owned());
    assert(state@ =~= (CoreView {
        search: SearchView {
            results: state@.search.results,
            selected_result_index: None,
            last_search_at: Some(now@),
            ..s0.search
        },
        ..s0
    }));
}

fn reduce_reading(state: &mut CoreState, action: CoreAction, now: &str, now_ms: usize)
    ensures
        final(state)@ == reading_step(old(state)@, action, now@, now_ms as nat),
{
    let ghost s0 = state@;
    let ghost a0 = action;
    match action {
        CoreAction::OpenBookSucceeded(b) => {
            open_book_exec(state, b, now);
            proof {
                assert(state@ =~= reading_step(s0, a0, now@, now_ms as nat));
            }
        },
        CoreAction::OpenBookFailed(err) => {
            let msg = err.message.clone();
            set_status(state, msg, now);
            state.last_error = Some(err);
            state.ui_state.is_loading = false;
            state.ui_state.screen = ScreenKind::Error;
            state.ui_state.pending_open_path = None;
            proof {
                assert(state@ =~= reading_step(s0, a0, now@, now_ms as nat));
            }
        },
        CoreAction::CloseBook => {
            state.current_book = None;
            state.reading_progress = None;
            state.bookmarks = Vec::new();
            state.search_state = SearchState::default();
            state.last_error = None;
            state.session_started_at = None;
            state.ui_state.screen = ScreenKind::EmptyLibrary;
            state.ui_state.is_loading = false;
            state.ui_state.pending_open_path = None;
            clear_status(state);
            proof {
                assert(state@ =~= reading_step(s0, a0, now@, now_ms as nat));
            }
        },
        CoreAction::GoToChapter(i) => {
            go_to_chapter(state, i, now);
            proof {
                assert(state@ =~= reading_step(s0, a0, now@, now_ms as nat));
            }
        },
        CoreAction::NextChapter => {
            let c = current_chapter_index(state);
            go_to_chapter(state, c.saturating_add(1), now);
            proof {
                assert(state@ =~= reading_step(s0, a0, now@, now_ms as nat));
            }
        },
        CoreAction::PrevChapter => {
            let c = current_chapter_index(state);
            go_to_chapter(state, c.saturating_sub(1), now);
            proof {
                assert(state@ =~= reading_step(s0, a0, now@, now_ms as nat));
            }
        },
        CoreAction::AddBookmarkRequested => {
            add_bookmark_exec(state, now, now_ms);
            proof {
                assert(state@ =~= reading_step(s0, a0, now@, now_ms as nat));
            }
        },
        CoreAction::RemoveBookmark(id) => {
            remove_bookmark_exec(state, &id);
            proof {
                assert(state@ =~= reading_step(s0, a0, now@, now_ms as nat));
            }
        },
        CoreAction::JumpToBookmark(id) => {
            jump_to_bookmark_exec(state, &id, now);
            proof {
                assert(state@ =~= reading_step(s0, a0, now@, now_ms as nat));
            }
        },
        _ => {},
    }
}

fn reduce_session(state: &mut CoreState, action: CoreAction, now: &str, now_ms: usize)
    ensures
        final(state)@ == session_step(old(state)@, action, now@, now_ms as nat),
{
    let ghost s0 = state@;
    let ghost a0 = action;
    match action {
        CoreAction::SearchResultSelected(i) => {
            select_result_exec(state, i, now);
            proof {
                assert(state@ =~= session_step(s0, a0, now@, now_ms as nat));
            }
        },
        CoreAction::SearchQueryChanged(q) => {
            state.search_state.current_query = Some(q);
            proof {
                assert(state@ =~= session_step(s0, a0, now@, now_ms as nat));
            }
        },
        CoreAction::ClearSearch => {
            reset_search(state);
            proof {
                assert(state@ =~= session_step(s0, a0, now@, now_ms as nat));
            }
        },
        CoreAction::ToggleSearchCaseSensitive => {
            let q = match state.search_state.current_query.take() {
                Some(q) => SearchQuery { case_sensitive: !q.case_sensitive, ..q },
                None => SearchQuery {
                    keyword: String::new(),
                    case_sensitive: true,
                    scope: SearchScope::CurrentChapter,
                },
            };
            state.search_state.current_query = Some(q);
            proof {
                assert(state@ =~= session_step(s0, a0, now@, now_ms as nat));
            }
        },
        CoreAction::StatusMessageTimedOut => {
            if state.last_error.is_none() {
                clear_status(state);
            }
            proof {
                assert(state@ =~= session_step(s0, a0, now@, now_ms as nat));
            }
        },
        CoreAction::DismissError => {
            state.last_error = None;
            state.ui_state.screen = if state.current_book.is_some() {
                ScreenKind::Reader
            } else {
                ScreenKind::EmptyLibrary
            };
            if state.status_message.as_str().is_empty() {
                clear_status(state);
            }
            proof {
                assert(state@ =~= session_step(s0, a0, now@, now_ms as nat));
            }
        },
        CoreAction::CloseSearchOrSettings => {
            if state.flags.show_search_panel {
                state.flags.show_search_panel = false;
                reset_search(state);
            }
            if state.flags.show_settings_panel {
                state.flags.show_settings_panel = false;
            }
            proof {
                assert(state@ =~= session_step(s0, a0, now@, now_ms as nat));
            }
        },
        _ => {},
    }
}

#[verifier::rlimit(100)]
#[verifier::spinoff_prover]
fn reduce_panel(state: &mut CoreState, action: CoreAction, now: &str, now_ms: usize)
    ensures
        final(state)@ == panel_step(old(state)@, action, now@, now_ms as nat),
{
    let ghost s0 = state@;
    let ghost a0 = action;
    match action {
        CoreAction::ToggleSidebar => {
            state.flags.sidebar_collapsed = !state.flags.sidebar_collapsed;
            proof {
                assert(state@ =~= panel_step(s0, a0, now@, now_ms as nat));
            }
        },
        CoreAction::ToggleSettingsPanel => {
            state.flags.show_settings_panel = !state.flags.show_settings_panel;
            proof {
                assert(state@ =~= panel_step(s0, a0, now@, now_ms as nat));
            }
        },
        CoreAction::ToggleSearchPanel => {
            state.flags.show_search_panel = !state.flags.show_search_panel;
            if state.flags.show_search_panel {
                state.flags.focused_search_input = true;
            }
            proof {
                assert(state@ =~= panel_step(s0, a0, now@, now_ms as nat));
            }
        },
        CoreAction::ToggleFloatingToc => {
            state.flags.show_floating_toc = !state.flags.show_floating_toc;
            proof {
                assert(state@ =~= panel_step(s0, a0, now@, now_ms as nat));
            }
        },
        CoreAction::SetReaderToolbarVisible(v) => {
            state.flags.reader_toolbar_visible = v;
            proof {
                assert(state@ =~= panel_step(s0, a0, now@, now_ms as nat));
            }
        },
        CoreAction::SwitchLeftPanelTab(tab) => {
            state.ui_state.left_panel_tab = tab;
            proof {
                assert(state@ =~= panel_step(s0, a0, now@, now_ms as nat));
            }
        },
        CoreAction::ThemeChanged(t) => {
            state.theme = t;
            proof {
                assert(state@ =~= panel_step(s0, a0, now@, now_ms as nat));
            }
        },
        CoreAction::OpenLibraryHome => {
            state.ui_state.screen = ScreenKind::EmptyLibrary;
            state.flags.show_floating_toc = false;
            proof {
                assert(state@ =~= panel_step(s0, a0, now@, now_ms as nat));
            }
        },
        CoreAction::LibrarySearchChanged(q) => {
            state.library_view_state.search_query = q;
            proof {
                assert(state@ =~= panel_step(s0, a0, now@, now_ms as nat));
            }
        },
        CoreAction::LibrarySortChanged(m) => {
            state.library_view_state.sort_mode = m;
            proof {
                assert(state@ =~= panel_step(s0, a0, now@, now_ms as nat));
            }
        },
        CoreAction::LibraryFilterChanged(m) => {
            state.library_view_state.filter_mode = m;
            proof {
                assert(state@ =~= panel_step(s0, a0, now@, now_ms as nat));
            }
        },
        _ => {},
    }
}

fn is_reading_exec(a: &CoreAction) -> (r: bool)
    ensures
        r == is_reading_action(*a),
{
    match a {
        CoreAction::OpenBookSucceeded(_) | CoreAction::OpenBookFailed(_) | CoreAction::CloseBook
        | CoreAction::GoToChapter(_)
        | CoreAction::NextChapter | CoreAction::PrevChapter | CoreAction::AddBookmarkRequested
        | CoreAction::RemoveBookmark(_) | CoreAction::JumpToBookmark(_) => true,
        _ => false,
    }
}

fn is_library_exec(a: &CoreAction) -> (r: bool)
    ensures
        r == is_library_action(*a),
{
    match a {
        CoreAction::RecentBookSelected(_) | CoreAction::RemoveRecentBook(_)
        | CoreAction::ClearMissingRecentBooks | CoreAction::LibraryBookSelected(_)
        | CoreAction::ImportBookSucceeded(_) | CoreAction::RemoveFromLibrary(_)
        | CoreAction::RefreshLibraryItem(_, _) | CoreAction::RescanMissingBooks(_)
        | CoreAction::RepairLibraryPath { .. } => true,
        _ => false,
    }
}

#[verifier::rlimit(100)]
#[verifier::spinoff_prover]
fn reduce_library(state: &mut CoreState, action: CoreAction, now: &str, now_ms: usize)
    ensures
        final(state)@ == library_step(old(state)@, action, now@, now_ms as nat),
{
    let ghost s0 = state@;
    let ghost a0 = action;
    match action {
        CoreAction::RecentBookSelected(id) => {
            match find_recent(&state.recent_books, &id) {
                Some(k) => {
                    let p = state.recent_books[k].source_path.clone();
                    state.ui_state.pending_open_path = Some(p);
                },
                None => {},
            }
            proof {
                assert(state@ =~= library_step(s0, a0, now@, now_ms as nat));
            }
        },
        CoreAction::RemoveRecentBook(id) => {
            remove_recent(&mut state.recent_books, &id);
            proof {
                assert(state@ =~= library_step(s0, a0, now@, now_ms as nat));
            }
        },
        CoreAction::ClearMissingRecentBooks => {
            remove_missing_recent(&mut state.recent_books);
            proof {
                assert(state@ =~= library_step(s0, a0, now@, now_ms as nat));
            }
        },
        CoreAction::LibraryBookSelected(id) => {
            match find_item(&state.library_index.items, &id) {
                Some(k) => {
                    let p = state.library_index.items[k].source_path.clone();
                    state.ui_state.pending_open_path = Some(p);
                },
                None => {},
            }
            state.library_view_state.selected_book_id = Some(id);
            proof {
                assert(state@ =~= library_step(s0, a0, now@, now_ms as nat));
            }
        },
        CoreAction::ImportBookSucceeded(item) => {
            upsert_item(&mut state.library_index, item);
            proof {
                assert(state@ =~= library_step(s0, a0, now@, now_ms as nat));
            }
        },
        CoreAction::RemoveFromLibrary(id) => {
            remove_item(&mut state.library_index, &id);
            proof {
                assert(state@ =~= library_step(s0, a0, now@, now_ms as nat));
            }
        },
        CoreAction::RefreshLibraryItem(id, e) => {
            refresh_item(&mut state.library_index, &id, e);
            proof {
                assert(state@ =~= library_step(s0, a0, now@, now_ms as nat));
            }
        },
        CoreAction::RescanMissingBooks(v) => {
            rescan_items(&mut state.library_index, &v);
            proof {
                assert(state@ =~= library_step(s0, a0, now@, now_ms as nat));
            }
        },
        CoreAction::RepairLibraryPath { book_id, new_path, exists } => {
            repair_item(&mut state.library_index, &book_id, new_path, exists);
            proof {
                assert(state@ =~= library_step(s0, a0, now@, now_ms as nat));
            }
        },
        _ => {},
    }
}

fn is_session_exec(a: &CoreAction) -> (r: bool)
    ensures
        r == is_session_action(*a),
{
    match a {
        CoreAction::SearchQueryChanged(_) | CoreAction::SearchResultSelected(_)
        | CoreAction::ClearSearch
        | CoreAction::ToggleSearchCaseSensitive | CoreAction::StatusMessageTimedOut
        | CoreAction::DismissError | CoreAction::CloseSearchOrSettings => true,
        _ => false,
    }
}

/// Applies an action to the reading state. `now` is the current time in RFC
/// 3339 form and `now_ms` the same instant in milliseconds since the epoch.
pub fn reduce(state: &mut CoreState, action: CoreAction, now: &str, now_ms: usize)
    ensures
        !(action is SearchSubmitted) ==> final(state)@ == core_step(
            old(state)@,
            action,
            now@,
            now_ms as nat,
        ),
        action is SearchSubmitted ==> search_submitted(old(state)@, final(state)@, now@),
{
    if let CoreAction::SearchSubmitted = &action {
        submit_search(state, now);
    } else if is_reading_exec(&action) {
        reduce_reading(state, action, now, now_ms);
    } else if is_session_exec(&action) {
        reduce_session(state, action, now, now_ms);
    } else if is_library_exec(&action) {
        reduce_library(state, action, now, now_ms);
    } else {
        reduce_panel(state, action, now, now_ms);
    }
}

} // verus!
