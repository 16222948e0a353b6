//! Domain model of books, chapters, reading state and the library.
//!
//! Paths are held as `String`; maps keyed by strings are held as
//! association vectors in insertion order. A `HashMap` with `String` keys
//! is not used: vstd's specification of it gives no lookup facts for such
//! keys, and an association vector also fixes the order in which entries
//! are searched (the document's order), where a hash map's would vary.

use vstd::prelude::*;

verus! {

pub const FILE_OPEN_FAILED: &'static str = "FILE_OPEN_FAILED";

pub const UNSUPPORTED_FORMAT: &'static str = "UNSUPPORTED_FORMAT";

/// Marker that precedes the text of an indented paragraph.
pub const INDENT_MARKER: &'static str = "\x01INDENT\x01";

// ---------------------------------------------------------------------------
// Errors
// ---------------------------------------------------------------------------

/// Application error: machine-readable code, user-facing message, optional
/// detail, whether the user may retry, and an optional description of an
/// inner error.
#[derive(Debug)]
pub struct AppError {
    pub code: String,
    pub message: String,
    pub detail: Option<String>,
    pub recoverable: bool,
    pub source: Option<String>,
}

impl AppError {
    pub fn new(code: &str, message: &str) -> (e: AppError)
        ensures
            e.code@ == code@,
            e.message@ == message@,
            e.detail is None,
            !e.recoverable,
            e.source is None,
    {
        AppError {
            code: code.to_owned(),
            message: message.to_owned(),
            detail: None,
            recoverable: false,
            source: None,
        }
    }

    pub fn with_detail(code: &str, message: &str, detail: &str) -> (e: AppError)
        ensures
            e.code@ == code@,
            e.message@ == message@,
            e.detail matches Some(d) && d@ == detail@,
            !e.recoverable,
            e.source is None,
    {
        AppError {
            code: code.to_owned(),
            message: message.to_owned(),
            detail: Some(detail.to_owned()),
            recoverable: false,
            source: None,
        }
    }

    /// Attaches the description of an inner error.
    pub fn with_source(self, err: String) -> (e: AppError)
        ensures
            e.code == self.code,
            e.message == self.message,
            e.detail == self.detail,
            e.recoverable == self.recoverable,
            e.source == Some(err),
    {
        AppError { source: Some(err), ..self }
    }

    /// The displayed form: `[code] message`.
    pub fn display(&self) -> (s: String)
        ensures
            s@ == seq!['['] + self.code@ + seq![']', ' '] + self.message@,
    {
        let mut s = String::new();
        s.push('[');
        s.append(self.code.as_str());
        s.push(']');
        s.push(' ');
        s.append(self.message.as_str());
        assert(s@ =~= seq!['['] + self.code@ + seq![']', ' '] + self.message@);
        s
    }

}

pub open spec fn opt_str_view(o: Option<String>) -> Option<Seq<char>> {
    match o {
        Some(s) => Some(s@),
        None => None,
    }
}

/// A copy drops the inner error.
impl Clone for AppError {
    fn clone(&self) -> (e: AppError)
        ensures
            e.code@ == self.code@,
            e.message@ == self.message@,
            opt_str_view(e.detail) == opt_str_view(self.detail),
            e.recoverable == self.recoverable,
            e.source is None,
    {
        AppError {
            code: self.code.clone(),
            message: self.message.clone(),
            detail: match &self.detail {
                Some(d) => Some(d.clone()),
                None => None,
            },
            recoverable: self.recoverable,
            source: None,
        }
    }
}

/// Errors are equal when code, message, detail and recoverability are (the
/// inner error is ignored).
impl PartialEq for AppError {
    fn eq(&self, other: &AppError) -> (b: bool) {
        let d = match (&self.detail, &other.detail) {
            (Some(a), Some(c)) => *a == *c,
            (None, None) => true,
            _ => false,
        };
        self.code == other.code && self.message == other.message && d && self.recoverable
            == other.recoverable
    }
}

impl vstd::std_specs::cmp::PartialEqSpecImpl for AppError {
    open spec fn obeys_eq_spec() -> bool {
        true
    }

    open spec fn eq_spec(&self, other: &AppError) -> bool {
        &&& self.code@ == other.code@
        &&& self.message@ == other.message@
        &&& opt_str_view(self.detail) == opt_str_view(other.detail)
        &&& self.recoverable == other.recoverable
    }
}

// ---------------------------------------------------------------------------
// Formats and enums
// ---------------------------------------------------------------------------

#[derive(Clone, Copy, Debug, PartialEq, Eq, Structural)]
pub enum BookFormat {
    Epub,
    Txt,
}

#[derive(Clone, Copy, Debug, PartialEq, Eq, Structural)]
pub enum ParagraphKind {
    Title,
    Subtitle,
    Body,
    Quote,
    Separator,
}

impl ParagraphKind {
    pub open spec fn name(self) -> Seq<char> {
        match self {
            ParagraphKind::Title => "title"@,
            ParagraphKind::Subtitle => "subtitle"@,
            ParagraphKind::Body => "body"@,
            ParagraphKind::Quote => "quote"@,
            ParagraphKind::Separator => "separator"@,
        }
    }

    pub fn as_str(&self) -> (s: &'static str)
        ensures
            s@ == self.name(),
    {
        match self {
            ParagraphKind::Title => "title",
            ParagraphKind::Subtitle => "subtitle",
            ParagraphKind::Body => "body",
            ParagraphKind::Quote => "quote",
            ParagraphKind::Separator => "separator",
        }
    }
}

#[derive(Clone, Copy, Debug, PartialEq, Eq, Structural)]
pub enum ScreenKind {
    EmptyLibrary,
    LoadingBook,
    Reader,
    Error,
}

#[derive(Clone, Copy, Debug, PartialEq, Eq, Structural)]
pub enum LeftPanelTab {
    TableOfContents,
    Bookmarks,
    Recent,
}

#[derive(Clone, Copy, Debug, PartialEq, Eq, Structural)]
pub enum ThemeKind {
    Light,
    Dark,
    Sepia,
    Paper,
    Custom,
}

#[derive(Clone, Copy, Debug, PartialEq, Eq, Structural)]
pub enum SearchScope {
    CurrentChapter,
    EntireBook,
}

#[derive(Clone, Copy, Debug, PartialEq, Eq, Structural)]
pub enum FileHealth {
    Healthy,
    Missing,
    Moved,
    ParseWarning,
}

#[derive(Clone, Copy, Debug, PartialEq, Eq, Structural)]
pub enum LibrarySortMode {
    LastOpenedDesc,
    ImportedDesc,
    TitleAsc,
    AuthorAsc,
    ProgressDesc,
}

#[derive(Clone, Copy, Debug, PartialEq, Eq, Structural)]
pub enum LibraryFilterMode {
    All,
    EpubOnly,
    TxtOnly,
    InProgress,
    Finished,
    Missing,
}

#[derive(Clone, Copy, Debug, PartialEq, Eq, Structural)]
pub enum DatabaseBackendType {
    Sqlite,
}

#[derive(Clone, Copy, Debug, PartialEq, Eq, Structural)]
pub enum TtsProviderKind {
    Xiaomi,
}

#[derive(Clone, Copy, Debug, PartialEq, Eq, Structural)]
pub enum PlaybackStatus {
    Idle,
    Playing,
    Paused,
    Stopped,
}

// ---------------------------------------------------------------------------
// Book content
// ---------------------------------------------------------------------------

/// A link span within paragraph text, in character offsets.
#[derive(Debug)]
pub struct TextLink {
    pub start: usize,
    pub end: usize,
    pub href: String,
    pub title: Option<String>,
    pub is_footnote: bool,
}

#[derive(Debug)]
pub struct Paragraph {
    pub index: usize,
    pub text: String,
    pub kind: ParagraphKind,
    pub indent_level: u8,
    pub source_line_hint: Option<usize>,
    pub links: Vec<TextLink>,
}

/// An inline image block extracted from EPUB HTML.
#[derive(Debug)]
pub struct InlineImageBlock {
    pub index: usize,
    pub asset_id: String,
    pub alt_text: Option<String>,
    pub caption: Option<String>,
    pub source_href: Option<String>,
    pub is_inline: bool,
}

/// A content block within a chapter: a text paragraph or an image.
#[derive(Debug)]
pub enum ChapterBlock {
    Paragraph(Paragraph),
    Heading(Paragraph),
    Quote(Paragraph),
    Image(InlineImageBlock),
    Separator,
}

#[derive(Debug)]
pub struct Chapter {
    pub id: String,
    pub index: usize,
    pub title: String,
    pub raw_title: Option<String>,
    pub blocks: Vec<ChapterBlock>,
    pub word_count: usize,
    pub char_count: usize,
    pub source_href: Option<String>,
    pub anchor: Option<String>,
    /// In-chapter anchors: fragment and paragraph index.
    pub anchors: Vec<(String, usize)>,
    pub warnings: Vec<String>,
}

impl Chapter {
    /// Whether a block carries a text paragraph.
    pub open spec fn is_text_block(b: ChapterBlock) -> bool {
        b is Paragraph || b is Heading || b is Quote
    }

    /// Indices (in block order) of the blocks that carry text paragraphs.
    pub open spec fn text_block_indices_upto(blocks: Seq<ChapterBlock>, n: int) -> Seq<int>
        decreases n,
    {
        if n <= 0 {
            seq![]
        } else if Self::is_text_block(blocks[n - 1]) {
            Self::text_block_indices_upto(blocks, n - 1).push(n - 1)
        } else {
            Self::text_block_indices_upto(blocks, n - 1)
        }
    }

    /// Positions in `blocks` of the text paragraphs (`text_paragraphs`).
    pub fn text_paragraphs(&self) -> (r: Vec<usize>)
        ensures
            r@.map_values(|i: usize| i as int) == Self::text_block_indices_upto(
                self.blocks@,
                self.blocks@.len() as int,
            ),
    {
        let mut r: Vec<usize> = Vec::new();
        let mut i: usize = 0;
        while i < self.blocks.len()
            invariant
                i <= self.blocks.len(),
                r@.map_values(|i: usize| i as int) == Self::text_block_indices_upto(
                    self.blocks@,
                    i as int,
                ),
            decreases self.blocks.len() - i,
        {
            let is_text = match &self.blocks[i] {
                ChapterBlock::Paragraph(_) | ChapterBlock::Heading(_) | ChapterBlock::Quote(_) => {
                    true
                },
                _ => false,
            };
            if is_text {
                let ghost before = r@;
                r.push(i);
                assert(r@.map_values(|i: usize| i as int) == before.map_values(
                    |i: usize| i as int,
                ).push(i as int));
            }
            i = i + 1;
        }
        r
    }
}

#[derive(Debug)]
pub struct TocItem {
    pub id: String,
    pub title: String,
    pub chapter_index: Option<usize>,
    pub href: Option<String>,
    pub depth: u8,
    pub children: Vec<TocItem>,
    pub is_generated: bool,
}

#[derive(Debug)]
pub struct BookMetadata {
    pub title: String,
    pub author: Option<String>,
    pub language: Option<String>,
    pub publisher: Option<String>,
    pub description: Option<String>,
    pub identifier: Option<String>,
    pub series: Option<String>,
    pub cover_title: Option<String>,
    pub created_at: Option<String>,
    pub modified_at: Option<String>,
}

/// Index entry for an image asset extracted from a book.
#[derive(Debug)]
pub struct BookImageAsset {
    pub asset_id: String,
    pub source_href: String,
    /// Resolved full path inside the EPUB archive.
    pub asset_path: String,
    pub media_type: Option<String>,
    pub cache_key: Option<String>,
    pub width_hint: Option<u32>,
    pub height_hint: Option<u32>,
    pub alt_text: Option<String>,
    pub image_bytes: Option<Vec<u8>>,
}

#[derive(Debug)]
pub struct BookAssets {
    pub cover_image_bytes: Option<Vec<u8>>,
    pub cover_media_type: Option<String>,
    pub has_images: bool,
    pub embedded_styles_detected: bool,
    pub image_assets: Vec<BookImageAsset>,
}

#[derive(Debug)]
pub struct BookLoadInfo {
    pub parser_name: String,
    pub parse_warnings: Vec<String>,
    pub chapter_count: usize,
    pub loaded_at: String,
    pub source_file_size: u64,
    pub load_duration_ms: u64,
}

#[derive(Debug)]
pub struct Book {
    pub id: String,
    pub source_path: String,
    pub format: BookFormat,
    pub metadata: BookMetadata,
    pub toc: Vec<TocItem>,
    pub chapters: Vec<Chapter>,
    pub assets: BookAssets,
    pub load_info: BookLoadInfo,
}

// ---------------------------------------------------------------------------
// Reading state
// ---------------------------------------------------------------------------

#[derive(Debug)]
pub struct Bookmark {
    pub id: String,
    pub book_id: String,
    pub chapter_index: usize,
    pub paragraph_index: Option<usize>,
    pub title: String,
    pub snippet: String,
    pub created_at: String,
    pub note: Option<String>,
}

/// Positioning primitive: chapter id, block id and character offset.
#[derive(Debug)]
pub struct ReaderAnchor {
    pub chapter_id: String,
    pub block_id: String,
    pub char_offset: usize,
}

#[derive(Debug)]
pub struct ReadingSession {
    pub session_id: String,
    pub book_id: String,
    pub started_at: String,
    pub ended_at: String,
    pub active_seconds: u64,
    pub chapter_start: usize,
    pub chapter_end: usize,
    pub nav_events: u32,
    pub device_id: Option<String>,
}

#[derive(Debug)]
pub struct ReadingAggregates {
    pub total_active_seconds: u64,
    pub daily_seconds: Vec<(String, u64)>,
    pub per_book_seconds: Vec<(String, u64)>,
    pub hourly_seconds: Vec<(String, u64)>,
    pub active_dates: Vec<String>,
    pub books_completed: u32,
    pub total_nav_events: u64,
    pub computed_at: String,
}

impl Default for ReadingAggregates {
    fn default() -> (r: ReadingAggregates)
        ensures
            r.total_active_seconds == 0,
            r.daily_seconds@.len() == 0,
            r.per_book_seconds@.len() == 0,
            r.hourly_seconds@.len() == 0,
            r.active_dates@.len() == 0,
            r.books_completed == 0,
            r.total_nav_events == 0,
            r.computed_at@.len() == 0,
    {
        ReadingAggregates {
            total_active_seconds: 0,
            daily_seconds: Vec::new(),
            per_book_seconds: Vec::new(),
            hourly_seconds: Vec::new(),
            active_dates: Vec::new(),
            books_completed: 0,
            total_nav_events: 0,
            computed_at: String::new(),
        }
    }
}

#[derive(Debug)]
pub struct ReadingStatsSnapshot {
    pub total_read_seconds: u64,
    pub last_read_at: Option<String>,
    pub bookmark_count: usize,
    pub last_chapter_index: Option<usize>,
}

impl Default for ReadingStatsSnapshot {
    fn default() -> (r: ReadingStatsSnapshot)
        ensures
            r.total_read_seconds == 0,
            r.last_read_at is None,
            r.bookmark_count == 0,
            r.last_chapter_index is None,
    {
        ReadingStatsSnapshot {
            total_read_seconds: 0,
            last_read_at: None,
            bookmark_count: 0,
            last_chapter_index: None,
        }
    }
}

#[derive(Debug)]
pub struct SearchQuery {
    pub keyword: String,
    pub case_sensitive: bool,
    pub scope: SearchScope,
}

#[derive(Debug)]
pub struct TagGroup {
    pub id: String,
    pub name: String,
    pub color: Option<String>,
    pub sort_order: i32,
}

#[derive(Debug)]
pub struct LibraryViewState {
    pub search_query: String,
    pub sort_mode: LibrarySortMode,
    pub filter_mode: LibraryFilterMode,
    pub selected_book_id: Option<String>,
}

impl Default for LibraryViewState {
    fn default() -> (r: LibraryViewState)
        ensures
            r.search_query@.len() == 0,
            r.sort_mode == LibrarySortMode::LastOpenedDesc,
            r.filter_mode == LibraryFilterMode::All,
            r.selected_book_id is None,
    {
        LibraryViewState {
            search_query: String::new(),
            sort_mode: LibrarySortMode::LastOpenedDesc,
            filter_mode: LibraryFilterMode::All,
            selected_book_id: None,
        }
    }
}

#[derive(Debug)]
pub struct DatabaseConfig {
    pub backend: DatabaseBackendType,
    pub path: Option<String>,
    pub connection_string: Option<String>,
    pub max_connections: u32,
}

/// Connection limit used when a configuration leaves it out.
pub fn default_max_connections() -> (n: u32)
    ensures
        n == 5,
{
    5
}

impl Default for DatabaseConfig {
    fn default() -> (r: DatabaseConfig)
        ensures
            r.backend == DatabaseBackendType::Sqlite,
            r.path is None,
            r.connection_string is None,
            r.max_connections == 5,
    {
        DatabaseConfig {
            backend: DatabaseBackendType::Sqlite,
            path: None,
            connection_string: None,
            max_connections: default_max_connections(),
        }
    }
}

/// Whether a flag is unset (links that are not footnotes omit the flag).
pub fn is_false(b: &bool) -> (r: bool)
    ensures
        r == !*b,
{
    !*b
}

#[derive(Debug)]
pub struct TtsState {
    pub enabled: bool,
    pub provider: Option<TtsProviderKind>,
    pub is_generating: bool,
    pub current_book_id: Option<String>,
    pub current_chapter_index: Option<usize>,
    pub current_segment_index: Option<usize>,
    pub last_error: Option<String>,
    pub last_test_at: Option<String>,
}

impl Default for TtsState {
    fn default() -> (r: TtsState)
        ensures
            !r.enabled,
            r.provider is None,
            !r.is_generating,
            r.current_book_id is None,
            r.current_chapter_index is None,
            r.current_segment_index is None,
            r.last_error is None,
            r.last_test_at is None,
    {
        TtsState {
            enabled: false,
            provider: None,
            is_generating: false,
            current_book_id: None,
            current_chapter_index: None,
            current_segment_index: None,
            last_error: None,
            last_test_at: None,
        }
    }
}

#[derive(Debug)]
pub struct PlaybackState {
    pub status: PlaybackStatus,
    pub current_book_id: Option<String>,
    pub current_chapter_index: Option<usize>,
    pub current_segment_index: Option<usize>,
    pub current_paragraph_indices: Vec<usize>,
    pub progress_ms: Option<u64>,
    pub duration_ms: Option<u64>,
}

impl Default for PlaybackState {
    fn default() -> (r: PlaybackState)
        ensures
            r.status == PlaybackStatus::Idle,
            r.current_book_id is None,
            r.current_chapter_index is None,
            r.current_segment_index is None,
            r.current_paragraph_indices@.len() == 0,
            r.progress_ms is None,
            r.duration_ms is None,
    {
        PlaybackState {
            status: PlaybackStatus::Idle,
            current_book_id: None,
            current_chapter_index: None,
            current_segment_index: None,
            current_paragraph_indices: Vec::new(),
            progress_ms: None,
            duration_ms: None,
        }
    }
}

#[derive(Debug)]
pub struct SessionState {
    pub tts_state: TtsState,
    pub playback_state: PlaybackState,
    pub status_message: String,
    pub status_message_set_at: Option<String>,
    pub last_error: Option<AppError>,
}

impl Default for SessionState {
    fn default() -> (r: SessionState)
        ensures
            !r.tts_state.enabled,
            r.playback_state.status == PlaybackStatus::Idle,
            r.status_message@ == "就绪"@,
            r.status_message_set_at is None,
            r.last_error is None,
    {
        SessionState {
            tts_state: TtsState::default(),
            playback_state: PlaybackState::default(),
            status_message: "就绪".to_owned(),
            status_message_set_at: None,
            last_error: None,
        }
    }
}

#[derive(Debug)]
pub struct UiState {
    pub screen: ScreenKind,
    pub left_panel_tab: LeftPanelTab,
    pub is_loading: bool,
    pub pending_open_path: Option<String>,
    pub last_attempted_path: Option<String>,
    pub loading_book_id: Option<String>,
    pub loading_book_title: Option<String>,
    pub loading_book_author: Option<String>,
    pub loading_book_cover_key: Option<String>,
}

impl Default for UiState {
    fn default() -> (r: UiState)
        ensures
            r.screen == ScreenKind::EmptyLibrary,
            r.left_panel_tab == LeftPanelTab::TableOfContents,
            !r.is_loading,
            r.pending_open_path is None,
            r.last_attempted_path is None,
            r.loading_book_id is None,
            r.loading_book_title is None,
            r.loading_book_author is None,
            r.loading_book_cover_key is None,
    {
        UiState {
            screen: ScreenKind::EmptyLibrary,
            left_panel_tab: LeftPanelTab::TableOfContents,
            is_loading: false,
            pending_open_path: None,
            last_attempted_path: None,
            loading_book_id: None,
            loading_book_title: None,
            loading_book_author: None,
            loading_book_cover_key: None,
        }
    }
}

/// Result handed from a speech-synthesis worker to the main loop: the audio
/// bytes, their media type and the paragraphs they cover; or the failure text.
#[derive(Debug)]
pub enum TtsThreadResult {
    SynthesisCompleted(Vec<u8>, String, Vec<usize>),
    SynthesisFailed(String),
}

} // verus!
