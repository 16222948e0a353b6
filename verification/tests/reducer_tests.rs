use light_reader::domain::{
    AppError, Book, BookAssets, BookFormat, BookLoadInfo, BookMetadata, Chapter, ChapterBlock,
    FileHealth, LibraryFilterMode, LibrarySortMode, Paragraph, ParagraphKind,
    ReadingStatsSnapshot, ScreenKind, SearchQuery, SearchScope, ThemeKind,
};
use light_reader::library::{LibraryItem, ReadFraction};
use light_reader::reducer::{reduce, CoreAction, CoreState, ReadingProgress};

const T0: &str = "2024-01-01T00:00:00+00:00";
const T1: &str = "2024-01-01T00:01:00+00:00";

fn para(index: usize, text: &str) -> Paragraph {
    Paragraph {
        index,
        text: text.to_string(),
        kind: ParagraphKind::Body,
        indent_level: 0,
        source_line_hint: None,
        links: Vec::new(),
    }
}

fn chapter(index: usize, title: &str, text: &str) -> Chapter {
    Chapter {
        id: format!("ch-{}", index + 1),
        index,
        title: title.to_string(),
        raw_title: None,
        blocks: vec![ChapterBlock::Paragraph(para(0, text))],
        word_count: 0,
        char_count: 0,
        source_href: None,
        anchor: None,
        anchors: Vec::new(),
        warnings: Vec::new(),
    }
}

fn sample_book() -> Book {
    Book {
        id: "book-1".to_string(),
        source_path: "/tmp/sample.txt".to_string(),
        format: BookFormat::Txt,
        metadata: BookMetadata {
            title: "Sample".to_string(),
            author: Some("Tester".to_string()),
            language: None,
            publisher: None,
            description: None,
            identifier: None,
            series: None,
            cover_title: None,
            created_at: None,
            modified_at: None,
        },
        toc: Vec::new(),
        chapters: vec![chapter(0, "Chapter 1", "Body"), chapter(1, "Chapter 2", "Body 2")],
        assets: BookAssets {
            cover_image_bytes: None,
            cover_media_type: None,
            has_images: false,
            embedded_styles_detected: false,
            image_assets: Vec::new(),
        },
        load_info: BookLoadInfo {
            parser_name: "Test".to_string(),
            parse_warnings: Vec::new(),
            chapter_count: 2,
            loaded_at: T0.to_string(),
            source_file_size: 0,
            load_duration_ms: 0,
        },
    }
}

/// The state right after the sample book was opened: chapter 0, reader screen.
fn opened_state() -> CoreState {
    let mut state = CoreState::default();
    state.current_book = Some(sample_book());
    state.reading_progress = Some(ReadingProgress {
        book_id: "book-1".to_string(),
        chapter_index: 0,
        paragraph_index: None,
        last_read_at: T0.to_string(),
        session_read_seconds: 0,
        total_read_seconds: 0,
    });
    state.ui_state.screen = ScreenKind::Reader;
    state.status_message = "内容已加载，共 2 章".to_string();
    state.status_message_set_at = Some(T0.to_string());
    state.session_started_at = Some(T0.to_string());
    state
}

fn chapter_of(state: &CoreState) -> Option<usize> {
    state.reading_progress.as_ref().map(|p| p.chapter_index)
}

#[test]
fn chapter_navigation_updates_progress() {
    let mut state = opened_state();
    reduce(&mut state, CoreAction::GoToChapter(1), T1, 1);
    assert_eq!(chapter_of(&state), Some(1));
    reduce(&mut state, CoreAction::PrevChapter, T1, 1);
    assert_eq!(chapter_of(&state), Some(0));
    reduce(&mut state, CoreAction::NextChapter, T1, 1);
    assert_eq!(chapter_of(&state), Some(1));
}

#[test]
fn chapter_navigation_preserves_session_time() {
    let mut state = opened_state();
    if let Some(ref mut progress) = state.reading_progress {
        progress.session_read_seconds = 120;
        progress.total_read_seconds = 3600;
    }
    reduce(&mut state, CoreAction::GoToChapter(1), T1, 1);
    let progress = state.reading_progress.as_ref().unwrap();
    assert_eq!(progress.chapter_index, 1);
    assert_eq!(progress.session_read_seconds, 120);
    assert_eq!(progress.total_read_seconds, 3600);
    assert_eq!(progress.paragraph_index, None);
    reduce(&mut state, CoreAction::NextChapter, T1, 1);
    let progress = state.reading_progress.as_ref().unwrap();
    assert_eq!(progress.chapter_index, 1);
    assert_eq!(progress.session_read_seconds, 120);
    assert_eq!(progress.total_read_seconds, 3600);
}

#[test]
fn go_to_chapter_clamps_and_starts_progress() {
    let mut state = opened_state();
    state.reading_progress = None;
    reduce(&mut state, CoreAction::GoToChapter(99), T1, 1);
    let progress = state.reading_progress.as_ref().unwrap();
    assert_eq!(progress.book_id, "book-1");
    assert_eq!(progress.chapter_index, 1);
    assert_eq!(progress.last_read_at, T1);
    let mut empty = CoreState::default();
    reduce(&mut empty, CoreAction::GoToChapter(1), T1, 1);
    assert!(empty.reading_progress.is_none());
}

#[test]
fn theme_change_updates_reader_settings() {
    let mut state = CoreState::default();
    reduce(&mut state, CoreAction::ThemeChanged(ThemeKind::Sepia), T1, 1);
    assert_eq!(state.theme, ThemeKind::Sepia);
}

#[test]
fn toggle_sidebar_flips_collapsed() {
    let mut state = CoreState::default();
    assert!(!state.flags.sidebar_collapsed);
    reduce(&mut state, CoreAction::ToggleSidebar, T1, 1);
    assert!(state.flags.sidebar_collapsed);
    reduce(&mut state, CoreAction::ToggleSidebar, T1, 1);
    assert!(!state.flags.sidebar_collapsed);
}

#[test]
fn toggle_settings_panel() {
    let mut state = CoreState::default();
    assert!(!state.flags.show_settings_panel);
    reduce(&mut state, CoreAction::ToggleSettingsPanel, T1, 1);
    assert!(state.flags.show_settings_panel);
    reduce(&mut state, CoreAction::ToggleSettingsPanel, T1, 1);
    assert!(!state.flags.show_settings_panel);
}

#[test]
fn toggle_search_panel_sets_focus() {
    let mut state = CoreState::default();
    assert!(!state.flags.show_search_panel);
    reduce(&mut state, CoreAction::ToggleSearchPanel, T1, 1);
    assert!(state.flags.show_search_panel);
    assert!(state.flags.focused_search_input);
    reduce(&mut state, CoreAction::ToggleSearchPanel, T1, 1);
    assert!(!state.flags.show_search_panel);
}

#[test]
fn toggle_search_case_sensitive_updates_query() {
    let mut state = CoreState::default();
    assert!(state.search_state.current_query.is_none());
    reduce(&mut state, CoreAction::ToggleSearchCaseSensitive, T1, 1);
    assert!(state.search_state.current_query.as_ref().unwrap().case_sensitive);
    reduce(&mut state, CoreAction::ToggleSearchCaseSensitive, T1, 1);
    assert!(!state.search_state.current_query.as_ref().unwrap().case_sensitive);
}

#[test]
fn close_book_resets_to_empty_library() {
    let mut state = opened_state();
    assert!(state.current_book.is_some());
    assert_eq!(state.ui_state.screen, ScreenKind::Reader);
    reduce(&mut state, CoreAction::CloseBook, T1, 1);
    assert!(state.current_book.is_none());
    assert!(state.reading_progress.is_none());
    assert!(state.bookmarks.is_empty());
    assert_eq!(state.ui_state.screen, ScreenKind::EmptyLibrary);
    assert_eq!(state.status_message, "就绪");
    assert!(state.session_started_at.is_none());
}

#[test]
fn add_bookmark_from_current_position() {
    let mut state = opened_state();
    reduce(&mut state, CoreAction::AddBookmarkRequested, T1, 1700000000123);
    assert_eq!(state.bookmarks.len(), 1);
    assert_eq!(state.bookmarks[0].chapter_index, 0);
    assert_eq!(state.bookmarks[0].book_id, "book-1");
    assert_eq!(state.status_message, "已添加书签");
    assert_eq!(state.bookmarks[0].id, "bm-1700000000123");
    assert_eq!(state.bookmarks[0].title, "Chapter 1");
    assert_eq!(state.bookmarks[0].snippet, "Body");
    assert_eq!(state.bookmarks[0].created_at, T1);
}

#[test]
fn bookmark_snippet_is_cut_to_100_characters() {
    let mut state = opened_state();
    let long = "字".repeat(150);
    state.current_book.as_mut().unwrap().chapters[0].blocks =
        vec![ChapterBlock::Separator, ChapterBlock::Paragraph(para(0, "first")), ChapterBlock::Quote(para(1, &long))];
    state.reading_progress.as_mut().unwrap().paragraph_index = Some(1);
    reduce(&mut state, CoreAction::AddBookmarkRequested, T1, 5);
    assert_eq!(state.bookmarks[0].snippet, "字".repeat(100));
    state.reading_progress.as_mut().unwrap().paragraph_index = Some(7);
    reduce(&mut state, CoreAction::AddBookmarkRequested, T1, 6);
    assert_eq!(state.bookmarks[1].snippet, "first");
}

#[test]
fn add_bookmark_without_book_does_nothing() {
    let mut state = CoreState::default();
    reduce(&mut state, CoreAction::AddBookmarkRequested, T1, 1);
    assert!(state.bookmarks.is_empty());
    assert_eq!(state.status_message, "就绪");
}

#[test]
fn remove_bookmark() {
    let mut state = opened_state();
    reduce(&mut state, CoreAction::AddBookmarkRequested, T1, 1);
    let bm_id = state.bookmarks[0].id.clone();
    reduce(&mut state, CoreAction::RemoveBookmark(bm_id), T1, 1);
    assert!(state.bookmarks.is_empty());
}

#[test]
fn jump_to_bookmark() {
    let mut state = opened_state();
    reduce(&mut state, CoreAction::GoToChapter(1), T1, 1);
    reduce(&mut state, CoreAction::AddBookmarkRequested, T1, 2);
    let bm_id = state.bookmarks[0].id.clone();
    reduce(&mut state, CoreAction::GoToChapter(0), T1, 3);
    assert_eq!(chapter_of(&state), Some(0));
    reduce(&mut state, CoreAction::JumpToBookmark(bm_id), T1, 4);
    assert_eq!(chapter_of(&state), Some(1));
}

#[test]
fn jump_to_bookmark_restores_paragraph() {
    let mut state = opened_state();
    state.reading_progress.as_mut().unwrap().paragraph_index = Some(0);
    reduce(&mut state, CoreAction::AddBookmarkRequested, T1, 9);
    reduce(&mut state, CoreAction::GoToChapter(1), T1, 10);
    assert_eq!(state.reading_progress.as_ref().unwrap().paragraph_index, None);
    reduce(&mut state, CoreAction::JumpToBookmark("bm-9".to_string()), T1, 11);
    assert_eq!(chapter_of(&state), Some(0));
    assert_eq!(state.reading_progress.as_ref().unwrap().paragraph_index, Some(0));
    reduce(&mut state, CoreAction::JumpToBookmark("bm-none".to_string()), T1, 12);
    assert_eq!(chapter_of(&state), Some(0));
}

#[test]
fn search_query_changed() {
    let mut state = CoreState::default();
    let query = SearchQuery {
        keyword: "test".to_string(),
        case_sensitive: false,
        scope: SearchScope::CurrentChapter,
    };
    reduce(&mut state, CoreAction::SearchQueryChanged(query), T1, 1);
    assert!(state.search_state.current_query.is_some());
    assert_eq!(state.search_state.current_query.as_ref().unwrap().keyword, "test");
}

#[test]
fn clear_search_resets_state() {
    let mut state = CoreState::default();
    state.search_state.is_searching = true;
    reduce(&mut state, CoreAction::ClearSearch, T1, 1);
    assert!(!state.search_state.is_searching);
    assert!(state.search_state.current_query.is_none());
}

#[test]
fn status_message_timed_out_clears_message() {
    let mut state = CoreState::default();
    state.status_message = "测试消息".to_string();
    reduce(&mut state, CoreAction::StatusMessageTimedOut, T1, 1);
    assert_eq!(state.status_message, "就绪");
}

#[test]
fn status_message_timed_out_preserves_error() {
    let mut state = CoreState::default();
    state.status_message = "错误消息".to_string();
    state.last_error = Some(AppError::new("TEST", "error"));
    reduce(&mut state, CoreAction::StatusMessageTimedOut, T1, 1);
    assert_eq!(state.status_message, "错误消息");
}

#[test]
fn add_bookmark_sets_timestamp() {
    let mut state = opened_state();
    let before = state.status_message_set_at.clone();
    reduce(&mut state, CoreAction::AddBookmarkRequested, T1, 1);
    assert!(state.status_message_set_at.is_some());
    assert_ne!(state.status_message_set_at, before);
}

#[test]
fn close_book_clears_timestamp() {
    let mut state = opened_state();
    assert!(state.status_message_set_at.is_some());
    reduce(&mut state, CoreAction::CloseBook, T1, 1);
    assert!(state.status_message_set_at.is_none());
    assert_eq!(state.status_message, "就绪");
}

#[test]
fn status_message_timed_out_clears_timestamp() {
    let mut state = opened_state();
    assert!(state.status_message_set_at.is_some());
    reduce(&mut state, CoreAction::StatusMessageTimedOut, T1, 1);
    assert!(state.status_message_set_at.is_none());
}

#[test]
fn open_book_failure_shows_error_screen() {
    let mut state = CoreState::default();
    state.ui_state.is_loading = true;
    state.ui_state.pending_open_path = Some("/tmp/x.pdf".to_string());
    let err = AppError::new("UNSUPPORTED_FORMAT", "不支持的文件格式");
    reduce(&mut state, CoreAction::OpenBookFailed(err), T1, 1);
    assert_eq!(state.status_message, "不支持的文件格式");
    assert_eq!(state.status_message_set_at.as_deref(), Some(T1));
    assert_eq!(state.ui_state.screen, ScreenKind::Error);
    assert!(!state.ui_state.is_loading);
    assert!(state.ui_state.pending_open_path.is_none());
    assert_eq!(state.last_error.as_ref().unwrap().code, "UNSUPPORTED_FORMAT");
    reduce(&mut state, CoreAction::DismissError, T1, 1);
    assert!(state.last_error.is_none());
    assert_eq!(state.ui_state.screen, ScreenKind::EmptyLibrary);
}

#[test]
fn close_search_or_settings_closes_open_panels() {
    let mut state = CoreState::default();
    reduce(&mut state, CoreAction::ToggleSearchPanel, T1, 1);
    reduce(&mut state, CoreAction::ToggleSettingsPanel, T1, 1);
    reduce(&mut state, CoreAction::ToggleSearchCaseSensitive, T1, 1);
    reduce(&mut state, CoreAction::CloseSearchOrSettings, T1, 1);
    assert!(!state.flags.show_search_panel);
    assert!(!state.flags.show_settings_panel);
    assert!(state.search_state.current_query.is_none());
}

#[test]
fn open_library_home_sets_screen() {
    let mut state = CoreState::default();
    reduce(&mut state, CoreAction::OpenLibraryHome, T1, 1);
    assert_eq!(state.ui_state.screen, ScreenKind::EmptyLibrary);
}

#[test]
fn library_search_changed_updates_view_state() {
    let mut state = CoreState::default();
    reduce(&mut state, CoreAction::LibrarySearchChanged("三体".to_string()), T1, 1);
    assert_eq!(state.library_view_state.search_query, "三体");
}

#[test]
fn library_sort_changed_updates_view_state() {
    let mut state = CoreState::default();
    reduce(&mut state, CoreAction::LibrarySortChanged(LibrarySortMode::TitleAsc), T1, 1);
    assert_eq!(state.library_view_state.sort_mode, LibrarySortMode::TitleAsc);
}

#[test]
fn library_filter_changed_updates_view_state() {
    let mut state = CoreState::default();
    reduce(&mut state, CoreAction::LibraryFilterChanged(LibraryFilterMode::EpubOnly), T1, 1);
    assert_eq!(state.library_view_state.filter_mode, LibraryFilterMode::EpubOnly);
}

fn opened_by_action() -> CoreState {
    let mut state = CoreState::default();
    reduce(&mut state, CoreAction::OpenBookSucceeded(sample_book()), T0, 1);
    state
}

#[test]
fn open_book_succeeded_sets_timestamp() {
    let state = opened_by_action();
    assert!(state.status_message_set_at.is_some());
    assert!(state.status_message.contains("内容已加载"));
    assert_eq!(state.status_message, "内容已加载，共 2 章");
    assert_eq!(state.session_started_at.as_deref(), Some(T0));
    let progress = state.reading_progress.as_ref().unwrap();
    assert_eq!(progress.book_id, "book-1");
    assert_eq!(progress.chapter_index, 0);
}

#[test]
fn open_book_with_warnings_reports_them() {
    let mut state = CoreState::default();
    let mut book = sample_book();
    book.load_info.parse_warnings = vec!["a".to_string(), "b".to_string(), "c".to_string()];
    reduce(&mut state, CoreAction::OpenBookSucceeded(book), T0, 1);
    assert_eq!(state.status_message, "内容已加载，共 2 章（3 条告警）");
}

#[test]
fn library_open_book_updates_library_index() {
    let state = opened_by_action();
    assert_eq!(state.ui_state.screen, ScreenKind::Reader);
    assert!(state.current_book.is_some());
}

#[test]
fn search_submitted_finds_matches() {
    let mut state = opened_by_action();
    let query = SearchQuery {
        keyword: "Body".to_string(),
        case_sensitive: true,
        scope: SearchScope::EntireBook,
    };
    reduce(&mut state, CoreAction::SearchQueryChanged(query), T1, 1);
    reduce(&mut state, CoreAction::SearchSubmitted, T1, 1);
    assert!(!state.search_state.results.is_empty());
    assert_eq!(state.search_state.results.len(), 2);
    assert_eq!(state.search_state.last_search_at.as_deref(), Some(T1));
    assert!(state.search_state.selected_result_index.is_none());
}

#[test]
fn search_submitted_without_query_does_nothing() {
    let mut state = opened_by_action();
    reduce(&mut state, CoreAction::SearchSubmitted, T1, 1);
    assert!(state.search_state.results.is_empty());
    assert!(state.search_state.last_search_at.is_none());
}

#[test]
fn search_result_selected_jumps_to_chapter() {
    let mut state = opened_by_action();
    let query = SearchQuery {
        keyword: "Body 2".to_string(),
        case_sensitive: true,
        scope: SearchScope::EntireBook,
    };
    reduce(&mut state, CoreAction::SearchQueryChanged(query), T1, 1);
    reduce(&mut state, CoreAction::SearchSubmitted, T1, 1);
    let result_count = state.search_state.results.len();
    assert!(result_count > 0);
    reduce(&mut state, CoreAction::SearchResultSelected(0), T1, 1);
    assert_eq!(state.search_state.selected_result_index, Some(0));
    assert_eq!(chapter_of(&state), Some(1));
    assert_eq!(state.reading_progress.as_ref().unwrap().paragraph_index, Some(0));
}

#[test]
fn search_chinese_text_does_not_panic_on_utf8_boundary() {
    let text = "这是一段很长的中文测试文本，用于验证搜索摘要提取时不会因为UTF-8字符边界问题而崩溃。";
    let mut book = sample_book();
    book.chapters = vec![chapter(0, "中文章节", text)];
    let mut state = CoreState::default();
    reduce(&mut state, CoreAction::OpenBookSucceeded(book), T0, 1);
    let query = SearchQuery {
        keyword: "验证".to_string(),
        case_sensitive: true,
        scope: SearchScope::EntireBook,
    };
    reduce(&mut state, CoreAction::SearchQueryChanged(query), T1, 1);
    reduce(&mut state, CoreAction::SearchSubmitted, T1, 1);
    assert!(!state.search_state.results.is_empty());
    let snippet = &state.search_state.results[0].snippet;
    assert!(snippet.contains("验证"));
}

fn library_item(id: &str, title: &str, path: &str, health: FileHealth) -> LibraryItem {
    LibraryItem {
        book_id: id.to_string(),
        title: title.to_string(),
        author: None,
        format: BookFormat::Epub,
        source_path: path.to_string(),
        cover_cache_key: None,
        progress: ReadFraction { read: 0, total: 0 },
        last_opened_at: None,
        imported_at: T0.to_string(),
        chapter_count: 10,
        file_health: health,
        stats: ReadingStatsSnapshot::default(),
    }
}

#[test]
fn open_book_success_uses_actual_format_for_recent_item() {
    let mut state = CoreState::default();
    reduce(&mut state, CoreAction::OpenBookSucceeded(sample_book()), T0, 1);
    assert_eq!(state.recent_books[0].format, "txt");
    let mut epub = sample_book();
    epub.format = BookFormat::Epub;
    reduce(&mut state, CoreAction::OpenBookSucceeded(epub), T1, 2);
    assert_eq!(state.recent_books[0].format, "epub");
    assert_eq!(state.recent_books.len(), 1);
    assert_eq!(state.recent_books[0].last_opened_at, T1);
    assert_eq!(state.recent_books[0].last_progress, ReadFraction { read: 1, total: 2 });
}

#[test]
fn recent_list_keeps_twenty_newest_first() {
    let mut state = CoreState::default();
    for i in 0..25 {
        let mut b = sample_book();
        b.id = format!("book-{}", i);
        reduce(&mut state, CoreAction::OpenBookSucceeded(b), T0, 1);
    }
    assert_eq!(state.recent_books.len(), 20);
    assert_eq!(state.recent_books[0].book_id, "book-24");
    assert_eq!(state.recent_books[19].book_id, "book-5");
    let mut again = sample_book();
    again.id = "book-10".to_string();
    reduce(&mut state, CoreAction::OpenBookSucceeded(again), T1, 2);
    assert_eq!(state.recent_books.len(), 20);
    assert_eq!(state.recent_books[0].book_id, "book-10");
    assert_eq!(state.recent_books.iter().filter(|r| r.book_id == "book-10").count(), 1);
}

#[test]
fn recent_book_selected_sets_pending_path() {
    let mut state = CoreState::default();
    reduce(&mut state, CoreAction::OpenBookSucceeded(sample_book()), T0, 1);
    let book_id = state.current_book.as_ref().unwrap().id.clone();
    state.current_book = None;
    state.ui_state.screen = ScreenKind::EmptyLibrary;
    reduce(&mut state, CoreAction::RecentBookSelected(book_id), T1, 1);
    assert!(state.ui_state.pending_open_path.is_some());
    assert_eq!(state.ui_state.pending_open_path.as_deref(), Some("/tmp/sample.txt"));
}

#[test]
fn remove_recent_book() {
    let mut state = CoreState::default();
    reduce(&mut state, CoreAction::OpenBookSucceeded(sample_book()), T0, 1);
    assert_eq!(state.recent_books.len(), 1);
    reduce(&mut state, CoreAction::RemoveRecentBook("book-1".to_string()), T1, 1);
    assert!(state.recent_books.is_empty());
}

#[test]
fn clear_missing_recent_books_keeps_present_ones() {
    let mut state = CoreState::default();
    for i in 0..3 {
        let mut b = sample_book();
        b.id = format!("book-{}", i);
        reduce(&mut state, CoreAction::OpenBookSucceeded(b), T0, 1);
    }
    state.recent_books[1].is_missing = true;
    reduce(&mut state, CoreAction::ClearMissingRecentBooks, T1, 1);
    let ids: Vec<&str> = state.recent_books.iter().map(|r| r.book_id.as_str()).collect();
    assert_eq!(ids, vec!["book-2", "book-0"]);
}

#[test]
fn library_book_selected_sets_pending_path() {
    let mut state = CoreState::default();
    let path = "/tmp/test_book.epub";
    state.library_index.items.push(library_item("test-id", "测试书", path, FileHealth::Healthy));
    reduce(&mut state, CoreAction::LibraryBookSelected("test-id".to_string()), T1, 1);
    assert_eq!(state.ui_state.pending_open_path.as_deref(), Some(path));
    assert_eq!(state.library_view_state.selected_book_id.as_deref(), Some("test-id"));
}

#[test]
fn import_book_updates_or_inserts() {
    let mut state = CoreState::default();
    reduce(&mut state, CoreAction::ImportBookSucceeded(library_item("a", "A", "/a.epub", FileHealth::Healthy)), T1, 1);
    reduce(&mut state, CoreAction::ImportBookSucceeded(library_item("b", "B", "/b.epub", FileHealth::Healthy)), T1, 1);
    reduce(&mut state, CoreAction::ImportBookSucceeded(library_item("a", "A2", "/a2.epub", FileHealth::Missing)), T1, 1);
    assert_eq!(state.library_index.items.len(), 2);
    assert_eq!(state.library_index.items[0].title, "A2");
    assert_eq!(state.library_index.items[0].source_path, "/a2.epub");
    assert_eq!(state.library_index.items[1].title, "B");
    assert_eq!(state.library_index.last_selected_book_id.as_deref(), Some("a"));
}

#[test]
fn remove_from_library_removes_item() {
    let mut state = CoreState::default();
    state.library_index.items.push(library_item("rm-id", "待删除", "/tmp/rm.txt", FileHealth::Healthy));
    state.library_index.last_selected_book_id = Some("rm-id".to_string());
    assert_eq!(state.library_index.items.len(), 1);
    reduce(&mut state, CoreAction::RemoveFromLibrary("rm-id".to_string()), T1, 1);
    assert_eq!(state.library_index.items.len(), 0);
    assert!(state.library_index.last_selected_book_id.is_none());
}

#[test]
fn rescan_missing_books_updates_file_health() {
    let mut state = CoreState::default();
    state.library_index.items.push(library_item("missing-id", "缺失书", "/nonexistent/path/file.txt", FileHealth::Healthy));
    state.library_index.items.push(library_item("ok-id", "在", "/ok.txt", FileHealth::Missing));
    reduce(&mut state, CoreAction::RescanMissingBooks(vec![false, true]), T1, 1);
    assert_eq!(state.library_index.items[0].file_health, FileHealth::Missing);
    assert_eq!(state.library_index.items[1].file_health, FileHealth::Healthy);
}

#[test]
fn refresh_library_item_checks_one_book() {
    let mut state = CoreState::default();
    state.library_index.items.push(library_item("x", "X", "/x.txt", FileHealth::Healthy));
    reduce(&mut state, CoreAction::RefreshLibraryItem("x".to_string(), false), T1, 1);
    assert_eq!(state.library_index.items[0].file_health, FileHealth::Missing);
}

#[test]
fn repair_library_path_updates_source() {
    let mut state = CoreState::default();
    state.library_index.items.push(library_item("repair-id", "待修复", "/old/path.epub", FileHealth::Missing));
    reduce(
        &mut state,
        CoreAction::RepairLibraryPath {
            book_id: "repair-id".to_string(),
            new_path: "/new/path.epub".to_string(),
            exists: true,
        },
        T1,
        1,
    );
    let item = state.library_index.items.first().unwrap();
    assert_eq!(item.source_path, "/new/path.epub");
    assert_eq!(item.file_health, FileHealth::Healthy);
}
