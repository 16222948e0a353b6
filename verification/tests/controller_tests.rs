use light_reader::controller::{controller_step, ControllerEvent, ControllerState};
use light_reader::domain::{
    AppError, Book, BookAssets, BookFormat, BookLoadInfo, BookMetadata, Bookmark, Chapter,
    ChapterBlock, FileHealth, Paragraph, ParagraphKind, ScreenKind,
};
use light_reader::library::ReadFraction;
use light_reader::parser_base::ParseResult;
use light_reader::reducer::{CoreAction, CoreState, ReadingProgress};
use light_reader::txt::TxtParser;

const T0: &str = "2024-01-01T00:00:00+00:00";
const T1: &str = "2024-01-01T00:05:00+00:00";

fn chapter(index: usize, text: &str) -> Chapter {
    Chapter {
        id: format!("ch-{}", index),
        index,
        title: format!("Chapter {}", index + 1),
        raw_title: None,
        blocks: vec![ChapterBlock::Paragraph(Paragraph {
            index: 0,
            text: text.to_string(),
            kind: ParagraphKind::Body,
            indent_level: 0,
            source_line_hint: None,
            links: Vec::new(),
        })],
        word_count: 0,
        char_count: 0,
        source_href: None,
        anchor: None,
        anchors: Vec::new(),
        warnings: Vec::new(),
    }
}

fn book() -> Book {
    Book {
        id: "book-1".to_string(),
        source_path: "/books/a.txt".to_string(),
        format: BookFormat::Txt,
        metadata: BookMetadata {
            title: "A".to_string(),
            author: Some("Au".to_string()),
            language: None,
            publisher: None,
            description: None,
            identifier: None,
            series: None,
            cover_title: None,
            created_at: None,
            modified_at: None,
        },
        toc: Vec::new(),
        chapters: vec![chapter(0, "one"), chapter(1, "two"), chapter(2, "three")],
        assets: BookAssets {
            cover_image_bytes: None,
            cover_media_type: None,
            has_images: false,
            embedded_styles_detected: false,
            image_assets: Vec::new(),
        },
        load_info: BookLoadInfo {
            parser_name: "TxtParser".to_string(),
            parse_warnings: Vec::new(),
            chapter_count: 3,
            loaded_at: T0.to_string(),
            source_file_size: 0,
            load_duration_ms: 0,
        },
    }
}

fn fresh() -> ControllerState {
    ControllerState { core: CoreState::default(), total_read_seconds_at_session_start: 0 }
}

fn opened() -> ControllerState {
    let mut st = fresh();
    let a = controller_step(&mut st, ControllerEvent::OpenBookSelected("/books/a.txt".to_string()), T0, 1);
    assert_eq!(a.load_book.as_deref(), Some("/books/a.txt"));
    controller_step(&mut st, ControllerEvent::BookLoaded(Ok(book()), None, Vec::new(), true), T0, 2);
    st
}

#[test]
fn opening_a_file_asks_for_it_and_shows_loading() {
    let mut st = fresh();
    let a = controller_step(&mut st, ControllerEvent::OpenBookSelected("/books/a.txt".to_string()), T0, 1);
    assert_eq!(a.load_book.as_deref(), Some("/books/a.txt"));
    assert_eq!(st.core.ui_state.screen, ScreenKind::LoadingBook);
    assert!(st.core.ui_state.is_loading);
    assert_eq!(st.core.status_message, "正在打开文件: /books/a.txt");
    assert_eq!(st.core.ui_state.last_attempted_path.as_deref(), Some("/books/a.txt"));
}

#[test]
fn loaded_book_is_recorded_in_library_and_recent_list() {
    let mut st = fresh();
    controller_step(&mut st, ControllerEvent::OpenBookSelected("/books/a.txt".to_string()), T0, 1);
    let a = controller_step(&mut st, ControllerEvent::BookLoaded(Ok(book()), None, Vec::new(), true), T0, 2);
    assert!(a.save_library && a.save_recent);
    assert_eq!(st.core.ui_state.screen, ScreenKind::Reader);
    assert_eq!(st.core.recent_books[0].book_id, "book-1");
    let item = &st.core.library_index.items[0];
    assert_eq!(item.book_id, "book-1");
    assert_eq!(item.title, "A");
    assert_eq!(item.chapter_count, 3);
    assert_eq!(item.progress, ReadFraction { read: 1, total: 3 });
    assert_eq!(item.imported_at, T0);
    assert_eq!(item.file_health, FileHealth::Healthy);
    assert_eq!(item.stats.last_chapter_index, Some(0));
}

#[test]
fn failed_load_shows_error() {
    let mut st = fresh();
    let err = AppError::new("FILE_OPEN_FAILED", "解析失败");
    let a = controller_step(&mut st, ControllerEvent::BookLoaded(Err(err), None, Vec::new(), true), T0, 1);
    assert!(!a.save_library);
    assert_eq!(st.core.ui_state.screen, ScreenKind::Error);
    assert_eq!(st.core.status_message, "解析失败");
}

#[test]
fn reopening_restores_progress_and_bookmarks() {
    let mut st = fresh();
    let saved = ReadingProgress {
        book_id: "book-1".to_string(),
        chapter_index: 2,
        paragraph_index: Some(0),
        last_read_at: T0.to_string(),
        session_read_seconds: 30,
        total_read_seconds: 900,
    };
    let mark = Bookmark {
        id: "bm-1".to_string(),
        book_id: "book-1".to_string(),
        chapter_index: 1,
        paragraph_index: None,
        title: "Chapter 2".to_string(),
        snippet: "two".to_string(),
        created_at: T0.to_string(),
        note: None,
    };
    controller_step(&mut st, ControllerEvent::BookLoaded(Ok(book()), Some(saved), vec![mark], true), T1, 2);
    assert_eq!(st.core.reading_progress.as_ref().unwrap().chapter_index, 2);
    assert_eq!(st.total_read_seconds_at_session_start, 900);
    assert_eq!(st.core.bookmarks.len(), 1);
    assert_eq!(st.core.library_index.items[0].progress, ReadFraction { read: 3, total: 3 });
}

#[test]
fn navigation_saves_progress_and_syncs_stats() {
    let mut st = opened();
    st.total_read_seconds_at_session_start = 100;
    let a = controller_step(&mut st, ControllerEvent::Act(CoreAction::NextChapter), T1, 3);
    assert!(a.save_progress);
    controller_step(&mut st, ControllerEvent::ProgressSaved(60), T1, 4);
    let stats = &st.core.library_index.items[0].stats;
    assert_eq!(stats.total_read_seconds, 160);
    assert_eq!(stats.last_chapter_index, Some(1));
    assert_eq!(stats.last_read_at.as_deref(), Some(T1));
}

#[test]
fn bookmarks_sync_their_count_to_the_library() {
    let mut st = opened();
    let a = controller_step(&mut st, ControllerEvent::Act(CoreAction::AddBookmarkRequested), T1, 5);
    assert!(a.save_bookmarks);
    assert_eq!(st.core.library_index.items[0].stats.bookmark_count, 1);
}

#[test]
fn closing_saves_first_then_records_progress() {
    let mut st = opened();
    controller_step(&mut st, ControllerEvent::Act(CoreAction::GoToChapter(1)), T1, 3);
    let a = controller_step(&mut st, ControllerEvent::Act(CoreAction::CloseBook), T1, 4);
    assert!(a.save_progress && a.save_bookmarks && a.finish_close);
    assert!(st.core.current_book.is_some());
    let a = controller_step(&mut st, ControllerEvent::CloseSaved, T1, 5);
    assert!(a.save_library);
    assert!(st.core.current_book.is_none());
    assert_eq!(st.core.ui_state.screen, ScreenKind::EmptyLibrary);
    assert_eq!(st.core.library_index.items[0].progress, ReadFraction { read: 2, total: 3 });
}

#[test]
fn recent_selection_checks_the_path_then_opens() {
    let mut st = opened();
    controller_step(&mut st, ControllerEvent::CloseSaved, T1, 3);
    let a = controller_step(&mut st, ControllerEvent::Act(CoreAction::RecentBookSelected("book-1".to_string())), T1, 4);
    assert_eq!(a.check_open.as_deref(), Some("/books/a.txt"));
    assert!(st.core.ui_state.pending_open_path.is_none());
    let a = controller_step(&mut st, ControllerEvent::OpenIfExists("/books/a.txt".to_string(), false), T1, 5);
    assert!(a.load_book.is_none());
    let a = controller_step(&mut st, ControllerEvent::OpenIfExists("/books/a.txt".to_string(), true), T1, 6);
    assert_eq!(a.load_book.as_deref(), Some("/books/a.txt"));
}

#[test]
fn library_selection_sets_loading_context() {
    let mut st = opened();
    controller_step(&mut st, ControllerEvent::CloseSaved, T1, 3);
    let a = controller_step(&mut st, ControllerEvent::Act(CoreAction::LibraryBookSelected("book-1".to_string())), T1, 4);
    assert_eq!(a.check_open.as_deref(), Some("/books/a.txt"));
    assert_eq!(st.core.ui_state.loading_book_title.as_deref(), Some("A"));
    assert_eq!(st.core.ui_state.loading_book_author.as_deref(), Some("Au"));
}

#[test]
fn removing_from_library_cleans_up() {
    let mut st = opened();
    let a = controller_step(&mut st, ControllerEvent::Act(CoreAction::RemoveFromLibrary("book-1".to_string())), T1, 3);
    assert!(a.save_library);
    assert_eq!(a.delete_book_data.as_deref(), Some("book-1"));
    assert!(st.core.library_index.items.is_empty());
}

#[test]
fn import_keeps_the_first_import_time() {
    let mut st = fresh();
    let parsed: ParseResult = TxtParser::new().parse_bytes("第1章 甲\n\n正文。".as_bytes());
    let a = controller_step(
        &mut st,
        ControllerEvent::ImportParsed("/books/新书.txt".to_string(), "id-1".to_string(), Ok(parsed), true),
        T0,
        1,
    );
    assert!(a.save_library);
    let item = &st.core.library_index.items[0];
    assert_eq!(item.title, "新书");
    assert_eq!(item.format, BookFormat::Txt);
    assert_eq!(item.chapter_count, 1);
    assert_eq!(item.imported_at, T0);
    assert_eq!(st.core.library_index.last_selected_book_id.as_deref(), Some("id-1"));
    let again: ParseResult = TxtParser::new().parse_bytes("第1章 甲\n\n正文。\n\n第2章 乙\n\n更多。".as_bytes());
    controller_step(
        &mut st,
        ControllerEvent::ImportParsed("/books/新书.txt".to_string(), "id-1".to_string(), Ok(again), false),
        T1,
        2,
    );
    assert_eq!(st.core.library_index.items.len(), 1);
    let item = &st.core.library_index.items[0];
    assert_eq!(item.imported_at, T0);
    assert_eq!(item.chapter_count, 2);
    assert_eq!(item.file_health, FileHealth::Missing);
}

#[test]
fn library_home_loads_the_stored_index() {
    let mut st = opened();
    let a = controller_step(&mut st, ControllerEvent::Act(CoreAction::OpenLibraryHome), T1, 3);
    assert!(a.load_library);
    controller_step(&mut st, ControllerEvent::LibraryLoaded(light_reader::library::LibraryIndex::default()), T1, 4);
    assert!(st.core.library_index.items.is_empty());
    assert_eq!(st.core.ui_state.screen, ScreenKind::EmptyLibrary);
}
