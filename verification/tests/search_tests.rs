use light_reader::domain::{
    Book, BookAssets, BookFormat, BookLoadInfo, BookMetadata, Chapter, ChapterBlock,
    InlineImageBlock, Paragraph, ParagraphKind, SearchQuery, SearchScope,
};
use light_reader::search::execute_search;

fn para(index: usize, text: &str) -> Paragraph {
    Paragraph {
        index,
        text: text.to_string(),
        kind: ParagraphKind::Body,
        indent_level: 0,
        source_line_hint: None,
        links: Vec::new(),
    }
}

fn chapter(index: usize, title: &str, blocks: Vec<ChapterBlock>) -> Chapter {
    Chapter {
        id: format!("ch-{}", index),
        index,
        title: title.to_string(),
        raw_title: None,
        blocks,
        word_count: 0,
        char_count: 0,
        source_href: None,
        anchor: None,
        anchors: Vec::new(),
        warnings: Vec::new(),
    }
}

fn book(chapters: Vec<Chapter>) -> Book {
    Book {
        id: "book-1".to_string(),
        source_path: "/tmp/sample.txt".to_string(),
        format: BookFormat::Txt,
        metadata: BookMetadata {
            title: "Sample".to_string(),
            author: Some("Tester".to_string()),
            language: None,
            publisher: None,
            description: None,
            identifier: None,
            series: None,
            cover_title: None,
            created_at: None,
            modified_at: None,
        },
        toc: Vec::new(),
        chapters,
        assets: BookAssets {
            cover_image_bytes: None,
            cover_media_type: None,
            has_images: false,
            embedded_styles_detected: false,
            image_assets: Vec::new(),
        },
        load_info: BookLoadInfo {
            parser_name: "Test".to_string(),
            parse_warnings: Vec::new(),
            chapter_count: 0,
            loaded_at: String::new(),
            source_file_size: 0,
            load_duration_ms: 0,
        },
    }
}

fn sample_book() -> Book {
    book(vec![
        chapter(0, "Chapter 1", vec![ChapterBlock::Paragraph(para(0, "Body"))]),
        chapter(1, "Chapter 2", vec![ChapterBlock::Paragraph(para(0, "Body 2"))]),
    ])
}

fn query(keyword: &str, case_sensitive: bool, scope: SearchScope) -> SearchQuery {
    SearchQuery { keyword: keyword.to_string(), case_sensitive, scope }
}

#[test]
fn search_entire_book_reports_every_chapter() {
    let b = sample_book();
    let r = execute_search(Some(&b), 0, &query("Body", true, SearchScope::EntireBook));
    assert_eq!(r.len(), 2);
    assert_eq!(r[0].book_id, "book-1");
    assert_eq!(r[0].chapter_index, 0);
    assert_eq!(r[0].paragraph_index, 0);
    assert_eq!((r[0].match_start, r[0].match_end), (0, 4));
    assert_eq!(r[0].chapter_title, "Chapter 1");
    assert_eq!(r[0].snippet, "Body");
    assert_eq!(r[1].chapter_index, 1);
    assert_eq!(r[1].snippet, "Body 2");
}

#[test]
fn search_current_chapter_only() {
    let b = sample_book();
    let r = execute_search(Some(&b), 1, &query("Body", true, SearchScope::CurrentChapter));
    assert_eq!(r.len(), 1);
    assert_eq!(r[0].chapter_index, 1);
    assert_eq!(r[0].chapter_title, "Chapter 2");
}

#[test]
fn search_case_handling() {
    let b = sample_book();
    assert!(execute_search(Some(&b), 0, &query("body", true, SearchScope::EntireBook)).is_empty());
    let r = execute_search(Some(&b), 0, &query("bODY 2", false, SearchScope::EntireBook));
    assert_eq!(r.len(), 1);
    assert_eq!(r[0].chapter_index, 1);
    assert_eq!((r[0].match_start, r[0].match_end), (0, 6));
}

#[test]
fn search_without_book_finds_nothing() {
    assert!(execute_search(None, 0, &query("Body", true, SearchScope::EntireBook)).is_empty());
}

#[test]
fn search_reports_first_match_per_paragraph() {
    let b = book(vec![chapter(0, "c", vec![ChapterBlock::Paragraph(para(3, "ab ab ab"))])]);
    let r = execute_search(Some(&b), 0, &query("ab", true, SearchScope::EntireBook));
    assert_eq!(r.len(), 1);
    assert_eq!(r[0].paragraph_index, 3);
    assert_eq!((r[0].match_start, r[0].match_end), (0, 2));
}

#[test]
fn search_reads_headings_and_quotes_but_not_images() {
    let image = InlineImageBlock {
        index: 1,
        asset_id: "img-1".to_string(),
        alt_text: Some("needle".to_string()),
        caption: Some("needle".to_string()),
        source_href: None,
        is_inline: false,
    };
    let b = book(vec![chapter(
        0,
        "c",
        vec![
            ChapterBlock::Heading(para(0, "needle heading")),
            ChapterBlock::Image(image),
            ChapterBlock::Separator,
            ChapterBlock::Quote(para(2, "a needle quote")),
        ],
    )]);
    let r = execute_search(Some(&b), 0, &query("needle", true, SearchScope::EntireBook));
    assert_eq!(r.len(), 2);
    assert_eq!(r[0].paragraph_index, 0);
    assert_eq!(r[1].paragraph_index, 2);
    assert_eq!((r[1].match_start, r[1].match_end), (2, 8));
}

#[test]
fn search_snippet_keeps_char_boundaries_in_chinese_text() {
    let text = "这是一段很长的中文测试文本，用于验证搜索摘要提取时不会因为UTF-8字符边界问题而崩溃。";
    let b = book(vec![chapter(0, "中文章节", vec![ChapterBlock::Paragraph(para(0, text))])]);
    let r = execute_search(Some(&b), 0, &query("验证", true, SearchScope::EntireBook));
    assert_eq!(r.len(), 1);
    assert_eq!((r[0].match_start, r[0].match_end), (48, 54));
    assert_eq!(r[0].snippet, "测试文本，用于验证搜索摘要提取时");
    assert!(r[0].snippet.contains("验证"));
}

#[test]
fn search_snippet_is_cut_twenty_bytes_around_the_match() {
    let text = "0123456789012345678901234567890123456789XY0123456789012345678901234567890123456789";
    let b = book(vec![chapter(0, "c", vec![ChapterBlock::Paragraph(para(0, text))])]);
    let r = execute_search(Some(&b), 0, &query("XY", true, SearchScope::EntireBook));
    assert_eq!(r[0].match_start, 40);
    assert_eq!(r[0].snippet, "01234567890123456789XY01234567890123456789");
}

#[test]
fn search_state_starts_empty() {
    let s = light_reader::search::SearchState::default();
    assert!(s.current_query.is_none());
    assert!(s.results.is_empty());
    assert!(s.selected_result_index.is_none());
    assert!(!s.is_searching);
    assert!(s.last_search_at.is_none());
}
