use std::io::Write;
use zip::write::FileOptions;
use zip::ZipWriter;

use light_reader::book_format::{format_label, stable_book_id, ParserFactory, ParserKind};
use light_reader::book_loader::{assemble_book, parse_book};
use light_reader::chapter_builder::{href_filename, strip_href_fragment};
use light_reader::domain::{BookFormat, TocItem, FILE_OPEN_FAILED, UNSUPPORTED_FORMAT};
use light_reader::epub_assets::{media_type_to_ext, normalize_href, resolve_path};
use light_reader::epub_parser::EpubParser;
use light_reader::opf_utils::{extract_attr, extract_opf_path, parse_opf_cover};
use light_reader::parser_base::BookParser;
use light_reader::text::{ceil_char_boundary, floor_char_boundary};
use light_reader::txt::{decode_text, is_chapter_line, TxtParser};

fn zip_bytes(files: &[(&str, &[u8])]) -> Vec<u8> {
    let mut buf = Vec::new();
    {
        let mut zip = ZipWriter::new(std::io::Cursor::new(&mut buf));
        let opts = FileOptions::default();
        for (name, bytes) in files {
            zip.start_file(*name, opts).unwrap();
            zip.write_all(bytes).unwrap();
        }
        zip.finish().unwrap();
    }
    buf
}

const CONTAINER: &[u8] = br#"<?xml version="1.0" encoding="UTF-8"?>
<container version="1.0" xmlns="urn:oasis:names:tc:opendocument:xmlns:container">
  <rootfiles>
    <rootfile full-path="OEBPS/content.opf" media-type="application/oebps-package+xml"/>
  </rootfiles>
</container>"#;

fn toc_item(id: &str, title: &str, href: Option<&str>, depth: u8) -> TocItem {
    TocItem {
        id: id.to_string(),
        title: title.to_string(),
        chapter_index: None,
        href: href.map(|h| h.to_string()),
        depth,
        children: Vec::new(),
        is_generated: false,
    }
}

// ---------------------------------------------------------------------------
// Table of contents
// ---------------------------------------------------------------------------

#[test]
fn toc_tree_nests_by_depth_and_keeps_order() {
    let parser = EpubParser::new();
    let items = vec![
        toc_item("a", "A", Some("a.xhtml"), 1),
        toc_item("b", "B", Some("b.xhtml"), 2),
        toc_item("c", "C", Some("c.xhtml"), 3),
        toc_item("d", "D", Some("d.xhtml"), 2),
        toc_item("e", "E", Some("e.xhtml"), 1),
    ];
    let tree = parser.build_toc_tree(items);
    assert_eq!(tree.len(), 2);
    assert_eq!(tree[0].id, "a");
    assert_eq!(tree[0].children.len(), 2);
    assert_eq!(tree[0].children[0].id, "b");
    assert_eq!(tree[0].children[0].children.len(), 1);
    assert_eq!(tree[0].children[0].children[0].id, "c");
    assert_eq!(tree[0].children[1].id, "d");
    assert_eq!(tree[1].id, "e");
    assert!(tree[1].children.is_empty());
}

#[test]
fn toc_tree_parent_is_nearest_shallower_entry() {
    let parser = EpubParser::new();
    let items = vec![
        toc_item("x", "X", None, 2),
        toc_item("y", "Y", None, 1),
        toc_item("z", "Z", None, 3),
    ];
    let tree = parser.build_toc_tree(items);
    assert_eq!(tree.len(), 2);
    assert_eq!(tree[0].id, "x");
    assert_eq!(tree[1].id, "y");
    assert_eq!(tree[1].children.len(), 1);
    assert_eq!(tree[1].children[0].id, "z");
}

#[test]
fn toc_title_map_later_entries_win() {
    let mut first = toc_item("1", "First", Some("ch1.xhtml#a"), 1);
    first.children.push(toc_item("2", "Child", Some("ch1.xhtml#b"), 2));
    let second = toc_item("3", "", Some("ch2.xhtml"), 1);
    let map = EpubParser::build_toc_title_map(&vec![first, second]);
    let get = |k: &str| map.iter().find(|(key, _)| key == k).map(|(_, v)| v.clone());
    assert_eq!(get("ch1.xhtml"), Some("Child".to_string()));
    assert_eq!(get("ch2.xhtml"), None);
    assert_eq!(map.len(), 1);
}

// ---------------------------------------------------------------------------
// Paths and names
// ---------------------------------------------------------------------------

#[test]
fn normalize_href_twice_is_once() {
    let once = normalize_href("  images/a.png?x=1#frag ");
    assert_eq!(once, "images/a.png");
    assert_eq!(normalize_href(&once), once);
}

#[test]
fn file_name_ignores_fragment() {
    let h = "OEBPS/Text/ch3.xhtml#sec";
    assert_eq!(href_filename(&strip_href_fragment(h)), href_filename(h));
    assert_eq!(href_filename(h), "ch3.xhtml");
}

#[test]
fn resolve_path_handles_parent_segments() {
    assert_eq!(resolve_path("OEBPS/Text", "../images/pic.jpg#cover"), "OEBPS/images/pic.jpg");
    assert_eq!(resolve_path("OEBPS", "/root.png"), "root.png");
    assert_eq!(resolve_path("", "./a/b.png"), "a/b.png");
}

#[test]
fn media_type_to_ext_maps_known_types() {
    assert_eq!(media_type_to_ext(Some("image/jpeg")), "jpg");
    assert_eq!(media_type_to_ext(Some("image/svg+xml")), "svg");
    assert_eq!(media_type_to_ext(Some("text/plain")), "png");
    assert_eq!(media_type_to_ext(None), "png");
}

// ---------------------------------------------------------------------------
// Formats
// ---------------------------------------------------------------------------

#[test]
fn format_from_path_ignores_case() {
    assert_eq!(BookFormat::from_path("/books/A.EPUB"), Some(BookFormat::Epub));
    assert_eq!(BookFormat::from_path("/books/a.epub"), Some(BookFormat::Epub));
    assert_eq!(BookFormat::from_path("notes.TxT"), Some(BookFormat::Txt));
    assert_eq!(BookFormat::from_path("archive.tar.epub"), Some(BookFormat::Epub));
}

#[test]
fn format_from_path_edge_cases() {
    assert_eq!(BookFormat::from_path(".epub"), None);
    assert_eq!(BookFormat::from_path("book.pdf"), None);
    assert_eq!(BookFormat::from_path("book"), None);
    assert_eq!(BookFormat::from_path("dir.epub/"), Some(BookFormat::Epub));
    assert_eq!(BookFormat::from_path(""), None);
}

#[test]
fn format_label_round_trip() {
    for f in [BookFormat::Epub, BookFormat::Txt] {
        assert_eq!(BookFormat::parse_label(&f.to_string()), Ok(f));
    }
    assert_eq!(BookFormat::parse_label("Pdf"), Err("Unknown BookFormat: Pdf".to_string()));
    assert_eq!(format_label(&BookFormat::Epub), "epub");
    assert_eq!(format_label(&BookFormat::Txt), "txt");
    let parsed: BookFormat = "Txt".parse().unwrap();
    assert_eq!(parsed, BookFormat::Txt);
}

#[test]
fn parser_factory_picks_by_extension() {
    assert!(matches!(ParserFactory::get_parser("a.epub"), Some(ParserKind::Epub(_))));
    assert!(matches!(ParserFactory::get_parser("a.TXT"), Some(ParserKind::Txt(_))));
    assert!(ParserFactory::get_parser("a.mobi").is_none());
}

#[test]
fn stable_book_id_shape_and_stability() {
    let a = stable_book_id("/books/a.epub");
    let b = stable_book_id("/books/a.epub");
    let c = stable_book_id("/books/b.epub");
    assert_eq!(a, b);
    assert_ne!(a, c);
    assert!(a.starts_with("book-"));
    assert_eq!(a.len(), 21);
    assert!(a[5..].chars().all(|ch| ch.is_ascii_hexdigit() && !ch.is_ascii_uppercase()));
}

// ---------------------------------------------------------------------------
// Text files
// ---------------------------------------------------------------------------

#[test]
fn utf8_text_reads_back() {
    let text = "第1章 开始\n\n正文。";
    assert_eq!(decode_text(text.as_bytes()), text);
}

#[test]
fn utf8_bom_is_dropped() {
    let mut raw = vec![0xEF, 0xBB, 0xBF];
    raw.extend_from_slice("第1章 开始".as_bytes());
    assert_eq!(decode_text(&raw), "第1章 开始");
}

#[test]
fn utf16_text_with_bom_is_decoded() {
    let mut raw = vec![0xFF, 0xFE];
    for u in "第1章 开始".encode_utf16() {
        raw.extend_from_slice(&u.to_le_bytes());
    }
    assert_eq!(decode_text(&raw), "第1章 开始");
}

#[test]
fn gbk_text_is_decoded() {
    let (raw, _, _) = encoding_rs::GBK.encode("第一章 开始\n\n正文");
    assert!(std::str::from_utf8(&raw).is_err());
    assert_eq!(decode_text(&raw), "第一章 开始\n\n正文");
}

#[test]
fn chapter_heading_is_trimmed_line() {
    assert_eq!(is_chapter_line("  第3章 风起  "), Some("第3章 风起".to_string()));
    assert_eq!(is_chapter_line("   "), None);
    assert_eq!(is_chapter_line("chapter 2 Rain"), Some("chapter 2 Rain".to_string()));
}

#[test]
fn txt_split_titles_match_chapters() {
    let text = "开头的话。\n\n第1章 一\n\n内容一。\n\n第2章 二\n\n\n第3章 三\n\n内容三。";
    let result = TxtParser::new().parse(text.as_bytes().to_vec()).unwrap();
    assert_eq!(result.content.len(), result.chapter_titles.len());
    assert_eq!(result.chapter_titles, vec!["前言", "第1章 一", "第3章 三"]);
    assert!(result.content.iter().all(|c| !c.trim().is_empty()));
}

// ---------------------------------------------------------------------------
// EPUB chapters
// ---------------------------------------------------------------------------

#[test]
fn clean_title_strips_chapter_numbers() {
    assert_eq!(EpubParser::clean_title("  第三章   风起云涌 "), "风起云涌");
    assert_eq!(EpubParser::clean_title("Chapter 12: The   End"), "The End");
    assert_eq!(EpubParser::clean_title("1. Intro"), "Intro");
    assert_eq!(EpubParser::clean_title("第三章"), "第三章");
    assert_eq!(EpubParser::clean_title("   "), "");
}

#[test]
fn xml_noise_detection() {
    assert!(EpubParser::is_xml_noise("<?xml version=\"1.0\"?>"));
    assert!(EpubParser::is_xml_noise("<a><b><c>x</c></b></a>"));
    assert!(!EpubParser::is_xml_noise("plain text with one < sign in a longer sentence"));
    assert!(!EpubParser::is_xml_noise("   "));
    assert!(EpubParser::is_cover_only_text("  COVER "));
    assert!(EpubParser::is_cover_only_text("<svg/>\n\n   "));
    assert!(!EpubParser::is_cover_only_text("Real text."));
}

#[test]
fn html_extraction_collects_links_anchors_and_headings() {
    let parser = EpubParser::new();
    let html = r#"<html><head><title>T</title><style>p{}</style></head><body>
<h2 id="top">Heading</h2>
<p style="text-indent:2em">See <sup><a href="notes.xhtml#n1" epub:type="noteref">1</a></sup> and <a href="https://example.com">web</a>.</p>
<p><img src="x.png" style="height:1em"/></p>
<p>Word<img src="rare.png" style="height:1em" alt="r"/>end</p>
<img src="pic.jpg" alt="Pic"/>
</body></html>"#;
    let r = parser.extract_html_with_positions(html);
    assert_eq!(r.paragraphs.len(), 3);
    assert_eq!(r.paragraphs[0], "Heading");
    assert_eq!(r.heading_flags, vec![true, false, false]);
    // text events are trimmed by the reader
    assert_eq!(r.paragraphs[1], "\u{1}INDENT\u{1}See1andweb.");
    assert_eq!(r.paragraph_links[1].len(), 1);
    let link = &r.paragraph_links[1][0];
    assert_eq!(link.href, "notes.xhtml#n1");
    assert_eq!((link.start, link.end), (11, 12));
    assert!(link.is_footnote);
    assert_eq!(r.paragraphs[2], "Word\u{E000}0\u{E001}end");
    assert_eq!(r.inline_images.len(), 1);
    assert_eq!(r.inline_images[0].1, "rare.png");
    assert_eq!(r.images.len(), 2);
    assert_eq!(r.images[1].1, "pic.jpg");
    assert_eq!(r.images[1].2, Some("Pic".to_string()));
    assert_eq!(r.anchors, vec![("top".to_string(), 0)]);
}

#[test]
fn extract_title_prefers_heading() {
    let parser = EpubParser::new();
    assert_eq!(
        parser.extract_title("<html><head><title>Doc</title></head><body><h1>第五章 归来</h1></body></html>"),
        "归来"
    );
    assert_eq!(
        parser.extract_title("<html><head><title> Only Title </title></head><body><p>x</p></body></html>"),
        "Only Title"
    );
}

fn sample_epub() -> Vec<u8> {
    let opf = br#"<?xml version="1.0" encoding="UTF-8"?>
<package version="2.0" xmlns="http://www.idpf.org/2007/opf" xmlns:dc="http://purl.org/dc/elements/1.1/">
  <metadata>
    <dc:title>Sample</dc:title>
    <meta name="cover" content="cover-img"/>
  </metadata>
  <manifest>
    <item id="nav" href="nav.xhtml" media-type="application/xhtml+xml" properties="nav"/>
    <item id="ch1" href="Text/ch1.xhtml" media-type="application/xhtml+xml"/>
    <item id="ch2" href="Text/ch2.xhtml" media-type="application/xhtml+xml"/>
    <item id="cover-img" href="images/cover.jpg" media-type="image/jpeg"/>
  </manifest>
  <spine>
    <itemref idref="nav"/>
    <itemref idref="ch1"/>
    <itemref idref="missing"/>
    <itemref idref="ch2"/>
  </spine>
</package>"#;
    let nav = br#"<?xml version="1.0" encoding="UTF-8"?>
<html xmlns="http://www.w3.org/1999/xhtml" xmlns:epub="http://www.idpf.org/2007/ops"><body>
<nav epub:type="toc"><ol>
<li><a href="Text/ch1.xhtml">Part One</a><ol><li><a href="Text/ch2.xhtml#s">Part Two</a></li></ol></li>
</ol></nav></body></html>"#;
    let ch1 = r#"<html><body><p>One <img src="../images/rare.png" style="display:inline"/> then <a href="ch2.xhtml#s">next</a></p><p>&lt;svg&gt;&lt;g&gt;&lt;/g&gt;&lt;/svg&gt;</p><p id="keep">Kept</p></body></html>"#;
    let ch2 = r#"<html><body><h1>Heading Two</h1><p>Two</p><img src="../images/cover.jpg"/></body></html>"#;
    zip_bytes(&[
        ("META-INF/container.xml", CONTAINER),
        ("OEBPS/content.opf", opf),
        ("OEBPS/nav.xhtml", nav),
        ("OEBPS/Text/ch1.xhtml", ch1.as_bytes()),
        ("OEBPS/Text/ch2.xhtml", ch2.as_bytes()),
        ("OEBPS/images/cover.jpg", b"jpeg-bytes"),
        ("OEBPS/images/rare.png", b"png-bytes"),
    ])
}

#[test]
fn epub_sample_is_parsed_end_to_end() {
    let r = EpubParser::new().parse(sample_epub()).unwrap();
    // nav is front matter, "missing" is not in the manifest
    assert_eq!(r.spine_hrefs, vec!["Text/ch1.xhtml", "Text/ch2.xhtml"]);
    assert!(r.warnings.iter().any(|w| w == "跳过非正文项: nav.xhtml"));
    assert!(r.warnings.iter().any(|w| w == "spine 引用了不存在的 manifest 项: missing"));
    assert!(r.warnings.iter().any(|w| w == "使用 EPUB3 nav.xhtml 目录"));
    // per-chapter data is aligned
    assert_eq!(r.content.len(), 2);
    assert_eq!(r.chapter_titles.len(), 2);
    assert_eq!(r.chapter_links.len(), 2);
    assert_eq!(r.chapter_anchors.len(), 2);
    assert_eq!(r.chapter_heading_flags.len(), 2);
    assert_eq!(r.chapter_image_blocks.len(), 2);
    // table-of-contents hrefs carry the package directory, manifest hrefs do
    // not: titles come from the documents, else `章节 n`
    assert_eq!(r.chapter_titles[0], "章节 1");
    assert_eq!(r.chapter_titles[1], "Heading Two");
    // the noise paragraph is dropped and the anchor renumbered
    assert_eq!(r.chapter_anchors[0], vec![("keep".to_string(), 1)]);
    assert_eq!(r.chapter_links[0].len(), 2);
    // the inline image placeholder holds the asset id
    let rare = r.image_assets.iter().find(|a| a.asset_path == "OEBPS/images/rare.png").unwrap();
    assert!(r.content[0].contains(&format!("\u{E000}{}\u{E001}", rare.asset_id)));
    assert_eq!(rare.cache_key, Some(format!("{}.png", rare.asset_id)));
    // the link after the inline image moved with the longer text
    let link = &r.chapter_links[0][0][0];
    assert_eq!(link.href, "ch2.xhtml#s");
    let text: Vec<char> = r.content[0].split("\n\n").next().unwrap().chars().collect();
    let linked: String = text[link.start..link.end].iter().collect();
    assert_eq!(linked, "next");
    // the block image of chapter two is registered once
    assert_eq!(r.chapter_image_blocks[1].len(), 1);
    assert_eq!(r.image_assets.len(), 2);
    // nested table of contents
    let toc = r.toc.unwrap();
    assert_eq!(toc.len(), 1);
    assert_eq!(toc[0].children.len(), 1);
    // declared cover
    assert_eq!(r.cover_image, Some(b"jpeg-bytes".to_vec()));
    assert_eq!(r.cover_media_type, Some("image/jpeg".to_string()));
    assert_eq!(r.metadata.unwrap().title, "Sample");
}

#[test]
fn corrupted_epub_error_carries_detail() {
    let err = EpubParser::new().parse_bytes(b"not a zip".to_vec()).unwrap_err();
    assert_eq!(err.code, FILE_OPEN_FAILED);
    assert_eq!(err.message, "ZIP 解析失败");
    assert!(err.detail.map_or(false, |d| !d.is_empty()));
}

// ---------------------------------------------------------------------------
// Loading books
// ---------------------------------------------------------------------------

#[test]
fn parse_book_rejects_unknown_format() {
    let err = parse_book("notes.pdf", b"%PDF".to_vec()).unwrap_err();
    assert_eq!(err.code, UNSUPPORTED_FORMAT);
    assert_eq!(err.message, "不支持的文件格式");
    assert!(err.recoverable);
}

#[test]
fn parse_book_reports_parse_failure() {
    let err = parse_book("broken.epub", b"garbage".to_vec()).unwrap_err();
    assert_eq!(err.code, FILE_OPEN_FAILED);
    assert_eq!(err.message, "解析失败");
    assert!(err.recoverable);
    assert!(err.detail.is_some());
}

#[test]
fn assembled_txt_book_has_generated_toc() {
    let path = "/books/我的书.txt";
    let result = parse_book(path, "第1章 甲\n\n正文一。\n\n第2章 乙\n\n正文二。".as_bytes().to_vec()).unwrap();
    let book = assemble_book(path, "book-1".to_string(), result, 42, "2024-01-01".to_string(), 7);
    assert_eq!(book.format, BookFormat::Txt);
    assert_eq!(book.metadata.title, "我的书");
    assert_eq!(book.chapters.len(), 2);
    assert_eq!(book.chapters[1].title, "第2章 乙");
    assert_eq!(book.chapters[0].id, "ch-0");
    assert_eq!(book.toc.len(), 2);
    assert_eq!(book.toc[1].id, "toc-1");
    assert_eq!(book.toc[1].chapter_index, Some(1));
    assert!(book.toc[1].is_generated);
    assert_eq!(book.load_info.parser_name, "TxtParser");
    assert_eq!(book.load_info.chapter_count, 2);
    assert_eq!(book.load_info.source_file_size, 42);
    assert!(!book.assets.embedded_styles_detected);
}

#[test]
fn assembled_book_without_stem_is_untitled() {
    let result = TxtParser::new().parse("text".as_bytes().to_vec()).unwrap();
    let book = assemble_book("/books/.txt", "id".to_string(), result, 0, String::new(), 0);
    assert_eq!(book.metadata.title, ".txt");
    let result = TxtParser::new().parse("text".as_bytes().to_vec()).unwrap();
    let book = assemble_book("/books/", "id".to_string(), result, 0, String::new(), 0);
    assert_eq!(book.metadata.title, "books");
}

#[test]
fn epub_toc_chapter_index_mapped_from_ncx() {
    let opf = br#"<?xml version="1.0" encoding="UTF-8"?>
<package version="2.0" xmlns="http://www.idpf.org/2007/opf">
  <manifest>
    <item id="ch1" href="ch1.xhtml" media-type="application/xhtml+xml"/>
    <item id="ch2" href="ch2.xhtml" media-type="application/xhtml+xml"/>
    <item id="ncx" href="toc.ncx" media-type="application/x-dtbncx+xml"/>
  </manifest>
  <spine toc="ncx">
    <itemref idref="ch1"/>
    <itemref idref="ch2"/>
  </spine>
</package>"#;
    let ncx = br#"<?xml version="1.0" encoding="UTF-8"?>
<ncx xmlns="http://www.daisy.org/z3986/2005/ncx/">
  <navMap>
    <navPoint id="np1"><navLabel><text>Chapter One</text></navLabel><content src="ch1.xhtml#intro"/></navPoint>
    <navPoint id="np2"><navLabel><text>Chapter Two</text></navLabel><content src="ch2.xhtml#part1"/></navPoint>
  </navMap>
</ncx>"#;
    let data = zip_bytes(&[
        ("META-INF/container.xml", CONTAINER),
        ("OEBPS/content.opf", opf),
        ("OEBPS/toc.ncx", ncx),
        ("OEBPS/ch1.xhtml", br#"<?xml version="1.0" encoding="UTF-8"?><html xmlns="http://www.w3.org/1999/xhtml"><body><p>Content one.</p></body></html>"#),
        ("OEBPS/ch2.xhtml", br#"<?xml version="1.0" encoding="UTF-8"?><html xmlns="http://www.w3.org/1999/xhtml"><body><p>Content two.</p></body></html>"#),
    ]);
    let path = "/tmp/book.epub";
    let result = parse_book(path, data).unwrap();
    let book = assemble_book(path, stable_book_id(path), result, 0, String::new(), 0);
    assert!(book.toc.len() >= 2);
    assert_eq!(book.toc[0].chapter_index, Some(0));
    assert_eq!(book.toc[1].chapter_index, Some(1));
    assert_eq!(book.format, BookFormat::Epub);
    assert_eq!(book.load_info.parser_name, "EpubParser");
}

// ---------------------------------------------------------------------------
// Character boundaries
// ---------------------------------------------------------------------------

#[test]
fn char_boundaries_in_chinese_text() {
    let s = "中文abc";
    assert_eq!(floor_char_boundary(s, 4), 3);
    assert_eq!(ceil_char_boundary(s, 4), 6);
    assert_eq!(floor_char_boundary(s, 100), s.len());
    assert_eq!(ceil_char_boundary(s, 100), s.len());
    assert_eq!(floor_char_boundary(s, 7), 7);
    assert_eq!(floor_char_boundary(s, 0), 0);
}

// ---------------------------------------------------------------------------
// OPF line scanning
// ---------------------------------------------------------------------------

#[test]
fn extract_attr_reads_double_and_single_quotes() {
    let tag = r#"<item id="c1" href='images/c.jpg' media-type="image/jpeg"/>"#;
    assert_eq!(extract_attr(tag, "id"), Some("c1".to_string()));
    assert_eq!(extract_attr(tag, "href"), Some("images/c.jpg".to_string()));
    assert_eq!(extract_attr(tag, "properties"), None);
    assert_eq!(extract_attr(r#"<a x="unterminated"#, "x"), None);
    assert_eq!(extract_attr(r#"<item data-id="x" id="y"/>"#, "id"), Some("y".to_string()));
    assert_eq!(extract_attr(r#"<item data-id="x"/>"#, "id"), None);
    assert_eq!(extract_attr(r#"id="first" id="second""#, "id"), Some("first".to_string()));
    assert_eq!(extract_attr(r#"<item id="c1"/>"#, "href"), None);
}

#[test]
fn extract_opf_path_reads_the_package_rootfile() {
    let xml = std::str::from_utf8(CONTAINER).unwrap();
    assert_eq!(extract_opf_path(xml), Some("OEBPS/content.opf".to_string()));
    assert_eq!(extract_opf_path("<container/>"), None);
}

#[test]
fn parse_opf_cover_follows_epub3_and_epub2_declarations() {
    let epub3 = "<manifest>\n<item id=\"a\" href=\"text/a.xhtml\"/>\n<item id=\"img\" href=\"images/front.png?v=1\" properties=\"cover-image\"/>\n</manifest>";
    let (manifest, href) = parse_opf_cover(epub3).unwrap();
    assert_eq!(href, "images/front.png");
    assert_eq!(manifest.len(), 2);
    let epub2 = "<metadata>\n<meta name=\"cover\" content=\"cv\"/>\n</metadata>\n<manifest>\n<item id=\"cv\" href=\"pic.jpg\"/>\n</manifest>";
    assert_eq!(parse_opf_cover(epub2).unwrap().1, "pic.jpg");
    let fallback = "<manifest>\n<item id=\"x\" href=\"art/Cover.JPG\"/>\n</manifest>";
    assert_eq!(parse_opf_cover(fallback).unwrap().1, "art/Cover.JPG");
    assert!(parse_opf_cover("<manifest>\n<item id=\"t\" href=\"t.xhtml\"/>\n</manifest>").is_none());
}

#[test]
fn ncx_nested_nav_points_are_all_listed_in_document_order() {
    let p = EpubParser::new();
    let content = r#"<ncx><navMap><navPoint id="a"><navLabel><text>Part</text></navLabel><content src="p.xhtml"/><navPoint id="b"><navLabel><text>Ch</text></navLabel><content src="c.xhtml"/></navPoint></navPoint><navPoint id="c"><navLabel><text>End</text></navLabel><content src="e.xhtml"/></navPoint></navMap></ncx>"#;
    let items = p.parse_ncx(content, "");
    let titles: Vec<&str> = items.iter().map(|i| i.title.as_str()).collect();
    assert_eq!(titles, vec!["Part", "Ch", "End"]);
    let hrefs: Vec<Option<&str>> = items.iter().map(|i| i.href.as_deref()).collect();
    assert_eq!(hrefs, vec![Some("p.xhtml"), Some("c.xhtml"), Some("e.xhtml")]);
    let depths: Vec<u8> = items.iter().map(|i| i.depth).collect();
    assert_eq!(depths, vec![0, 1, 0]);
    let ids: Vec<&str> = items.iter().map(|i| i.id.as_str()).collect();
    assert_eq!(ids, vec!["toc-0", "toc-1", "toc-2"]);
    assert!(items.iter().all(|i| i.chapter_index.is_none() && !i.is_generated && i.children.is_empty()));
}
