//! Turning the bytes of a book file into a `Book`: choosing the parser,
//! building chapters and the table of contents, and filling in metadata.

use vstd::prelude::*;
use crate::book_format::{ParserFactory, ParserKind, file_name_of, format_of_path};
use crate::chapter_builder::{
    assoc_get, build_chapter, build_href_index, chapter_built, first_with_name,
    map_toc_chapter_indices, toc_mapped,
};
use crate::domain::{
    AppError, Book, BookAssets, BookFormat, BookLoadInfo, BookMetadata, Chapter, FILE_OPEN_FAILED,
    InlineImageBlock, TocItem, UNSUPPORTED_FORMAT,
};
use crate::parser_base::{BookParser, ParseResult};
use crate::text::{
    decimal, decimal_chars, ends_with, extend_chars, from_chars, has_suffix, rfind, rfind_char,
    slice_chars, str_views, to_chars,
};

verus! {

// ---------------------------------------------------------------------------
// Parsing
// ---------------------------------------------------------------------------

/// The error for a file whose format is not supported.
pub open spec fn unsupported_error(e: AppError) -> bool {
    &&& e.code@ == UNSUPPORTED_FORMAT@
    &&& e.message@ == "不支持的文件格式"@
    &&& e.detail is None
    &&& e.recoverable
    &&& e.source is None
}

/// The error for a file its parser refused.
pub open spec fn parse_failed_error(e: AppError) -> bool {
    &&& e.code@ == FILE_OPEN_FAILED@
    &&& e.message@ == "解析失败"@
    &&& e.detail is Some
    &&& e.recoverable
    &&& e.source is None
}

/// Parses the bytes of a book file with the parser its extension selects.
/// An unsupported extension, or bytes the parser refuses, give a
/// recoverable error.
pub fn parse_book(path: &str, raw: Vec<u8>) -> (r: Result<ParseResult, AppError>)
    ensures
        format_of_path(path@) is None ==> (r matches Err(e) && unsupported_error(e)),
        format_of_path(path@) == Some(BookFormat::Txt) ==> r is Ok,
        format_of_path(path@) == Some(BookFormat::Epub) ==> (r is Ok <==> crate::archive::zip_opens(
            raw@,
        )) && (r matches Ok(p) ==> crate::epub_parser::epub_parsed(raw@, p)) && (r matches Err(e)
            ==> parse_failed_error(e)),
        format_of_path(path@) == Some(BookFormat::Txt) ==> (r matches Ok(p)
            && crate::txt::txt_parsed(raw@, p)),
{
    let parser = match ParserFactory::get_parser(path) {
        Some(p) => p,
        None => {
            let mut err = AppError::new(UNSUPPORTED_FORMAT, "不支持的文件格式");
            err.recoverable = true;
            return Err(err);
        },
    };
    match parser.parse(raw) {
        Ok(result) => Ok(result),
        Err(e) => {
            let detail = e.display();
            let mut err = AppError::with_detail(FILE_OPEN_FAILED, "解析失败", detail.as_str());
            err.recoverable = true;
            Err(err)
        },
    }
}

// ---------------------------------------------------------------------------
// Assembling the book
// ---------------------------------------------------------------------------

/// The title of chapter `i`: its parsed title, else `章节 i+1`.
pub open spec fn chapter_title_at(titles: Seq<Seq<char>>, i: int) -> Seq<char> {
    if i < titles.len() {
        titles[i]
    } else {
        "章节 "@ + decimal((i + 1) as nat)
    }
}

/// The image blocks of chapter `i` (none when the parser gave none).
pub open spec fn blocks_at(
    blocks: Seq<Vec<(isize, InlineImageBlock)>>,
    i: int,
) -> Seq<(isize, InlineImageBlock)> {
    if i < blocks.len() {
        blocks[i]@
    } else {
        seq![]
    }
}

/// A generated table of contents: one top-level entry per title.
pub open spec fn generated_toc(items: Seq<TocItem>, titles: Seq<Seq<char>>) -> bool {
    &&& items.len() == titles.len()
    &&& forall|i: int|
        0 <= i < items.len() ==> {
            &&& (#[trigger] items[i]).id@ == "toc-"@ + decimal(i as nat)
            &&& items[i].title@ == titles[i]
            &&& items[i].chapter_index == Some(i as usize)
            &&& items[i].href is None
            &&& items[i].depth == 0
            &&& items[i].children@.len() == 0
            &&& items[i].is_generated
        }
}

/// The file stem of a path: its file name without the extension
/// (`..` has none).
pub open spec fn file_stem_of(p: Seq<char>) -> Seq<char> {
    let name = file_name_of(p);
    if name == ".."@ {
        seq![]
    } else {
        match rfind(name, '.') {
            Some(i) => if i > 0 {
                name.take(i)
            } else {
                name
            },
            None => name,
        }
    }
}

/// The format recorded for a loaded file: EPUB when its path ends in
/// `.epub`, plain text otherwise.
pub open spec fn loaded_format(path: Seq<char>) -> BookFormat {
    if has_suffix(path, ".epub"@) {
        BookFormat::Epub
    } else {
        BookFormat::Txt
    }
}

fn chapter_title_exec(titles: &Vec<String>, i: usize) -> (r: String)
    requires
        i < usize::MAX,
    ensures
        r@ == chapter_title_at(str_views(titles@), i as int),
{
    if i < titles.len() {
        titles[i].clone()
    } else {
        let mut v = to_chars("章节 ");
        extend_chars(&mut v, &decimal_chars(i + 1));
        from_chars(&v)
    }
}

pub(crate) fn file_stem_exec(path: &str) -> (r: Vec<char>)
    ensures
        r@ == file_stem_of(path@),
{
    let t = crate::book_format::trailing_trimmed_exec(&to_chars(path));
    let name = crate::text::after_last_chars(&t, '/');
    if crate::text::chars_eq(&name, &to_chars("..")) {
        return Vec::new();
    }
    match rfind_char(&name, '.') {
        Some(i) => {
            proof {
                crate::text::lemma_rfind_before(name@, '.', name@.len() as int);
            }
            if i > 0 {
                slice_chars(&name, 0, i)
            } else {
                name
            }
        },
        None => name,
    }
}

fn generated_entries(titles: &Vec<String>) -> (r: Vec<TocItem>)
    ensures
        generated_toc(r@, str_views(titles@)),
{
    let mut out: Vec<TocItem> = Vec::new();
    let mut i: usize = 0;
    while i < titles.len()
        invariant
            i <= titles@.len(),
            out@.len() == i,
            forall|j: int|
                0 <= j < i ==> {
                    &&& (#[trigger] out@[j]).id@ == "toc-"@ + decimal(j as nat)
                    &&& out@[j].title@ == titles@[j]@
                    &&& out@[j].chapter_index == Some(j as usize)
                    &&& out@[j].href is None
                    &&& out@[j].depth == 0
                    &&& out@[j].children@.len() == 0
                    &&& out@[j].is_generated
                },
        decreases titles@.len() - i,
    {
        let mut id = to_chars("toc-");
        extend_chars(&mut id, &decimal_chars(i));
        out.push(
            TocItem {
                id: from_chars(&id),
                title: titles[i].clone(),
                chapter_index: Some(i),
                href: None,
                depth: 0,
                children: Vec::new(),
                is_generated: true,
            },
        );
        i = i + 1;
    }
    out
}

/// What a loaded book holds, given the parse result it was built from.
pub open spec fn book_assembled(
    b: Book,
    path: Seq<char>,
    book_id: Seq<char>,
    r: ParseResult,
    file_size: u64,
    loaded_at: Seq<char>,
    duration_ms: u64,
) -> bool {
    let titles = str_views(r.chapter_titles@);
    let n = r.content@.len();
    let format = loaded_format(path);
    &&& b.id@ == book_id
    &&& b.source_path@ == path
    &&& b.format == format
    &&& b.chapters@.len() == n
    &&& forall|i: int|
        0 <= i < n ==> chapter_built(
            #[trigger] b.chapters@[i],
            i as usize,
            chapter_title_at(titles, i),
            r.content@[i]@,
            blocks_at(r.chapter_image_blocks@, i),
        )
    &&& match r.toc {
        Some(t) => exists|idx: Seq<(String, usize)>|
            (forall|key: Seq<char>|
                #![trigger assoc_get(idx, key)]
                assoc_get(idx, key) == first_with_name(
                    str_views(r.spine_hrefs@),
                    key,
                    r.spine_hrefs@.len() as int,
                )) && #[trigger] toc_mapped(t@, b.toc@, idx),
        None => if titles.len() == 0 {
            generated_toc(b.toc@, Seq::new(n, |i: int| chapter_title_at(titles, i)))
        } else {
            generated_toc(b.toc@, titles)
        },
    }
    &&& match r.metadata {
        Some(m) => b.metadata == m,
        None => {
            &&& b.metadata.title@ == (if file_stem_of(path).len() > 0 {
                file_stem_of(path)
            } else {
                "未命名书籍"@
            })
            &&& b.metadata.author is None && b.metadata.language is None
            &&& b.metadata.publisher is None && b.metadata.description is None
            &&& b.metadata.identifier is None && b.metadata.series is None
            &&& b.metadata.cover_title is None && b.metadata.created_at is None
            &&& b.metadata.modified_at is None
        },
    }
    &&& b.assets.cover_image_bytes == r.cover_image
    &&& b.assets.cover_media_type == r.cover_media_type
    &&& b.assets.has_images == (r.image_assets@.len() > 0)
    &&& b.assets.embedded_styles_detected == (format == BookFormat::Epub)
    &&& b.assets.image_assets == r.image_assets
    &&& b.load_info.parser_name@ == (if format == BookFormat::Epub {
        "EpubParser"@
    } else {
        "TxtParser"@
    })
    &&& b.load_info.parse_warnings == r.warnings
    &&& b.load_info.chapter_count == n
    &&& b.load_info.loaded_at@ == loaded_at
    &&& b.load_info.source_file_size == file_size
    &&& b.load_info.load_duration_ms == duration_ms
}

/// Builds the book from a parse result: one chapter per text (titled by the
/// parser, else `章节 n`), the table of contents (the structured one linked
/// to chapters by file name, else one entry per chapter title), and the
/// metadata (the parser's, else the file stem as title).
pub fn assemble_book(
    path: &str,
    book_id: String,
    result: ParseResult,
    file_size: u64,
    loaded_at: String,
    duration_ms: u64,
) -> (b: Book)
    ensures
        book_assembled(b, path@, book_id@, result, file_size, loaded_at@, duration_ms),
{
    let ghost r0 = result;
    let ParseResult {
        content,
        chapter_titles,
        spine_hrefs,
        toc,
        metadata,
        warnings,
        cover_image,
        cover_media_type,
        image_assets,
        chapter_image_blocks,
        chapter_links: _,
        chapter_anchors: _,
        chapter_heading_flags: _,
    } = result;
    let is_epub = ends_with(&to_chars(path), &to_chars(".epub"));
    let format = if is_epub {
        BookFormat::Epub
    } else {
        BookFormat::Txt
    };
    let ghost titles = str_views(chapter_titles@);
    let mut chapters: Vec<Chapter> = Vec::new();
    let empty: Vec<(isize, InlineImageBlock)> = Vec::new();
    let mut i: usize = 0;
    while i < content.len()
        invariant
            i <= content@.len(),
            content@ == r0.content@,
            titles == str_views(chapter_titles@),
            chapter_image_blocks@ == r0.chapter_image_blocks@,
            empty@.len() == 0,
            chapters@.len() == i,
            forall|j: int|
                0 <= j < i ==> chapter_built(
                    #[trigger] chapters@[j],
                    j as usize,
                    chapter_title_at(titles, j),
                    content@[j]@,
                    blocks_at(chapter_image_blocks@, j),
                ),
        decreases content@.len() - i,
    {
        let title = chapter_title_exec(&chapter_titles, i);
        let blocks: &Vec<(isize, InlineImageBlock)> = if i < chapter_image_blocks.len() {
            &chapter_image_blocks[i]
        } else {
            &empty
        };
        assert(blocks@ == blocks_at(chapter_image_blocks@, i as int));
        let c = build_chapter(i, title.as_str(), content[i].as_str(), blocks.as_slice());
        let ghost before = chapters@;
        chapters.push(c);
        assert forall|j: int|
            0 <= j < i + 1 implies chapter_built(
            #[trigger] chapters@[j],
            j as usize,
            chapter_title_at(titles, j),
            content@[j]@,
            blocks_at(chapter_image_blocks@, j),
        ) by {
            if j < i {
                assert(chapters@[j] == before[j]);
            }
        }
        i = i + 1;
    }
    let ghost mut widx: Seq<(String, usize)> = seq![];
    let toc_items = match toc {
        Some(structured) => {
            let ghost t0 = structured@;
            let href_to_index = build_href_index(&spine_hrefs);
            let mapped = map_toc_chapter_indices(structured, &href_to_index);
            assert(exists|idx: Seq<(String, usize)>|
                (forall|key: Seq<char>|
                    #![trigger assoc_get(idx, key)]
                    assoc_get(idx, key) == first_with_name(
                        str_views(spine_hrefs@),
                        key,
                        spine_hrefs@.len() as int,
                    )) && #[trigger] toc_mapped(t0, mapped@, idx)) by {
                assert(toc_mapped(t0, mapped@, href_to_index@));
            }
            proof {
                widx = href_to_index@;
            }
            assert(toc_mapped(t0, mapped@, widx));
            mapped
        },
        None => {
            if chapter_titles.len() == 0 {
                let mut names: Vec<String> = Vec::new();
                let mut k: usize = 0;
                while k < chapters.len()
                    invariant
                        k <= chapters@.len(),
                        chapters@.len() == content@.len(),
                        titles.len() == 0,
                        titles == str_views(chapter_titles@),
                        names@.len() == k,
                        forall|j: int|
                            0 <= j < k ==> (#[trigger] names@[j])@ == chapter_title_at(titles, j),
                    decreases chapters@.len() - k,
                {
                    let ghost before = names@;
                    names.push(chapter_title_exec(&chapter_titles, k));
                    assert forall|j: int| 0 <= j < k + 1 implies (#[trigger] names@[j])@
                        == chapter_title_at(titles, j) by {
                        if j < k {
                            assert(names@[j] == before[j]);
                        }
                    }
                    k = k + 1;
                }
                let g = generated_entries(&names);
                assert(str_views(names@) =~= Seq::new(
                    content@.len(),
                    |i: int| chapter_title_at(titles, i),
                ));
                g
            } else {
                generated_entries(&chapter_titles)
            }
        },
    };
    let meta = match metadata {
        Some(m) => m,
        None => {
            let stem = file_stem_exec(path);
            let title = if stem.len() > 0 {
                from_chars(&stem)
            } else {
                from_chars(&to_chars("未命名书籍"))
            };
            BookMetadata {
                title,
                author: None,
                language: None,
                publisher: None,
                description: None,
                identifier: None,
                series: None,
                cover_title: None,
                created_at: None,
                modified_at: None,
            }
        },
    };
    let has_images = image_assets.len() > 0;
    let parser_name = if is_epub {
        from_chars(&to_chars("EpubParser"))
    } else {
        from_chars(&to_chars("TxtParser"))
    };
    let chapter_count = chapters.len();
    let b = Book {
        id: book_id,
        source_path: from_chars(&to_chars(path)),
        format,
        metadata: meta,
        toc: toc_items,
        chapters,
        assets: BookAssets {
            cover_image_bytes: cover_image,
            cover_media_type,
            has_images,
            embedded_styles_detected: is_epub,
            image_assets,
        },
        load_info: BookLoadInfo {
            parser_name,
            parse_warnings: warnings,
            chapter_count,
            loaded_at,
            source_file_size: file_size,
            load_duration_ms: duration_ms,
        },
    };
    proof {
        let n = r0.content@.len();
        assert(b.chapters@.len() == n);
        assert(b.id@ == book_id@);
        assert(b.format == loaded_format(path@));
        assert(b.assets.image_assets == r0.image_assets);
        assert(b.load_info.parse_warnings == r0.warnings);
        if r0.toc is Some {
            assert(r0.toc->0@ == toc->0@);
            assert(toc_mapped(r0.toc->0@, b.toc@, widx));
        }
        reveal_strlit("EpubParser");
        reveal_strlit("TxtParser");
    }
    b
}

} // verus!
