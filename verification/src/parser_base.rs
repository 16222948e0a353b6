//! The result every book parser produces, and the parser interface.

use vstd::prelude::*;
use crate::domain::{AppError, BookImageAsset, BookMetadata, InlineImageBlock, TextLink, TocItem};

verus! {

/// Parsed book content, chapter by chapter.
#[derive(Debug)]
pub struct ParseResult {
    /// Text of each chapter.
    pub content: Vec<String>,
    /// Title of each chapter.
    pub chapter_titles: Vec<String>,
    /// Spine href of each chapter (EPUB only).
    pub spine_hrefs: Vec<String>,
    /// Structured table of contents, when the book declares one.
    pub toc: Option<Vec<TocItem>>,
    /// Book metadata (title, author, ...), when the book declares it.
    pub metadata: Option<BookMetadata>,
    /// Problems met while parsing.
    pub warnings: Vec<String>,
    /// Raw cover image bytes, if any.
    pub cover_image: Option<Vec<u8>>,
    /// Media type of the cover image.
    pub cover_media_type: Option<String>,
    /// Images found in the book.
    pub image_assets: Vec<BookImageAsset>,
    /// Image blocks of each chapter, with the paragraph position before them.
    pub chapter_image_blocks: Vec<Vec<(isize, InlineImageBlock)>>,
    /// Links of each paragraph of each chapter.
    pub chapter_links: Vec<Vec<Vec<TextLink>>>,
    /// Anchors (fragment, paragraph index) of each chapter.
    pub chapter_anchors: Vec<Vec<(String, usize)>>,
    /// Whether each paragraph of each chapter is a heading.
    pub chapter_heading_flags: Vec<Vec<bool>>,
}

/// A parser turns the bytes of a book file into a `ParseResult`.
pub trait BookParser {
    fn parse(&self, raw: Vec<u8>) -> Result<ParseResult, AppError>;
}

} // verus!
