//! Parsing and text-structuring core of a local-first EPUB/TXT reader.

pub mod archive;
pub mod book_format;
pub mod book_loader;
pub mod chapter_builder;
pub mod controller;
pub mod domain;
pub mod epub_content;
pub mod epub_assets;
pub mod epub_metadata;
pub mod epub_parser;
pub mod epub_spine;
pub mod epub_toc;
pub mod hashing;
pub mod library;
pub mod opf_utils;
pub mod parser_base;
pub mod reducer;
pub mod search;
pub mod text;
pub mod txt;
pub mod xml;
pub mod xml_attrs;
