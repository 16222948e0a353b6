//! Plain-text books: encoding detection, chapter-heading detection and
//! splitting into chapters.

use vstd::prelude::*;
use vstd::utf8::{decode_utf8, encode_utf8, valid_utf8};
use crate::domain::AppError;
use crate::parser_base::{BookParser, ParseResult};
use crate::text::{
    extend_chars, from_chars, has_prefix, is_ascii_digit, is_digit, join, join_chars, lines,
    lines_chars, lit_list, lit_views, lemma_lit_list_views, skip_digits, skip_digits_chars,
    slice_chars, starts_with, starts_with_any, str_views, to_chars, to_upper, trim, trim_chars,
    unicode_upper, utf8_len, utf8_len_exceeds, views,
};

verus! {

// ---------------------------------------------------------------------------
// Decoding
// ---------------------------------------------------------------------------

/// The text `String::from_utf8_lossy` yields for `raw`.
pub uninterp spec fn utf8_lossy(raw: Seq<u8>) -> Seq<char>;

/// The text `encoding_rs::UTF_16LE.decode` yields for `raw` (a leading byte
/// order mark selects the UTF-16 variant and is removed).
pub uninterp spec fn utf16_decode(raw: Seq<u8>) -> Seq<char>;

/// The text `encoding_rs::GBK.decode` yields for `raw`.
pub uninterp spec fn gbk_decode(raw: Seq<u8>) -> Seq<char>;

/// Calls `String::from_utf8_lossy`.
#[verifier::external_body]
fn lossy_utf8(raw: &[u8]) -> (r: String)
    ensures
        r@ == utf8_lossy(raw@),
{
    String::from_utf8_lossy(raw).into_owned()
}

/// Calls `std::str::from_utf8`: `Some` exactly for valid UTF-8, holding the
/// decoded characters.
#[verifier::external_body]
fn strict_utf8(raw: &[u8]) -> (r: Option<String>)
    ensures
        r is Some <==> valid_utf8(raw@),
        r matches Some(s) ==> s@ == decode_utf8(raw@),
{
    std::str::from_utf8(raw).ok().map(|s| s.to_owned())
}

/// Calls `encoding_rs::UTF_16LE.decode`, keeping the text.
#[verifier::external_body]
fn decode_utf16(raw: &[u8]) -> (r: String)
    ensures
        r@ == utf16_decode(raw@),
{
    encoding_rs::UTF_16LE.decode(raw).0.into_owned()
}

/// Calls `encoding_rs::GBK.decode`, keeping the text.
#[verifier::external_body]
fn decode_gbk(raw: &[u8]) -> (r: String)
    ensures
        r@ == gbk_decode(raw@),
{
    encoding_rs::GBK.decode(raw).0.into_owned()
}

pub open spec fn has_bytes_prefix(raw: Seq<u8>, p: Seq<u8>) -> bool {
    p.len() <= raw.len() && raw.subrange(0, p.len() as int) == p
}

/// Text of a plain-text file: UTF-8 with BOM, UTF-16 with BOM, valid UTF-8,
/// otherwise GBK.
pub open spec fn decoded_text(raw: Seq<u8>) -> Seq<char> {
    if has_bytes_prefix(raw, seq![0xEFu8, 0xBBu8, 0xBFu8]) {
        utf8_lossy(raw.subrange(3, raw.len() as int))
    } else if has_bytes_prefix(raw, seq![0xFFu8, 0xFEu8]) || has_bytes_prefix(
        raw,
        seq![0xFEu8, 0xFFu8],
    ) {
        utf16_decode(raw)
    } else if valid_utf8(raw) {
        decode_utf8(raw)
    } else {
        gbk_decode(raw)
    }
}

/// Decodes the bytes of a plain-text file.
pub fn decode_text(raw: &[u8]) -> (r: String)
    ensures
        r@ == decoded_text(raw@),
{
    if raw.len() >= 3 && raw[0] == 0xEF && raw[1] == 0xBB && raw[2] == 0xBF {
        assert(raw@.subrange(0, 3) =~= seq![0xEFu8, 0xBBu8, 0xBFu8]);
        let rest = slice_bytes(raw, 3);
        return lossy_utf8(&rest);
    }
    assert(!has_bytes_prefix(raw@, seq![0xEFu8, 0xBBu8, 0xBFu8])) by {
        if has_bytes_prefix(raw@, seq![0xEFu8, 0xBBu8, 0xBFu8]) {
            assert(raw@.subrange(0, 3)[0] == raw@[0]);
            assert(raw@.subrange(0, 3)[1] == raw@[1]);
            assert(raw@.subrange(0, 3)[2] == raw@[2]);
        }
    }
    let le = raw.len() >= 2 && raw[0] == 0xFF && raw[1] == 0xFE;
    let be = raw.len() >= 2 && raw[0] == 0xFE && raw[1] == 0xFF;
    assert(le == has_bytes_prefix(raw@, seq![0xFFu8, 0xFEu8])) by {
        if raw@.len() >= 2 {
            assert(raw@.subrange(0, 2)[0] == raw@[0]);
            assert(raw@.subrange(0, 2)[1] == raw@[1]);
            if le {
                assert(raw@.subrange(0, 2) =~= seq![0xFFu8, 0xFEu8]);
            }
        }
    }
    assert(be == has_bytes_prefix(raw@, seq![0xFEu8, 0xFFu8])) by {
        if raw@.len() >= 2 {
            assert(raw@.subrange(0, 2)[0] == raw@[0]);
            assert(raw@.subrange(0, 2)[1] == raw@[1]);
            if be {
                assert(raw@.subrange(0, 2) =~= seq![0xFEu8, 0xFFu8]);
            }
        }
    }
    if le || be {
        return decode_utf16(raw);
    }
    match strict_utf8(raw) {
        Some(s) => s,
        None => decode_gbk(raw),
    }
}

fn slice_bytes(raw: &[u8], from: usize) -> (r: Vec<u8>)
    requires
        from <= raw.len(),
    ensures
        r@ == raw@.subrange(from as int, raw@.len() as int),
{
    let mut r: Vec<u8> = Vec::new();
    let mut i: usize = from;
    while i < raw.len()
        invariant
            from <= i <= raw.len(),
            r@ == raw@.subrange(from as int, i as int),
        decreases raw.len() - i,
    {
        r.push(raw[i]);
        i = i + 1;
        assert(r@ == raw@.subrange(from as int, i as int));
    }
    r
}

// ---------------------------------------------------------------------------
// Numbers
// ---------------------------------------------------------------------------

pub open spec fn is_cn_digit(c: char) -> bool {
    c == '一' || c == '二' || c == '三' || c == '四' || c == '五' || c == '六' || c == '七'
        || c == '八' || c == '九'
}

pub open spec fn is_cn_tens_digit(c: char) -> bool {
    c == '二' || c == '三' || c == '四' || c == '五' || c == '六' || c == '七' || c == '八'
        || c == '九'
}

/// Remainder after a Chinese numeral from 一 to 九十九 at the start of `s`.
pub open spec fn strip_cn_number(s: Seq<char>) -> Option<Seq<char>> {
    let unit_len: int = if s.len() >= 2 && is_cn_tens_digit(s[0]) && s[1] == '十' {
        2
    } else if s.len() >= 1 && s[0] == '十' {
        1
    } else {
        0
    };
    if unit_len > 0 {
        let rest = s.subrange(unit_len, s.len() as int);
        if rest.len() > 0 && is_cn_digit(rest[0]) {
            Some(rest.subrange(1, rest.len() as int))
        } else {
            Some(rest)
        }
    } else if s.len() > 0 && is_cn_digit(s[0]) {
        Some(s.subrange(1, s.len() as int))
    } else {
        None
    }
}

fn is_cn_digit_exec(c: char) -> (b: bool)
    ensures
        b == is_cn_digit(c),
{
    c == '一' || c == '二' || c == '三' || c == '四' || c == '五' || c == '六' || c == '七'
        || c == '八' || c == '九'
}

/// Strips a Chinese numeral (一 to 九十九) from the start of `s`.
pub fn strip_cn_number_prefix(s: &[char]) -> (r: Option<Vec<char>>)
    ensures
        match r {
            Some(v) => strip_cn_number(s@) == Some(v@),
            None => strip_cn_number(s@) is None,
        },
{
    let unit_len: usize = if s.len() >= 2 && is_cn_digit_exec(s[0]) && s[0] != '一' && s[1]
        == '十' {
        2
    } else if s.len() >= 1 && s[0] == '十' {
        1
    } else {
        0
    };
    if unit_len > 0 {
        let rest = slice_chars(s, unit_len, s.len());
        if rest.len() > 0 && is_cn_digit_exec(rest[0]) {
            Some(slice_chars(&rest, 1, rest.len()))
        } else {
            Some(rest)
        }
    } else if s.len() > 0 && is_cn_digit_exec(s[0]) {
        Some(slice_chars(s, 1, s.len()))
    } else {
        None
    }
}

/// Remainder after an Arabic or Chinese number at the start of `s` (all of `s` when none).
pub open spec fn skip_number(s: Seq<char>) -> Seq<char> {
    if s.len() > 0 && is_digit(s[0]) {
        skip_digits(s)
    } else {
        match strip_cn_number(s) {
            Some(r) => r,
            None => s,
        }
    }
}

fn skip_number_exec(s: &[char]) -> (r: Vec<char>)
    ensures
        r@ == skip_number(s@),
{
    if s.len() > 0 && is_ascii_digit(s[0]) {
        skip_digits_chars(s)
    } else {
        match strip_cn_number_prefix(s) {
            Some(r) => r,
            None => slice_chars(s, 0, s.len()),
        }
    }
}

// ---------------------------------------------------------------------------
// Chapter headings
// ---------------------------------------------------------------------------

pub open spec fn special_headings() -> Seq<Seq<char>> {
    seq!["序章"@, "终章"@, "番外"@, "楔子"@, "尾声"@, "引子"@, "后记"@, "前言"@, "序言"@, "序节"@]
}

pub open spec fn is_volume_mark(c: char) -> bool {
    c == '章' || c == '回' || c == '节' || c == '卷' || c == '篇'
}

/// A `第…章`-style heading: a number after 第, then a marker, then at most
/// twenty characters of title.
pub open spec fn numbered_cn_heading(t: Seq<char>) -> bool {
    let after = t.subrange(1, t.len() as int);
    let rest = skip_number(after);
    let marker_len: int = if has_prefix(rest, "部分"@) {
        2
    } else if rest.len() > 0 && is_volume_mark(rest[0]) {
        1
    } else {
        0
    };
    &&& t.len() > 0 && t[0] == '第'
    &&& !(rest.len() > 0 && rest == after)
    &&& marker_len > 0
    &&& trim(rest.subrange(marker_len, rest.len() as int)).len() <= 20
}

/// The heading a line stands for, if it is one.
pub open spec fn chapter_heading(line: Seq<char>) -> Option<Seq<char>> {
    let t = trim(line);
    let upper = unicode_upper(t);
    if t.len() == 0 || utf8_len(t) > 80 {
        None
    } else if numbered_cn_heading(t) {
        Some(t)
    } else if exists|k: int| 0 <= k < special_headings().len() && has_prefix(t, #[trigger] special_headings()[k]) {
        Some(t)
    } else if has_prefix(upper, "CHAPTER "@) || has_prefix(upper, "PART "@) {
        Some(t)
    } else if utf8_len(t) >= 3 && is_digit(t[0]) && skip_digits(t).len() > 0 && (skip_digits(t)[0]
        == '.' || skip_digits(t)[0] == '、' || skip_digits(t)[0] == ' ') {
        Some(t)
    } else if strip_cn_number(t) matches Some(r) && r.len() > 0 && (r[0] == '、' || r[0] == '，'
        || r[0] == ',') {
        Some(t)
    } else {
        None
    }
}

/// A line made of 第, a number (Arabic digits, or one Chinese digit), a part
/// marker (章, 回, 节, 卷, 篇 or 部分) and a short title (at most twenty
/// characters, no spaces) is a chapter heading, and the heading is the line.
pub proof fn law_numbered_heading_each_marker(n: Seq<char>, mk: Seq<char>, title: Seq<char>)
    requires
        (n.len() > 0 && forall|i: int| 0 <= i < n.len() ==> is_digit(#[trigger] n[i])) || (n.len()
            == 1 && is_cn_digit(n[0])),
        mk == seq!['章'] || mk == seq!['回'] || mk == seq!['节'] || mk == seq!['卷'] || mk
            == seq!['篇'] || mk == seq!['部', '分'],
        title.len() <= 20,
        forall|i: int| 0 <= i < title.len() ==> !crate::text::is_ws(#[trigger] title[i]),
        utf8_len(seq!['第'] + n + mk + title) <= 80,
    ensures
        chapter_heading(seq!['第'] + n + mk + title) == Some(seq!['第'] + n + mk + title),
{
    let line = seq!['第'] + n + mk + title;
    let after = n + mk + title;
    reveal_strlit("部分");
    crate::text::lemma_trim_start_at(line, 0);
    assert(!crate::text::is_ws(line.last()));
    crate::text::lemma_trim_end_at(line, line.len() as int);
    assert(line.subrange(0, line.len() as int) =~= line);
    assert(trim(line) == line);
    assert(line.subrange(1, line.len() as int) =~= after);
    let rest = mk + title;
    if n.len() > 0 && forall|i: int| 0 <= i < n.len() ==> is_digit(#[trigger] n[i]) {
        assert forall|j: int| 0 <= j < n.len() implies is_digit(#[trigger] after[j]) by {
            assert(after[j] == n[j]);
        }
        assert(after[n.len() as int] == mk[0]);
        crate::text::lemma_skip_digits_at(after, n.len() as int);
        assert(after.subrange(n.len() as int, after.len() as int) =~= rest);
        assert(skip_number(after) == rest);
    } else {
        assert(after[1] == mk[0]);
        assert(after.subrange(1, after.len() as int) =~= rest);
        assert(skip_number(after) == rest);
    }
    crate::text::lemma_trim_start_at(title, 0);
    crate::text::lemma_trim_end_at(title, title.len() as int);
    assert(title.subrange(0, title.len() as int) =~= title);
    assert(trim(title) == title);
    if mk == seq!['部', '分'] {
        assert(rest.subrange(0, 2) =~= "部分"@);
        assert(rest.subrange(2, rest.len() as int) =~= title);
    } else {
        assert(rest[0] == mk[0]);
        assert("部分"@[0] == '部');
        if has_prefix(rest, "部分"@) {
            assert(rest.subrange(0, 2)[0] == rest[0]);
        }
        assert(!has_prefix(rest, "部分"@));
        assert(rest.subrange(1, rest.len() as int) =~= title);
    }
    assert(numbered_cn_heading(line));
}

fn numbered_cn_heading_exec(t: &[char]) -> (b: bool)
    ensures
        b == numbered_cn_heading(t@),
{
    if !(t.len() > 0 && t[0] == '第') {
        return false;
    }
    let after = slice_chars(t, 1, t.len());
    let rest = skip_number_exec(&after);
    if rest.len() > 0 && crate::text::chars_eq(&rest, &after) {
        return false;
    }
    let bufen = to_chars("部分");
    proof {
        reveal_strlit("部分");
    }
    let marker_len: usize = if starts_with(&rest, &bufen) {
        2
    } else if rest.len() > 0 && (rest[0] == '章' || rest[0] == '回' || rest[0] == '节' || rest[0]
        == '卷' || rest[0] == '篇') {
        1
    } else {
        0
    };
    if marker_len == 0 {
        return false;
    }
    let after_marker = slice_chars(&rest, marker_len, rest.len());
    let tr = trim_chars(&after_marker);
    tr.len() <= 20
}

fn is_chapter_line_chars(line: &[char]) -> (r: Option<Vec<char>>)
    ensures
        match r {
            Some(v) => chapter_heading(line@) == Some(v@),
            None => chapter_heading(line@) is None,
        },
{
    let t = trim_chars(line);
    if t.len() == 0 || utf8_len_exceeds(&t, 80) {
        return None;
    }
    if numbered_cn_heading_exec(&t) {
        return Some(t);
    }
    let items: [&str; 10] = ["序章", "终章", "番外", "楔子", "尾声", "引子", "后记", "前言", "序言", "序节"];
    let specials = lit_list(&items);
    proof {
        lemma_lit_list_views(specials@, items@);
        assert(lit_views(items@) =~= special_headings());
    }
    let sp = starts_with_any(&t, &specials);
    proof {
        if sp {
            let k = choose|k: int| 0 <= k < specials@.len() && has_prefix(t@, #[trigger] specials@[k]@);
            assert(special_headings()[k] == specials@[k]@);
        }
        if exists|k: int| 0 <= k < special_headings().len() && has_prefix(t@, #[trigger] special_headings()[k]) {
            let k = choose|k: int| 0 <= k < special_headings().len() && has_prefix(t@, #[trigger] special_headings()[k]);
            assert(special_headings()[k] == specials@[k]@);
        }
    }
    if sp {
        return Some(t);
    }
    let ts = from_chars(&t);
    let upper = to_chars(to_upper(ts.as_str()).as_str());
    if starts_with(&upper, &to_chars("CHAPTER ")) || starts_with(&upper, &to_chars("PART ")) {
        return Some(t);
    }
    if utf8_len_exceeds(&t, 2) && is_ascii_digit(t[0]) {
        let rest = skip_digits_chars(&t);
        if rest.len() > 0 && (rest[0] == '.' || rest[0] == '、' || rest[0] == ' ') {
            return Some(t);
        }
    }
    match strip_cn_number_prefix(&t) {
        Some(r) => {
            if r.len() > 0 && (r[0] == '、' || r[0] == '，' || r[0] == ',') {
                return Some(t);
            }
        },
        None => {},
    }
    None
}

// ---------------------------------------------------------------------------
// Splitting into chapters
// ---------------------------------------------------------------------------

/// State of the chapter split: finished chapters and titles, the lines of
/// the current chapter and its title.
pub struct SplitState {
    pub chapters: Seq<Seq<char>>,
    pub titles: Seq<Seq<char>>,
    pub current: Seq<Seq<char>>,
    pub title: Seq<char>,
}

/// Closes the current chapter: kept when its trimmed text is not empty.
pub open spec fn flush_chapter(st: SplitState) -> SplitState {
    if st.current.len() > 0 && trim(join(st.current, "\n"@)).len() > 0 {
        SplitState {
            chapters: st.chapters.push(trim(join(st.current, "\n"@))),
            titles: st.titles.push(st.title),
            ..st
        }
    } else {
        st
    }
}

pub open spec fn split_step(st: SplitState, line: Seq<char>) -> SplitState {
    match chapter_heading(line) {
        Some(h) => SplitState { current: seq![], title: h, ..flush_chapter(st) },
        None => SplitState { current: st.current.push(line), ..st },
    }
}

pub open spec fn split_scan(ls: Seq<Seq<char>>, n: int) -> SplitState
    decreases n,
{
    if n <= 0 {
        SplitState { chapters: seq![], titles: seq![], current: seq![], title: "前言"@ }
    } else {
        split_step(split_scan(ls, n - 1), ls[n - 1])
    }
}

/// Chapters and titles of a text whose lines contain headings; text before
/// the first heading becomes a chapter titled 前言.
pub open spec fn split_chapters(ls: Seq<Seq<char>>) -> (Seq<Seq<char>>, Seq<Seq<char>>) {
    let st = flush_chapter(split_scan(ls, ls.len() as int));
    (st.chapters, st.titles)
}

fn flush_exec(
    chapters: &mut Vec<String>,
    titles: &mut Vec<String>,
    current: &Vec<Vec<char>>,
    title: &Vec<char>,
)
    ensures
        ({
            let st = SplitState {
                chapters: str_views(old(chapters)@),
                titles: str_views(old(titles)@),
                current: views(current@),
                title: title@,
            };
            let nx = flush_chapter(st);
            &&& str_views(final(chapters)@) == nx.chapters
            &&& str_views(final(titles)@) == nx.titles
        }),
{
    if current.len() > 0 {
        let nl = to_chars("\n");
        let joined = join_chars(current, &nl);
        let content = trim_chars(&joined);
        if content.len() > 0 {
            let ghost c0 = str_views(chapters@);
            let ghost t0 = str_views(titles@);
            let cs = from_chars(&content);
            let ts = from_chars(title);
            chapters.push(cs);
            titles.push(ts);
            assert(str_views(chapters@) =~= c0.push(content@));
            assert(str_views(titles@) =~= t0.push(title@));
        }
    }
}

fn split_by_chapters(ls: &Vec<Vec<char>>) -> (r: (Vec<String>, Vec<String>))
    ensures
        (str_views(r.0@), str_views(r.1@)) == split_chapters(views(ls@)),
{
    let mut chapters: Vec<String> = Vec::new();
    let mut titles: Vec<String> = Vec::new();
    let mut current: Vec<Vec<char>> = Vec::new();
    let mut title: Vec<char> = to_chars("前言");
    let mut i: usize = 0;
    assert(str_views(chapters@) =~= Seq::<Seq<char>>::empty());
    assert(str_views(titles@) =~= Seq::<Seq<char>>::empty());
    assert(views(current@) =~= Seq::<Seq<char>>::empty());
    while i < ls.len()
        invariant
            i <= ls.len(),
            ({
                let st = split_scan(views(ls@), i as int);
                &&& str_views(chapters@) == st.chapters
                &&& str_views(titles@) == st.titles
                &&& views(current@) == st.current
                &&& title@ == st.title
            }),
        decreases ls.len() - i,
    {
        let line = &ls[i];
        assert(views(ls@)[i as int] == line@);
        match is_chapter_line_chars(line) {
            Some(h) => {
                flush_exec(&mut chapters, &mut titles, &current, &title);
                title = h;
                current = Vec::new();
                assert(views(current@) =~= Seq::<Seq<char>>::empty());
            },
            None => {
                let ghost c0 = views(current@);
                current.push(slice_chars(line, 0, line.len()));
                assert(line@.subrange(0, line@.len() as int) == line@);
                assert(views(current@) =~= c0.push(line@));
            },
        }
        i = i + 1;
    }
    flush_exec(&mut chapters, &mut titles, &current, &title);
    (chapters, titles)
}

/// Detects whether a line is a chapter heading; returns the trimmed heading.
pub fn is_chapter_line(line: &str) -> (r: Option<String>)
    ensures
        match r {
            Some(h) => chapter_heading(line@) == Some(h@),
            None => chapter_heading(line@) is None,
        },
{
    let v = to_chars(line);
    match is_chapter_line_chars(&v) {
        Some(h) => Some(from_chars(&h)),
        None => None,
    }
}

/// Whether some line is a chapter heading.
pub open spec fn has_headings(ls: Seq<Seq<char>>) -> bool {
    exists|i: int| 0 <= i < ls.len() && chapter_heading(#[trigger] ls[i]) is Some
}

/// Chapters and titles of decoded text: split at headings when there are
/// any, otherwise the whole trimmed text (if not empty) under 文本文件.
pub open spec fn text_chapters(text: Seq<char>) -> (Seq<Seq<char>>, Seq<Seq<char>>) {
    let ls = lines(text);
    if has_headings(ls) {
        split_chapters(ls)
    } else {
        (
            if trim(text).len() > 0 {
                seq![trim(text)]
            } else {
                seq![]
            },
            seq!["文本文件"@],
        )
    }
}

/// The result of parsing a plain-text file: its chapters and titles, and
/// nothing else (no table of contents, metadata, warnings, cover or images).
pub open spec fn txt_parsed(raw: Seq<u8>, r: ParseResult) -> bool {
    &&& (str_views(r.content@), str_views(r.chapter_titles@)) == text_chapters(decoded_text(raw))
    &&& r.spine_hrefs@.len() == 0
    &&& r.toc is None
    &&& r.metadata is None
    &&& r.warnings@.len() == 0
    &&& r.cover_image is None
    &&& r.cover_media_type is None
    &&& r.image_assets@.len() == 0
    &&& r.chapter_image_blocks@.len() == 0
    &&& r.chapter_links@.len() == 0
    &&& r.chapter_anchors@.len() == 0
    &&& r.chapter_heading_flags@.len() == 0
}

/// Plain-text parser with automatic chapter detection.
#[derive(Debug)]
pub struct TxtParser;

impl TxtParser {
    pub fn new() -> (p: TxtParser) {
        TxtParser
    }

    /// Chapters and titles of decoded text.
    pub fn parse_text(text: &str) -> (r: (Vec<String>, Vec<String>))
        ensures
            (str_views(r.0@), str_views(r.1@)) == text_chapters(text@),
    {
        let cv = to_chars(text);
        let ls = lines_chars(&cv);
        let mut found = false;
        let mut i: usize = 0;
        while i < ls.len() && !found
            invariant
                i <= ls.len(),
                found ==> has_headings(views(ls@)),
                !found ==> forall|k: int| 0 <= k < i ==> chapter_heading(#[trigger] views(ls@)[k]) is None,
            decreases ls.len() - i,
        {
            assert(views(ls@)[i as int] == ls@[i as int]@);
            if is_chapter_line_chars(&ls[i]).is_some() {
                found = true;
            }
            i = i + 1;
        }
        if found {
            split_by_chapters(&ls)
        } else {
            let t = trim_chars(&cv);
            let mut content: Vec<String> = Vec::new();
            if t.len() > 0 {
                content.push(from_chars(&t));
            }
            let mut titles: Vec<String> = Vec::new();
            titles.push("文本文件".to_owned());
            assert(str_views(content@) =~= (if trim(text@).len() > 0 {
                seq![trim(text@)]
            } else {
                Seq::<Seq<char>>::empty()
            }));
            assert(str_views(titles@) =~= seq!["文本文件"@]);
            (content, titles)
        }
    }

    /// Parses the bytes of a plain-text book.
    pub fn parse_bytes(&self, raw: &[u8]) -> (r: ParseResult)
        ensures
            txt_parsed(raw@, r),
    {
        let text = decode_text(raw);
        let (content, chapter_titles) = Self::parse_text(text.as_str());
        ParseResult {
            content,
            chapter_titles,
            spine_hrefs: Vec::new(),
            toc: None,
            metadata: None,
            warnings: Vec::new(),
            cover_image: None,
            cover_media_type: None,
            image_assets: Vec::new(),
            chapter_image_blocks: Vec::new(),
            chapter_links: Vec::new(),
            chapter_anchors: Vec::new(),
            chapter_heading_flags: Vec::new(),
        }
    }
}

impl BookParser for TxtParser {
    fn parse(&self, raw: Vec<u8>) -> (r: Result<ParseResult, AppError>)
        ensures
            r matches Ok(p) && txt_parsed(raw@, p),
    {
        Ok(self.parse_bytes(&raw))
    }
}

// ---------------------------------------------------------------------------
// Laws
// ---------------------------------------------------------------------------

/// Law: a detected chapter heading is the line itself, trimmed, and not empty.
pub proof fn law_heading_is_trimmed_line(line: Seq<char>)
    ensures
        chapter_heading(line) matches Some(h) ==> h == trim(line) && h.len() > 0,
{
}

/// The titles and chapters of a split are aligned, every chapter holds some
/// non-blank text, and every title is 前言 or a heading line of the text.
pub open spec fn split_well_formed(st: SplitState, ls: Seq<Seq<char>>) -> bool {
    &&& st.chapters.len() == st.titles.len()
    &&& forall|j: int| 0 <= j < st.chapters.len() ==> trim(#[trigger] st.chapters[j]).len() > 0
    &&& forall|j: int|
        0 <= j < st.titles.len() ==> #[trigger] st.titles[j] == "前言"@ || exists|i: int|
            0 <= i < ls.len() && chapter_heading(ls[i]) == Some(st.titles[j])
    &&& (st.title == "前言"@ || exists|i: int| 0 <= i < ls.len() && chapter_heading(ls[i]) == Some(st.title))
}

pub proof fn lemma_split_scan_well_formed(ls: Seq<Seq<char>>, n: int)
    requires
        0 <= n <= ls.len(),
    ensures
        split_well_formed(split_scan(ls, n), ls),
        split_well_formed(flush_chapter(split_scan(ls, n)), ls),
    decreases n,
{
    if n > 0 {
        lemma_split_scan_well_formed(ls, n - 1);
        let st = split_scan(ls, n - 1);
        let fl = flush_chapter(st);
        if st.current.len() > 0 && trim(join(st.current, "\n"@)).len() > 0 {
            crate::text::lemma_trim_idempotent(join(st.current, "\n"@));
        }
        let st2 = split_scan(ls, n);
        if chapter_heading(ls[n - 1]) is Some {
            assert(st2.title == chapter_heading(ls[n - 1])->0);
        }
        let fl2 = flush_chapter(st2);
        if st2.current.len() > 0 && trim(join(st2.current, "\n"@)).len() > 0 {
            crate::text::lemma_trim_idempotent(join(st2.current, "\n"@));
        }
    } else {
        reveal_strlit("前言");
    }
}

/// Law: splitting a text at its chapter headings gives as many titles as
/// chapters, every chapter has some non-blank text, and every title is a
/// heading line of the text (or 前言 for text before the first heading).
pub proof fn law_split_chapters_well_formed(ls: Seq<Seq<char>>)
    ensures
        split_chapters(ls).0.len() == split_chapters(ls).1.len(),
        forall|j: int|
            0 <= j < split_chapters(ls).0.len() ==> trim(#[trigger] split_chapters(ls).0[j]).len() > 0,
        forall|j: int|
            0 <= j < split_chapters(ls).1.len() ==> #[trigger] split_chapters(ls).1[j] == "前言"@
                || exists|i: int| 0 <= i < ls.len() && chapter_heading(ls[i]) == Some(split_chapters(ls).1[j]),
{
    lemma_split_scan_well_formed(ls, ls.len() as int);
}

/// Law: a plain-text file holding the UTF-8 encoding of a text reads back as
/// that text (unless the text itself starts with a byte-order mark, which
/// is taken as one).
pub proof fn law_utf8_file_reads_back(text: Seq<char>)
    requires
        text.len() == 0 || text[0] != '\u{FEFF}',
    ensures
        decoded_text(encode_utf8(text)) == text,
{
    let b = encode_utf8(text);
    vstd::utf8::encode_utf8_valid_utf8(text);
    vstd::utf8::encode_utf8_decode_utf8(text);
    if b.len() > 0 {
        assert(text.len() > 0);
        assert(vstd::utf8::valid_first_scalar(b));
        assert(b[0] != 0xFEu8 && b[0] != 0xFFu8);
        if has_bytes_prefix(b, seq![0xEFu8, 0xBBu8, 0xBFu8]) {
            assert(b.subrange(0, 3)[0] == b[0]);
            assert(b.subrange(0, 3)[1] == b[1]);
            assert(b.subrange(0, 3)[2] == b[2]);
            vstd::utf8::encode_utf8_first_scalar(text);
            assert(vstd::utf8::codepoint_width_3(0xEFu8, 0xBBu8, 0xBFu8) == 0xFEFFu32) by (bit_vector);
            assert(text[0] as u32 == 0xFEFFu32);
            assert(false);
        }
        if has_bytes_prefix(b, seq![0xFFu8, 0xFEu8]) || has_bytes_prefix(b, seq![0xFEu8, 0xFFu8]) {
            assert(b.subrange(0, 2)[0] == b[0]);
        }
    }
}

} // verus!
