//! Chapter building: paragraph splitting, paragraph-kind inference and
//! mapping of table-of-contents entries to chapters.

use vstd::prelude::*;
use crate::domain::{Chapter, ChapterBlock, InlineImageBlock, Paragraph, ParagraphKind, TocItem, INDENT_MARKER};
use crate::text::{
    after_last, after_last_chars, before_first, find, before_first_chars, chars_eq, contains,
    contains_chars, decimal, decimal_chars, extend_chars, from_chars, has_char, has_prefix,
    is_ascii_digit, is_digit, is_one_of, is_whitespace, is_ws, join, join_chars,
    leading_digits, lemma_lit_list_views, lit_list, lit_views, skip_digits, slice_chars, split,
    split_chars, starts_with, starts_with_any, str_views, to_chars, to_upper, trim, trim_chars,
    unicode_upper, utf8_char_len, utf8_len, utf8_len_exceeds, views, words, words_chars,
};

verus! {

// ---------------------------------------------------------------------------
// Literal lists
// ---------------------------------------------------------------------------

pub open spec fn separator_lines() -> Seq<Seq<char>> {
    seq!["***"@, "---"@, "＊＊＊"@, "* * *"@, "————"@, "===="@, "~~~~"@, "___"@]
}

fn separator_lines_exec() -> (r: Vec<Vec<char>>)
    ensures
        views(r@) == separator_lines(),
{
    let items: [&str; 8] = ["***", "---", "＊＊＊", "* * *", "————", "====", "~~~~", "___"];
    let r = lit_list(&items);
    proof {
        lemma_lit_list_views(r@, items@);
        assert(lit_views(items@) =~= separator_lines());
    }
    r
}

pub open spec fn title_words() -> Seq<Seq<char>> {
    seq!["序章"@, "终章"@, "番外"@, "楔子"@, "尾声"@, "引子"@, "后记"@, "前言"@, "序言"@]
}

fn title_words_exec() -> (r: Vec<Vec<char>>)
    ensures
        views(r@) == title_words(),
{
    let items: [&str; 9] = ["序章", "终章", "番外", "楔子", "尾声", "引子", "后记", "前言", "序言"];
    let r = lit_list(&items);
    proof {
        lemma_lit_list_views(r@, items@);
        assert(lit_views(items@) =~= title_words());
    }
    r
}

pub open spec fn cn_numerals() -> Seq<Seq<char>> {
    seq![
        "一"@, "二"@, "三"@, "四"@, "五"@, "六"@, "七"@, "八"@, "九"@, "十"@, "十一"@,
        "十二"@, "十三"@, "十四"@, "十五"@, "十六"@, "十七"@, "十八"@, "十九"@, "二十"@,
        "三十"@, "四十"@, "五十"@, "六十"@, "七十"@, "八十"@, "九十"@,
    ]
}

fn cn_numerals_exec() -> (r: Vec<Vec<char>>)
    ensures
        views(r@) == cn_numerals(),
{
    let items: [&str; 27] = [
        "一", "二", "三", "四", "五", "六", "七", "八", "九", "十", "十一", "十二", "十三",
        "十四", "十五", "十六", "十七", "十八", "十九", "二十", "三十", "四十", "五十", "六十",
        "七十", "八十", "九十",
    ];
    let r = lit_list(&items);
    proof {
        lemma_lit_list_views(r@, items@);
        assert(lit_views(items@) =~= cn_numerals());
    }
    r
}

// ---------------------------------------------------------------------------
// Separator lines
// ---------------------------------------------------------------------------

pub open spec fn all_same(s: Seq<char>, c: char) -> bool {
    forall|i: int| 0 <= i < s.len() ==> s[i] == c
}

pub open spec fn is_rule_char(c: char) -> bool {
    c == '*' || c == '-' || c == '—' || c == '＊' || c == '~' || c == '=' || c == '_'
}

pub open spec fn is_box_char(c: char) -> bool {
    c == '─' || c == '━' || c == '·' || c == '•'
}

/// The characters of `s` that are not whitespace, in order.
pub open spec fn non_ws(s: Seq<char>) -> Seq<char>
    decreases s.len(),
{
    if s.len() == 0 {
        seq![]
    } else if is_ws(s.last()) {
        non_ws(s.drop_last())
    } else {
        non_ws(s.drop_last()).push(s.last())
    }
}

pub open spec fn is_separator_line_spec(text: Seq<char>) -> bool {
    let t = trim(text);
    let ns = non_ws(t);
    ||| separator_lines().contains(t)
    ||| t.len() >= 3 && all_same(t, t[0]) && is_rule_char(t[0])
    ||| t.len() >= 5 && all_same(t, '.')
    ||| ns.len() >= 3 && (forall|i: int| 0 <= i < ns.len() ==> is_box_char(ns[i])) && all_same(
        ns,
        ns[0],
    )
}

fn all_same_exec(s: &[char], c: char) -> (b: bool)
    ensures
        b == all_same(s@, c),
{
    let mut i: usize = 0;
    while i < s.len()
        invariant
            i <= s.len(),
            forall|k: int| 0 <= k < i ==> s@[k] == c,
        decreases s.len() - i,
    {
        if s[i] != c {
            return false;
        }
        i = i + 1;
    }
    true
}

fn non_ws_exec(s: &[char]) -> (r: Vec<char>)
    ensures
        r@ == non_ws(s@),
{
    let mut r: Vec<char> = Vec::new();
    let mut i: usize = 0;
    while i < s.len()
        invariant
            i <= s.len(),
            r@ == non_ws(s@.take(i as int)),
        decreases s.len() - i,
    {
        assert(s@.take(i + 1).drop_last() == s@.take(i as int));
        if !is_whitespace(s[i]) {
            r.push(s[i]);
        }
        i = i + 1;
    }
    assert(s@.take(s.len() as int) == s@);
    r
}

fn is_separator_line(text: &[char]) -> (b: bool)
    ensures
        b == is_separator_line_spec(text@),
{
    let t = trim_chars(text);
    let seps = separator_lines_exec();
    if is_one_of(&t, &seps) {
        return true;
    }
    if t.len() >= 3 && all_same_exec(&t, t[0]) {
        let c = t[0];
        if c == '*' || c == '-' || c == '—' || c == '＊' || c == '~' || c == '=' || c == '_' {
            return true;
        }
    }
    if t.len() >= 5 && all_same_exec(&t, '.') {
        return true;
    }
    let ns = non_ws_exec(&t);
    if ns.len() >= 3 {
        let mut i: usize = 0;
        let mut ok = true;
        while i < ns.len()
            invariant
                i <= ns.len(),
                ok == forall|k: int| 0 <= k < i ==> is_box_char(ns@[k]),
            decreases ns.len() - i,
        {
            let c = ns[i];
            if !(c == '─' || c == '━' || c == '·' || c == '•') {
                ok = false;
            }
            i = i + 1;
        }
        if ok && all_same_exec(&ns, ns[0]) {
            return true;
        }
    }
    false
}

// ---------------------------------------------------------------------------
// Quotes, titles, subtitles
// ---------------------------------------------------------------------------

pub open spec fn wrapped_by(t: Seq<char>, open: char, close: char) -> bool {
    t.len() > 0 && t[0] == open && t.last() == close && utf8_len(t) > 2
}

pub open spec fn is_quote_wrapped_spec(text: Seq<char>) -> bool {
    let t = trim(text);
    ||| wrapped_by(t, '「', '」')
    ||| wrapped_by(t, '『', '』')
    ||| wrapped_by(t, '"', '"')
    ||| wrapped_by(t, '\'', '\'')
    ||| wrapped_by(t, '《', '》')
}

fn wrapped_by_exec(t: &[char], open: char, close: char) -> (b: bool)
    ensures
        b == wrapped_by(t@, open, close),
{
    t.len() > 0 && t[0] == open && t[t.len() - 1] == close && utf8_len_exceeds(t, 2)
}

fn is_quote_wrapped(text: &[char]) -> (b: bool)
    ensures
        b == is_quote_wrapped_spec(text@),
{
    let t = trim_chars(text);
    wrapped_by_exec(&t, '「', '」') || wrapped_by_exec(&t, '『', '』') || wrapped_by_exec(
        &t,
        '"',
        '"',
    ) || wrapped_by_exec(&t, '\'', '\'') || wrapped_by_exec(&t, '《', '》')
}

pub open spec fn is_title_line_spec(text: Seq<char>, char_count: nat) -> bool {
    if char_count >= 50 {
        false
    } else {
        let upper = unicode_upper(text);
        ||| text.len() > 0 && text[0] == '第' && (text.contains('章') || text.contains('回')
            || text.contains('节') || text.contains('卷') || contains(text, "部分"@)
            || text.contains('篇'))
        ||| has_prefix(upper, "CHAPTER "@) || has_prefix(upper, "PART "@)
        ||| exists|k: int| 0 <= k < title_words().len() && has_prefix(text, title_words()[k])
    }
}

fn is_title_line(text_str: &str, text: &[char], char_count: usize) -> (b: bool)
    requires
        text_str@ == text@,
    ensures
        b == is_title_line_spec(text@, char_count as nat),
{
    if char_count >= 50 {
        return false;
    }
    if text.len() > 0 && text[0] == '第' && (has_char(text, '章') || has_char(text, '回')
        || has_char(text, '节') || has_char(text, '卷') || contains_chars(text, &to_chars("部分"))
        || has_char(text, '篇')) {
        return true;
    }
    let upper = to_chars(to_upper(text_str).as_str());
    if starts_with(&upper, &to_chars("CHAPTER ")) || starts_with(&upper, &to_chars("PART ")) {
        return true;
    }
    let words = title_words_exec();
    let r = starts_with_any(text, &words);
    proof {
        if r {
            let k = choose|k: int| 0 <= k < words@.len() && has_prefix(text@, #[trigger] words@[k]@);
            assert(title_words()[k] == words@[k]@);
        }
        if exists|k: int| 0 <= k < title_words().len() && has_prefix(text@, title_words()[k]) {
            let k = choose|k: int| 0 <= k < title_words().len() && has_prefix(text@, title_words()[k]);
            assert(title_words()[k] == words@[k]@);
        }
    }
    r
}

pub open spec fn is_subtitle_mark(c: char) -> bool {
    c == '、' || c == '，' || c == ','
}

pub open spec fn is_subtitle_like_spec(text: Seq<char>) -> bool {
    let t = trim(text);
    let rest = skip_digits(t);
    ||| t.len() > 0 && is_digit(t[0]) && rest.len() > 0 && (rest[0] == '.' || rest[0] == '、')
    ||| exists|k: int| 0 <= k < cn_numerals().len() && cn_marked(t, #[trigger] cn_numerals()[k])
}

/// `t` starts with the numeral `num` followed by an enumeration mark.
pub open spec fn cn_marked(t: Seq<char>, num: Seq<char>) -> bool {
    has_prefix(t, num) && num.len() < t.len() && is_subtitle_mark(t[num.len() as int])
}

fn is_subtitle_like(text: &[char]) -> (b: bool)
    ensures
        b == is_subtitle_like_spec(text@),
{
    let t = trim_chars(text);
    let k = leading_digits(&t);
    if k < t.len() {
        assert(skip_digits(t@)[0] == t@[k as int]);
    }
    if t.len() > 0 && is_ascii_digit(t[0]) && k < t.len() && (t[k] == '.' || t[k] == '、') {
        return true;
    }
    let nums = cn_numerals_exec();
    let mut i: usize = 0;
    while i < nums.len()
        invariant
            i <= nums.len(),
            views(nums@) == cn_numerals(),
            t@ == trim(text@),
            forall|k: int| 0 <= k < i ==> !cn_marked(t@, #[trigger] cn_numerals()[k]),
        decreases nums.len() - i,
    {
        let num = &nums[i];
        assert(num@ == cn_numerals()[i as int]);
        if starts_with(&t, num) {
            let n = num.len();
            if n < t.len() && (t[n] == '、' || t[n] == '，' || t[n] == ',') {
                assert(cn_marked(t@, cn_numerals()[i as int]));
                return true;
            }
        }
        i = i + 1;
    }
    false
}

pub open spec fn infer_kind_spec(text: Seq<char>) -> ParagraphKind {
    let n = text.len();
    if is_separator_line_spec(text) {
        ParagraphKind::Separator
    } else if (text.len() > 0 && text[0] == '>') || is_quote_wrapped_spec(text) {
        ParagraphKind::Quote
    } else if is_title_line_spec(text, n) {
        ParagraphKind::Title
    } else if n < 30 && n >= 2 && is_subtitle_like_spec(text) {
        ParagraphKind::Subtitle
    } else {
        ParagraphKind::Body
    }
}

fn infer_kind_chars(text_str: &str, text: &[char]) -> (k: ParagraphKind)
    requires
        text_str@ == text@,
    ensures
        k == infer_kind_spec(text@),
{
    let n = text.len();
    if is_separator_line(text) {
        return ParagraphKind::Separator;
    }
    if (text.len() > 0 && text[0] == '>') || is_quote_wrapped(text) {
        return ParagraphKind::Quote;
    }
    if is_title_line(text_str, text, n) {
        return ParagraphKind::Title;
    }
    if n < 30 && n >= 2 && is_subtitle_like(text) {
        return ParagraphKind::Subtitle;
    }
    ParagraphKind::Body
}

/// Classifies a paragraph as separator, quote, title, subtitle or body.
pub fn infer_paragraph_kind(text: &str) -> (k: ParagraphKind)
    ensures
        k == infer_kind_spec(text@),
{
    let v = to_chars(text);
    infer_kind_chars(text, &v)
}

// ---------------------------------------------------------------------------
// Laws on paragraph kinds
// ---------------------------------------------------------------------------

proof fn lemma_non_ws_first(s: Seq<char>)
    requires
        s.len() > 0,
        !is_ws(s[0]),
    ensures
        non_ws(s).len() > 0,
        non_ws(s)[0] == s[0],
    decreases s.len(),
{
    if s.len() > 1 {
        let d = s.drop_last();
        assert(d[0] == s[0]);
        lemma_non_ws_first(d);
        if !is_ws(s.last()) {
            assert(non_ws(s) == non_ws(d).push(s.last()));
            assert(non_ws(d).push(s.last())[0] == non_ws(d)[0]);
        } else {
            assert(non_ws(s) == non_ws(d));
        }
    } else {
        assert(s.drop_last().len() == 0);
        assert(non_ws(s.drop_last()) =~= Seq::<char>::empty());
        assert(non_ws(s) == non_ws(s.drop_last()).push(s.last()));
    }
}

/// A short paragraph (under fifty characters) that opens with 第 and names
/// a part — 章, 回, 节, 卷, 篇 or 部分 anywhere in it — is a title.
pub proof fn law_numbered_part_is_title(text: Seq<char>)
    requires
        0 < text.len() < 50,
        text[0] == '第',
        !is_ws(text.last()),
        text.contains('章') || text.contains('回') || text.contains('节') || text.contains('卷')
            || text.contains('篇') || contains(text, "部分"@),
    ensures
        infer_kind_spec(text) == ParagraphKind::Title,
{
    crate::text::lemma_trim_start_at(text, 0);
    crate::text::lemma_trim_end_at(text, text.len() as int);
    assert(text.subrange(0, text.len() as int) =~= text);
    assert(trim(text) == text);
    lemma_non_ws_first(text);
    reveal_strlit("***");
    reveal_strlit("---");
    reveal_strlit("＊＊＊");
    reveal_strlit("* * *");
    reveal_strlit("————");
    reveal_strlit("====");
    reveal_strlit("~~~~");
    reveal_strlit("___");
    assert forall|i: int| 0 <= i < separator_lines().len() implies separator_lines()[i] != text by {
        assert(separator_lines()[i][0] != '第');
    }
    assert(!separator_lines().contains(text));
    assert(!is_separator_line_spec(text));
    assert(!is_quote_wrapped_spec(text));
    assert(is_title_line_spec(text, text.len()));
}

/// A paragraph made of three or more copies of one rule character (`*`,
/// `-`, `—`, `＊`, `~`, `=`, `_`) is a separator.
pub proof fn law_rule_line_is_separator(text: Seq<char>)
    requires
        text.len() >= 3,
        is_rule_char(text[0]),
        forall|i: int| 0 <= i < text.len() ==> #[trigger] text[i] == text[0],
    ensures
        infer_kind_spec(text) == ParagraphKind::Separator,
{
    assert(!is_ws(text[0]));
    assert(text.last() == text[0]);
    crate::text::lemma_trim_start_at(text, 0);
    crate::text::lemma_trim_end_at(text, text.len() as int);
    assert(text.subrange(0, text.len() as int) =~= text);
    assert(trim(text) == text);
    assert(all_same(text, text[0]));
}

/// A paragraph wrapped in 「」, 『』 or 《》 with something inside is a
/// quote: no separator starts with these marks.
pub proof fn law_wrapped_text_is_quote(text: Seq<char>)
    requires
        text.len() >= 2,
        (text[0] == '「' && text.last() == '」') || (text[0] == '『' && text.last() == '』')
            || (text[0] == '《' && text.last() == '》'),
    ensures
        infer_kind_spec(text) == ParagraphKind::Quote,
{
    crate::text::lemma_trim_start_at(text, 0);
    crate::text::lemma_trim_end_at(text, text.len() as int);
    assert(text.subrange(0, text.len() as int) =~= text);
    assert(trim(text) == text);
    lemma_non_ws_first(text);
    reveal_strlit("***");
    reveal_strlit("---");
    reveal_strlit("＊＊＊");
    reveal_strlit("* * *");
    reveal_strlit("————");
    reveal_strlit("====");
    reveal_strlit("~~~~");
    reveal_strlit("___");
    assert forall|i: int| 0 <= i < separator_lines().len() implies separator_lines()[i] != text by {
        assert(separator_lines()[i][0] != text[0]);
    }
    assert(!is_separator_line_spec(text));
    lemma_utf8_len_lower(text);
    assert(utf8_char_len(text[0]) == 3);
    assert(is_quote_wrapped_spec(text));
}

proof fn lemma_utf8_len_lower(s: Seq<char>)
    requires
        s.len() >= 1,
    ensures
        utf8_len(s) >= utf8_char_len(s[0]) + s.len() - 1,
    decreases s.len(),
{
    let d = s.drop_last();
    if s.len() == 1 {
        assert(d.len() == 0);
        assert(utf8_len(d) == 0);
        assert(s.last() == s[0]);
    } else {
        assert(d[0] == s[0]);
        lemma_utf8_len_lower(d);
    }
}

// ---------------------------------------------------------------------------
// Indentation and paragraphs
// ---------------------------------------------------------------------------

pub open spec fn is_indent_char(c: char) -> bool {
    c == '\u{3000}' || c == ' ' || c == '\t'
}

/// Number of leading indentation characters, capped at 4.
pub open spec fn indent_of(s: Seq<char>, i: nat) -> nat
    decreases 4 - i,
{
    if i >= 4 || i >= s.len() || !is_indent_char(s[i as int]) {
        i
    } else {
        indent_of(s, i + 1)
    }
}

fn detect_indent(text: &[char]) -> (r: u8)
    ensures
        r as nat == indent_of(text@, 0),
        r <= 4,
{
    let mut i: usize = 0;
    while i < 4 && i < text.len() && (text[i] == '\u{3000}' || text[i] == ' ' || text[i] == '\t')
        invariant
            i <= 4,
            indent_of(text@, 0) == indent_of(text@, i as nat),
        decreases 4 - i,
    {
        i = i + 1;
    }
    i as u8
}

/// Level and cleaned text of one raw piece, or `None` when it holds no text.
pub open spec fn paragraph_of(piece: Seq<char>) -> Option<(u8, Seq<char>)> {
    let t = trim(piece);
    if t.len() == 0 {
        None
    } else {
        let lvl: u8 = if has_prefix(t, INDENT_MARKER@) {
            1
        } else {
            indent_of(t, 0) as u8
        };
        let body = if has_prefix(t, INDENT_MARKER@) {
            t.subrange(INDENT_MARKER@.len() as int, t.len() as int)
        } else {
            t
        };
        let clean = trim(body);
        if clean.len() == 0 {
            None
        } else {
            Some((lvl, clean))
        }
    }
}

/// The paragraphs (piece index, level, text) among the first `n` pieces.
pub open spec fn paragraphs_upto(pieces: Seq<Seq<char>>, n: int) -> Seq<(int, u8, Seq<char>)>
    decreases n,
{
    if n <= 0 {
        seq![]
    } else {
        match paragraph_of(pieces[n - 1]) {
            Some((lvl, text)) => paragraphs_upto(pieces, n - 1).push((n - 1, lvl, text)),
            None => paragraphs_upto(pieces, n - 1),
        }
    }
}

/// The paragraphs of a chapter text: the non-blank pieces between blank lines.
pub open spec fn chapter_paragraphs(text: Seq<char>) -> Seq<(int, u8, Seq<char>)> {
    let pieces = split(text, "\n\n"@);
    paragraphs_upto(pieces, pieces.len() as int)
}

pub proof fn lemma_paragraphs_upto_bounds(pieces: Seq<Seq<char>>, n: int)
    requires
        0 <= n <= pieces.len(),
    ensures
        forall|j: int|
            0 <= j < paragraphs_upto(pieces, n).len() ==> 0 <= #[trigger] paragraphs_upto(
                pieces,
                n,
            )[j].0 < n,
        forall|j: int, k: int|
            0 <= j < k < paragraphs_upto(pieces, n).len() ==> paragraphs_upto(pieces, n)[j].0
                < paragraphs_upto(pieces, n)[k].0,
    decreases n,
{
    if n > 0 {
        lemma_paragraphs_upto_bounds(pieces, n - 1);
        let prev = paragraphs_upto(pieces, n - 1);
        match paragraph_of(pieces[n - 1]) {
            Some((lvl, text)) => {
                let cur = prev.push((n - 1, lvl, text));
                assert(paragraphs_upto(pieces, n) == cur);
                assert forall|j: int, k: int| 0 <= j < k < cur.len() implies cur[j].0 < cur[k].0 by {
                    if k == cur.len() - 1 {
                        assert(cur[j] == prev[j]);
                    } else {
                        assert(cur[j] == prev[j] && cur[k] == prev[k]);
                    }
                }
                assert forall|j: int| 0 <= j < cur.len() implies 0 <= #[trigger] cur[j].0 < n by {
                    if j < cur.len() - 1 {
                        assert(cur[j] == prev[j]);
                    }
                }
            },
            None => {},
        }
    }
}

fn paragraph_piece(piece: &[char]) -> (r: Option<(u8, Vec<char>)>)
    ensures
        match (r, paragraph_of(piece@)) {
            (Some((l, t)), Some((l2, t2))) => l == l2 && t@ == t2,
            (None, None) => true,
            _ => false,
        },
{
    let t = trim_chars(piece);
    if t.len() == 0 {
        return None;
    }
    let marker = to_chars(INDENT_MARKER);
    let (lvl, body) = if starts_with(&t, &marker) {
        (1u8, slice_chars(&t, marker.len(), t.len()))
    } else {
        let d = detect_indent(&t);
        (d, slice_chars(&t, 0, t.len()))
    };
    assert(t@.subrange(0, t@.len() as int) == t@);
    let clean = trim_chars(&body);
    if clean.len() == 0 {
        None
    } else {
        Some((lvl, clean))
    }
}

/// Copies an image block.
pub fn clone_image_block(b: &InlineImageBlock) -> (r: InlineImageBlock)
    ensures
        r == *b,
{
    InlineImageBlock {
        index: b.index,
        asset_id: b.asset_id.clone(),
        alt_text: match &b.alt_text {
            Some(s) => Some(s.clone()),
            None => None,
        },
        caption: match &b.caption {
            Some(s) => Some(s.clone()),
            None => None,
        },
        source_href: match &b.source_href {
            Some(s) => Some(s.clone()),
            None => None,
        },
        is_inline: b.is_inline,
    }
}

/// Whether the images of a chapter precede its paragraphs: when the first
/// piece is a paragraph, or when there is no paragraph at all.
pub open spec fn images_lead(paras: Seq<(int, u8, Seq<char>)>) -> bool {
    paras.len() == 0 || paras[0].0 == 0
}

/// A paragraph block built from the spec triple.
pub open spec fn paragraph_matches(p: Paragraph, spec: (int, u8, Seq<char>)) -> bool {
    &&& p.index == spec.0
    &&& p.indent_level == spec.1
    &&& p.text@ == spec.2
    &&& p.kind == infer_kind_spec(spec.2)
    &&& p.source_line_hint == Some((spec.0 + 1) as usize)
    &&& p.links@.len() == 0
}

/// A chapter built from its text: paragraphs are the non-blank pieces
/// between blank lines (each with its kind and indent); image blocks come
/// first when the text starts with a paragraph (or has none); word and
/// character counts are those of the paragraph texts joined by blank lines.
pub open spec fn chapter_built(
    c: Chapter,
    index: usize,
    title: Seq<char>,
    text: Seq<char>,
    img_blocks: Seq<(isize, InlineImageBlock)>,
) -> bool {
    let paras = chapter_paragraphs(text);
    let imgs: nat = if images_lead(paras) {
        img_blocks.len()
    } else {
        0
    };
    &&& c.id@ == "ch-"@ + decimal(index as nat)
    &&& c.index == index
    &&& c.title@ == title
    &&& c.raw_title matches Some(t) && t@ == title
    &&& c.blocks@.len() == imgs + paras.len()
    &&& forall|j: int| 0 <= j < imgs ==> #[trigger] c.blocks@[j] == ChapterBlock::Image(img_blocks[j].1)
    &&& forall|j: int|
        0 <= j < paras.len() ==> (#[trigger] c.blocks@[imgs + j] matches ChapterBlock::Paragraph(p)
            && paragraph_matches(p, paras[j]))
    &&& c.word_count == words(join(paras.map_values(|p: (int, u8, Seq<char>)| p.2), "\n\n"@)).len()
    &&& c.char_count == join(paras.map_values(|p: (int, u8, Seq<char>)| p.2), "\n\n"@).len()
    &&& c.source_href is None
    &&& c.anchor is None
    &&& c.anchors@.len() == 0
    &&& c.warnings@.len() == 0
}

/// Builds a chapter from its text: paragraphs are the non-blank pieces
/// between blank lines; images come first when the text starts with a
/// paragraph (or has none).
pub fn build_chapter(
    index: usize,
    title: &str,
    text: &str,
    img_blocks: &[(isize, InlineImageBlock)],
) -> (c: Chapter)
    ensures
        chapter_built(c, index, title@, text@, img_blocks@),
{
    let chars = to_chars(text);
    let sep = to_chars("\n\n");
    proof {
        reveal_strlit("\n\n");
    }
    let pieces = split_chars(&chars, &sep);
    let ghost ps = views(pieces@);
    let mut paras: Vec<Paragraph> = Vec::new();
    let mut texts: Vec<Vec<char>> = Vec::new();
    let mut k: usize = 0;
    while k < pieces.len()
        invariant
            k <= pieces.len(),
            ps == views(pieces@),
            ps == split(chars@, sep@),
            paras@.len() == texts@.len() == paragraphs_upto(ps, k as int).len(),
            forall|j: int|
                0 <= j < paras@.len() ==> paragraph_matches(
                    #[trigger] paras@[j],
                    paragraphs_upto(ps, k as int)[j],
                ),
            forall|j: int|
                0 <= j < texts@.len() ==> #[trigger] texts@[j]@ == paragraphs_upto(
                    ps,
                    k as int,
                )[j].2,
        decreases pieces.len() - k,
    {
        assert(ps[k as int] == pieces@[k as int]@);
        match paragraph_piece(&pieces[k]) {
            Some((lvl, clean)) => {
                let s = from_chars(&clean);
                let kind = infer_kind_chars(s.as_str(), &clean);
                let p = Paragraph {
                    index: k,
                    text: s,
                    kind,
                    indent_level: lvl,
                    source_line_hint: Some(k + 1),
                    links: Vec::new(),
                };
                paras.push(p);
                texts.push(clean);
            },
            None => {},
        }
        k = k + 1;
    }
    let ghost pspec = paragraphs_upto(ps, pieces@.len() as int);
    assert(pspec == chapter_paragraphs(text@));
    // Text statistics over the joined paragraph texts.
    let content = join_chars(&texts, &sep);
    proof {
        assert(views(texts@) =~= pspec.map_values(|p: (int, u8, Seq<char>)| p.2));
    }
    let word_count = words_chars(&content).len();
    let char_count = content.len();
    // Blocks: images first when the first piece is a paragraph or there is none.
    let lead = paras.len() == 0 || paras[0].index == 0;
    let mut blocks: Vec<ChapterBlock> = Vec::new();
    if lead {
        let mut i: usize = 0;
        while i < img_blocks.len()
            invariant
                i <= img_blocks.len(),
                blocks@.len() == i,
                forall|j: int|
                    0 <= j < i ==> #[trigger] blocks@[j] == ChapterBlock::Image(img_blocks@[j].1),
            decreases img_blocks.len() - i,
        {
            blocks.push(ChapterBlock::Image(clone_image_block(&img_blocks[i].1)));
            i = i + 1;
        }
    }
    let ghost nimg = blocks@.len();
    assert(nimg == if lead { img_blocks@.len() } else { 0 });
    let ghost paras0 = paras@;
    assert(paras0.len() == paras.len());
    let mut rest = paras;
    let mut m: usize = 0;
    while rest.len() > 0
        invariant
            blocks@.len() == nimg + m,
            nimg <= img_blocks@.len(),
            paras0.len() <= usize::MAX,
            m + rest@.len() == paras0.len(),
            rest@ == paras0.subrange(m as int, paras0.len() as int),
            forall|j: int|
                0 <= j < nimg ==> #[trigger] blocks@[j] == ChapterBlock::Image(img_blocks@[j].1),
            forall|j: int|
                0 <= j < m ==> #[trigger] blocks@[nimg + j] == ChapterBlock::Paragraph(paras0[j]),
        decreases rest.len(),
    {
        let p = rest.remove(0);
        assert(p == paras0[m as int]);
        blocks.push(ChapterBlock::Paragraph(p));
        m = m + 1;
    }
    let mut id = to_chars("ch-");
    let num = decimal_chars(index);
    extend_chars(&mut id, &num);
    Chapter {
        id: from_chars(&id),
        index,
        title: title.to_owned(),
        raw_title: Some(title.to_owned()),
        blocks,
        word_count,
        char_count,
        source_href: None,
        anchor: None,
        anchors: Vec::new(),
        warnings: Vec::new(),
    }
}

// ---------------------------------------------------------------------------
// Table-of-contents mapping
// ---------------------------------------------------------------------------

/// The part of an href before its fragment.
pub open spec fn href_path(href: Seq<char>) -> Seq<char> {
    before_first(href, '#')
}

/// The file name of an href, without fragment and directories.
pub open spec fn file_name(href: Seq<char>) -> Seq<char> {
    after_last(href_path(href), '/')
}

pub proof fn lemma_before_first_idempotent(s: Seq<char>, c: char)
    ensures
        before_first(before_first(s, c), c) == before_first(s, c),
{
    crate::text::lemma_find_from(s, seq![c], 0);
    if let Some(j) = find(s, seq![c]) {
        let t = s.take(j);
        crate::text::lemma_find_from(t, seq![c], 0);
        if let Some(k) = find(t, seq![c]) {
            assert(t.subrange(k, k + 1)[0] == t[k]);
            assert(s.subrange(k, k + 1)[0] == s[k]);
            assert(t[k] == s[k]);
            assert(s.subrange(k, k + 1) =~= seq![c]);
            assert(crate::text::match_at(s, seq![c], k));
            assert(false);
        }
    }
}

/// Law: the file name of an href does not depend on its fragment: taking
/// the fragment off first gives the same file name.
pub proof fn law_file_name_ignores_fragment(href: Seq<char>)
    ensures
        file_name(href_path(href)) == file_name(href),
        href_path(href_path(href)) == href_path(href),
{
    lemma_before_first_idempotent(href, '#');
}

/// Removes the fragment of an href.
pub fn strip_href_fragment(href: &str) -> (r: String)
    ensures
        r@ == href_path(href@),
{
    let v = to_chars(href);
    from_chars(&before_first_chars(&v, '#'))
}

/// The file name of an href, without fragment and directories.
pub fn href_filename(href: &str) -> (r: String)
    ensures
        r@ == file_name(href@),
{
    let v = to_chars(href);
    let p = before_first_chars(&v, '#');
    from_chars(&after_last_chars(&p, '/'))
}

/// First position `i < n` with `file_name(hrefs[i]) == key`.
pub open spec fn first_with_name(hrefs: Seq<Seq<char>>, key: Seq<char>, n: int) -> Option<int>
    decreases n,
{
    if n <= 0 {
        None
    } else {
        match first_with_name(hrefs, key, n - 1) {
            Some(i) => Some(i),
            None => if file_name(hrefs[n - 1]) == key {
                Some(n - 1)
            } else {
                None
            },
        }
    }
}

/// Looks `key` up in an association list (first entry wins).
pub open spec fn assoc_get(entries: Seq<(String, usize)>, key: Seq<char>) -> Option<int>
    decreases entries.len(),
{
    if entries.len() == 0 {
        None
    } else {
        match assoc_get(entries.drop_last(), key) {
            Some(i) => Some(i),
            None => if entries.last().0@ == key {
                Some(entries.last().1 as int)
            } else {
                None
            },
        }
    }
}

pub proof fn lemma_assoc_get_push(entries: Seq<(String, usize)>, e: (String, usize), key: Seq<char>)
    ensures
        assoc_get(entries.push(e), key) == match assoc_get(entries, key) {
            Some(i) => Some(i),
            None => if e.0@ == key {
                Some(e.1 as int)
            } else {
                None
            },
        },
{
    assert(entries.push(e).drop_last() == entries);
}

pub proof fn lemma_assoc_get_none(entries: Seq<(String, usize)>, key: Seq<char>)
    requires
        assoc_get(entries, key) is None,
    ensures
        forall|i: int| 0 <= i < entries.len() ==> (#[trigger] entries[i]).0@ != key,
    decreases entries.len(),
{
    if entries.len() > 0 {
        lemma_assoc_get_none(entries.drop_last(), key);
        assert forall|i: int| 0 <= i < entries.len() implies (#[trigger] entries[i]).0@ != key by {
            if i < entries.len() - 1 {
                assert(entries[i] == entries.drop_last()[i]);
            }
        }
    }
}

/// No two entries of an index share a key.
pub open spec fn index_keys_unique(r: Seq<(String, usize)>) -> bool {
    forall|i: int, j: int| 0 <= i < j < r.len() ==> (#[trigger] r[i]).0@ != (#[trigger] r[j]).0@
}

/// Maps each spine file name to the position of its first occurrence; each
/// file name is listed once.
pub fn build_href_index(spine_hrefs: &Vec<String>) -> (r: Vec<(String, usize)>)
    ensures
        index_keys_unique(r@),
        forall|key: Seq<char>|
            #![trigger assoc_get(r@, key)]
            assoc_get(r@, key) == first_with_name(
                str_views(spine_hrefs@),
                key,
                spine_hrefs@.len() as int,
            ),
{
    let ghost hs = str_views(spine_hrefs@);
    let mut r: Vec<(String, usize)> = Vec::new();
    let mut i: usize = 0;
    while i < spine_hrefs.len()
        invariant
            i <= spine_hrefs.len(),
            hs == str_views(spine_hrefs@),
            index_keys_unique(r@),
            forall|key: Seq<char>|
                #![trigger assoc_get(r@, key)]
                assoc_get(r@, key) == first_with_name(hs, key, i as int),
        decreases spine_hrefs.len() - i,
    {
        let key = href_filename(spine_hrefs[i].as_str());
        assert(hs[i as int] == spine_hrefs@[i as int]@);
        let found = href_index_get(&r, key.as_str());
        let ghost old_r = r@;
        if found.is_none() {
            let ghost e = (key, i);
            proof {
                lemma_assoc_get_none(old_r, key@);
            }
            r.push((key, i));
            proof {
                assert forall|a: int, b: int| 0 <= a < b < r@.len() implies (#[trigger] r@[a]).0@
                    != (#[trigger] r@[b]).0@ by {
                    if b == old_r.len() {
                        assert(r@[a] == old_r[a]);
                    } else {
                        assert(r@[a] == old_r[a] && r@[b] == old_r[b]);
                    }
                }
                assert forall|k2: Seq<char>| #![trigger assoc_get(r@, k2)]
                    assoc_get(r@, k2) == first_with_name(hs, k2, i + 1) by {
                    lemma_assoc_get_push(old_r, e, k2);
                    assert(assoc_get(old_r, k2) == first_with_name(hs, k2, i as int));
                }
            }
        } else {
            proof {
                assert forall|k2: Seq<char>| #![trigger assoc_get(r@, k2)]
                    assoc_get(r@, k2) == first_with_name(hs, k2, i + 1) by {
                    assert(assoc_get(old_r, k2) == first_with_name(hs, k2, i as int));
                    if k2 == file_name(hs[i as int]) {
                        assert(assoc_get(old_r, file_name(hs[i as int])) is Some);
                    }
                }
            }
        }
        i = i + 1;
    }
    r
}

/// Looks up a file name in an href index.
pub fn href_index_get(index: &Vec<(String, usize)>, key: &str) -> (r: Option<usize>)
    ensures
        match r {
            Some(i) => assoc_get(index@, key@) == Some(i as int),
            None => assoc_get(index@, key@) is None,
        },
{
    // Scan from the front so the first entry wins.
    let mut i: usize = 0;
    let keyc = to_chars(key);
    while i < index.len()
        invariant
            i <= index.len(),
            keyc@ == key@,
            assoc_get(index@.take(i as int), key@) is None,
        decreases index.len() - i,
    {
        let kc = to_chars(index[i].0.as_str());
        proof {
            lemma_assoc_get_push(index@.take(i as int), index@[i as int], key@);
            assert(index@.take(i + 1) == index@.take(i as int).push(index@[i as int]));
        }
        if chars_eq(&kc, &keyc) {
            proof {
                lemma_assoc_get_prefix(index@, (i + 1) as int, key@);
            }
            return Some(index[i].1);
        }
        i = i + 1;
    }
    assert(index@.take(index.len() as int) == index@);
    None
}

pub proof fn lemma_assoc_get_prefix(entries: Seq<(String, usize)>, n: int, key: Seq<char>)
    requires
        0 <= n <= entries.len(),
        assoc_get(entries.take(n), key) is Some,
    ensures
        assoc_get(entries, key) == assoc_get(entries.take(n), key),
    decreases entries.len() - n,
{
    if n < entries.len() {
        lemma_assoc_get_push(entries.take(n), entries[n], key);
        assert(entries.take(n + 1) == entries.take(n).push(entries[n]));
        lemma_assoc_get_prefix(entries, n + 1, key);
    } else {
        assert(entries.take(n) == entries);
    }
}

/// The chapter index a table-of-contents entry is given: its own, else the
/// first spine position whose file name matches the entry's href.
pub open spec fn mapped_chapter_index(item: TocItem, index: Seq<(String, usize)>) -> Option<usize> {
    if item.chapter_index is None && item.href is Some && assoc_get(
        index,
        file_name(item.href->0@),
    ) is Some {
        Some(assoc_get(index, file_name(item.href->0@))->0 as usize)
    } else {
        item.chapter_index
    }
}

/// `b` is `a` with chapter indices filled in throughout the tree.
pub open spec fn toc_mapped(a: Seq<TocItem>, b: Seq<TocItem>, index: Seq<(String, usize)>) -> bool
    decreases a,
{
    &&& a.len() == b.len()
    &&& forall|j: int|
        0 <= j < a.len() ==> {
            &&& (#[trigger] b[j]).id == a[j].id
            &&& b[j].title == a[j].title
            &&& b[j].href == a[j].href
            &&& b[j].depth == a[j].depth
            &&& b[j].is_generated == a[j].is_generated
            &&& b[j].chapter_index == mapped_chapter_index(a[j], index)
            &&& toc_mapped(a[j].children@, b[j].children@, index)
        }
}

/// Fills in the chapter index of each table-of-contents entry (recursively)
/// from the file name of its href.
pub fn map_toc_chapter_indices(items: Vec<TocItem>, href_to_index: &Vec<(String, usize)>) -> (r:
    Vec<TocItem>)
    ensures
        toc_mapped(items@, r@, href_to_index@),
    decreases items@,
{
    let ghost orig = items@;
    let mut rest = items;
    let mut out: Vec<TocItem> = Vec::new();
    while rest.len() > 0
        invariant
            orig == items@,
            orig.len() == out@.len() + rest@.len(),
            rest@ == orig.subrange(out@.len() as int, orig.len() as int),
            forall|j: int|
                0 <= j < out@.len() ==> {
                    &&& (#[trigger] out@[j]).id == orig[j].id
                    &&& out@[j].title == orig[j].title
                    &&& out@[j].href == orig[j].href
                    &&& out@[j].depth == orig[j].depth
                    &&& out@[j].is_generated == orig[j].is_generated
                    &&& out@[j].chapter_index == mapped_chapter_index(orig[j], href_to_index@)
                    &&& toc_mapped(orig[j].children@, out@[j].children@, href_to_index@)
                },
        decreases rest.len(),
    {
        let mut item = rest.remove(0);
        let ghost k = out@.len();
        assert(item == orig[k as int]);
        if item.chapter_index.is_none() {
            match &item.href {
                Some(href) => {
                    let key = href_filename(href.as_str());
                    match href_index_get(href_to_index, key.as_str()) {
                        Some(idx) => {
                            item.chapter_index = Some(idx);
                        },
                        None => {},
                    }
                },
                None => {},
            }
        }
        let mut kids: Vec<TocItem> = Vec::new();
        std::mem::swap(&mut kids, &mut item.children);
        proof {
            let it = orig[k as int];
            assert(decreases_to!(it => it.children));
            assert(decreases_to!(it.children => it.children@));
            assert(kids@ == it.children@);
            assert(decreases_to!(orig => kids@));
        }
        let new_kids = map_toc_chapter_indices(kids, href_to_index);
        item.children = new_kids;
        out.push(item);
    }
    out
}

} // verus!
