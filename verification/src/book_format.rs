//! Book formats: recognising them from file names, their labels, choosing a
//! parser, and the stable identifier of a book file.

use vstd::prelude::*;
use crate::domain::{AppError, BookFormat};
use crate::epub_parser::{EpubParser, epub_parsed, zip_refused};
use crate::archive::zip_opens;
use crate::hashing::{hash_path, path_hash};
use crate::parser_base::{BookParser, ParseResult};
use crate::text::{
    after_last, after_last_chars, ascii_lower, char_ascii_lower, extend_chars, from_chars,
    hex_chars, hex_digits, rfind, rfind_char, slice_chars, str_views, to_chars,
};
use crate::txt::{TxtParser, decoded_text, text_chapters, txt_parsed};

verus! {

// ---------------------------------------------------------------------------
// Extensions
// ---------------------------------------------------------------------------

/// A path without trailing `/` and `/.` components.
pub open spec fn trailing_trimmed(p: Seq<char>) -> Seq<char>
    decreases p.len(),
{
    if p.len() > 0 && p.last() == '/' {
        trailing_trimmed(p.drop_last())
    } else if p.len() > 1 && p.last() == '.' && p[p.len() - 2] == '/' {
        trailing_trimmed(p.take(p.len() - 2))
    } else {
        p
    }
}

/// The file name of a `/`-separated path: its last component.
pub open spec fn file_name_of(p: Seq<char>) -> Seq<char> {
    after_last(trailing_trimmed(p), '/')
}

/// The extension of a file name: what follows its last `.`, unless that dot
/// starts the name.
pub open spec fn extension_of(name: Seq<char>) -> Option<Seq<char>> {
    match rfind(name, '.') {
        Some(i) => if i > 0 {
            Some(name.skip(i + 1))
        } else {
            None
        },
        None => None,
    }
}

pub open spec fn ascii_lowered(s: Seq<char>) -> Seq<char> {
    s.map_values(|c: char| ascii_lower(c))
}

/// The format a path names by its extension (any ASCII case).
pub open spec fn format_of_path(p: Seq<char>) -> Option<BookFormat> {
    match extension_of(file_name_of(p)) {
        Some(e) => if ascii_lowered(e) == "epub"@ {
            Some(BookFormat::Epub)
        } else if ascii_lowered(e) == "txt"@ {
            Some(BookFormat::Txt)
        } else {
            None
        },
        None => None,
    }
}

pub fn trailing_trimmed_exec(p: &[char]) -> (r: Vec<char>)
    ensures
        r@ == trailing_trimmed(p@),
{
    let mut end: usize = p.len();
    let mut done = false;
    assert(p@.take(end as int) == p@);
    while end > 0 && !done
        invariant
            end <= p.len(),
            trailing_trimmed(p@) == trailing_trimmed(p@.take(end as int)),
            done ==> trailing_trimmed(p@.take(end as int)) == p@.take(end as int),
        decreases end, if done { 0int } else { 1int },
    {
        let ghost t = p@.take(end as int);
        if p[end - 1] == '/' {
            assert(t.drop_last() == p@.take(end - 1));
            end = end - 1;
        } else if end > 1 && p[end - 1] == '.' && p[end - 2] == '/' {
            assert(t.take(t.len() - 2) == p@.take(end - 2));
            end = end - 2;
        } else {
            done = true;
        }
    }
    assert(end == 0 ==> p@.take(0) == Seq::<char>::empty());
    slice_chars(p, 0, end)
}

fn ascii_lowered_exec(s: &[char]) -> (r: Vec<char>)
    ensures
        r@ == ascii_lowered(s@),
{
    let mut r: Vec<char> = Vec::new();
    let mut i: usize = 0;
    while i < s.len()
        invariant
            i <= s.len(),
            r@ == ascii_lowered(s@).take(i as int),
        decreases s.len() - i,
    {
        r.push(char_ascii_lower(s[i]));
        assert(ascii_lowered(s@).take(i + 1) == ascii_lowered(s@).take(i as int).push(ascii_lower(s@[i as int])));
        i = i + 1;
    }
    assert(ascii_lowered(s@).take(s@.len() as int) == ascii_lowered(s@));
    r
}

impl BookFormat {
    /// The format a file path names by its extension (case-insensitive):
    /// `.epub` or `.txt`; `None` for any other path.
    pub fn from_path(path: &str) -> (r: Option<BookFormat>)
        ensures
            r == format_of_path(path@),
    {
        let t = trailing_trimmed_exec(&to_chars(path));
        let name = after_last_chars(&t, '/');
        match rfind_char(&name, '.') {
            Some(i) => {
                if i == 0 {
                    return None;
                }
                proof {
                    crate::text::lemma_rfind_before(name@, '.', name@.len() as int);
                }
                let e = ascii_lowered_exec(&slice_chars(&name, i + 1, name.len()));
                assert(e@ == ascii_lowered(name@.skip(i + 1)));
                if crate::text::chars_eq(&e, &to_chars("epub")) {
                    Some(BookFormat::Epub)
                } else if crate::text::chars_eq(&e, &to_chars("txt")) {
                    Some(BookFormat::Txt)
                } else {
                    None
                }
            },
            None => None,
        }
    }
}

// ---------------------------------------------------------------------------
// Labels
// ---------------------------------------------------------------------------

/// The display label of a format.
pub open spec fn display_label(f: BookFormat) -> Seq<char> {
    match f {
        BookFormat::Epub => "Epub"@,
        BookFormat::Txt => "Txt"@,
    }
}

/// The format a display label names, or the refusal message.
pub open spec fn parsed_label(s: Seq<char>) -> Result<BookFormat, Seq<char>> {
    if s == "Epub"@ {
        Ok(BookFormat::Epub)
    } else if s == "Txt"@ {
        Ok(BookFormat::Txt)
    } else {
        Err("Unknown BookFormat: "@ + s)
    }
}

impl BookFormat {
    /// The display label: `Epub` or `Txt`.
    pub fn to_string(&self) -> (r: String)
        ensures
            r@ == display_label(*self),
    {
        match self {
            BookFormat::Epub => from_chars(&to_chars("Epub")),
            BookFormat::Txt => from_chars(&to_chars("Txt")),
        }
    }

    /// Reads a display label back: `Epub` or `Txt` exactly; any other text
    /// is refused with `Unknown BookFormat: <text>`.
    pub fn parse_label(s: &str) -> (r: Result<BookFormat, String>)
        ensures
            match parsed_label(s@) {
                Ok(f) => r == Ok::<BookFormat, String>(f),
                Err(m) => r matches Err(e) && e@ == m,
            },
    {
        let v = to_chars(s);
        proof {
            reveal_strlit("Epub");
            reveal_strlit("Txt");
            assert("Txt"@.len() != "Epub"@.len());
        }
        if crate::text::chars_eq(&v, &to_chars("Epub")) {
            Ok(BookFormat::Epub)
        } else if crate::text::chars_eq(&v, &to_chars("Txt")) {
            Ok(BookFormat::Txt)
        } else {
            let mut m = to_chars("Unknown BookFormat: ");
            extend_chars(&mut m, &v);
            Err(from_chars(&m))
        }
    }
}

impl std::str::FromStr for BookFormat {
    type Err = String;

    fn from_str(s: &str) -> (r: Result<BookFormat, String>)
        ensures
            match parsed_label(s@) {
                Ok(f) => r == Ok::<BookFormat, String>(f),
                Err(m) => r matches Err(e) && e@ == m,
            },
    {
        BookFormat::parse_label(s)
    }
}

/// The lower-case label a format is recorded under: `epub` or `txt`.
pub fn format_label(format: &BookFormat) -> (r: &'static str)
    ensures
        r@ == match *format {
            BookFormat::Epub => "epub"@,
            BookFormat::Txt => "txt"@,
        },
{
    match format {
        BookFormat::Epub => "epub",
        BookFormat::Txt => "txt",
    }
}

// ---------------------------------------------------------------------------
// Parser choice
// ---------------------------------------------------------------------------

/// The parser for a book format.
#[derive(Debug)]
pub enum ParserKind {
    Epub(EpubParser),
    Txt(TxtParser),
}

impl BookParser for ParserKind {
    fn parse(&self, raw: Vec<u8>) -> (r: Result<ParseResult, AppError>)
        ensures
            self is Epub ==> (r is Ok <==> zip_opens(raw@)) && (r matches Ok(p) ==> epub_parsed(
                raw@,
                p,
            )) && (r matches Err(e) ==> zip_refused(e)),
            self is Txt ==> (r matches Ok(p) && txt_parsed(raw@, p)),
    {
        match self {
            ParserKind::Epub(p) => p.parse_bytes(raw),
            ParserKind::Txt(p) => Ok(p.parse_bytes(&raw)),
        }
    }
}

/// Chooses the parser for a file by its extension.
#[derive(Debug)]
pub struct ParserFactory;

impl ParserFactory {
    /// The parser for a path: EPUB for `.epub`, plain text for `.txt`,
    /// none for other formats.
    pub fn get_parser(path: &str) -> (r: Option<ParserKind>)
        ensures
            match format_of_path(path@) {
                Some(BookFormat::Epub) => r matches Some(ParserKind::Epub(_)),
                Some(BookFormat::Txt) => r matches Some(ParserKind::Txt(_)),
                None => r is None,
            },
    {
        match BookFormat::from_path(path) {
            Some(BookFormat::Epub) => Some(ParserKind::Epub(EpubParser::new())),
            Some(BookFormat::Txt) => Some(ParserKind::Txt(TxtParser::new())),
            None => None,
        }
    }
}

// ---------------------------------------------------------------------------
// Book identity
// ---------------------------------------------------------------------------

/// The identifier of a book file: `book-` and the 16 hex digits of the hash
/// of its resolved path.
pub open spec fn book_id_of(resolved_path: Seq<char>) -> Seq<char> {
    "book-"@ + hex_digits(path_hash(resolved_path) as nat, 16)
}

/// The stable identifier of a book, from its resolved (canonical) path.
pub fn stable_book_id(resolved_path: &str) -> (r: String)
    ensures
        r@ == book_id_of(resolved_path@),
{
    let h = hash_path(resolved_path);
    let mut v = to_chars("book-");
    extend_chars(&mut v, &hex_chars(h, 16));
    from_chars(&v)
}

// ---------------------------------------------------------------------------
// Laws
// ---------------------------------------------------------------------------

/// Law: reading back the display label of a format gives the format.
pub proof fn law_label_round_trip(f: BookFormat)
    ensures
        parsed_label(display_label(f)) == Ok::<BookFormat, Seq<char>>(f),
{
    reveal_strlit("Epub");
    reveal_strlit("Txt");
    assert("Txt"@.len() != "Epub"@.len());
}

pub proof fn lemma_ascii_lower_fixes(c: char)
    ensures
        ascii_lower(ascii_lower(c)) == ascii_lower(c),
        ascii_lower(c) == '/' <==> c == '/',
        ascii_lower(c) == '.' <==> c == '.',
{
}

pub proof fn lemma_rfind_lowered(s: Seq<char>, c: char, end: int)
    requires
        c == '/' || c == '.',
        end <= s.len(),
    ensures
        crate::text::rfind_before(ascii_lowered(s), c, end) == crate::text::rfind_before(s, c, end),
    decreases end,
{
    if end > 0 {
        lemma_ascii_lower_fixes(s[end - 1]);
        lemma_rfind_lowered(s, c, end - 1);
    }
}

pub proof fn lemma_trailing_lowered(p: Seq<char>)
    ensures
        trailing_trimmed(ascii_lowered(p)) == ascii_lowered(trailing_trimmed(p)),
    decreases p.len(),
{
    let lp = ascii_lowered(p);
    if p.len() > 0 {
        lemma_ascii_lower_fixes(p.last());
        if p.len() > 1 {
            lemma_ascii_lower_fixes(p[p.len() - 2]);
        }
        if p.last() == '/' {
            assert(lp.drop_last() == ascii_lowered(p.drop_last()));
            lemma_trailing_lowered(p.drop_last());
        } else if p.len() > 1 && p.last() == '.' && p[p.len() - 2] == '/' {
            assert(lp.take(lp.len() - 2) == ascii_lowered(p.take(p.len() - 2)));
            lemma_trailing_lowered(p.take(p.len() - 2));
        }
    }
}

/// Law: the format of a path does not depend on the ASCII case of the path.
pub proof fn law_format_ignores_case(p: Seq<char>)
    ensures
        format_of_path(ascii_lowered(p)) == format_of_path(p),
{
    let t = trailing_trimmed(p);
    lemma_trailing_lowered(p);
    let lt = ascii_lowered(t);
    lemma_rfind_lowered(t, '/', t.len() as int);
    crate::text::lemma_rfind_before(t, '/', t.len() as int);
    let name = file_name_of(p);
    let lname = file_name_of(ascii_lowered(p));
    assert(lname == ascii_lowered(name)) by {
        match rfind(t, '/') {
            Some(i) => {
                assert(lt.subrange(i + 1, lt.len() as int) == ascii_lowered(t.subrange(i + 1, t.len() as int)));
            },
            None => {},
        }
    }
    lemma_rfind_lowered(name, '.', name.len() as int);
    crate::text::lemma_rfind_before(name, '.', name.len() as int);
    match rfind(name, '.') {
        Some(i) => {
            if i > 0 {
                let e = name.skip(i + 1);
                assert(lname.skip(i + 1) == ascii_lowered(e));
                assert(ascii_lowered(ascii_lowered(e)) == ascii_lowered(e)) by {
                    assert forall|k: int| 0 <= k < e.len() implies #[trigger] ascii_lowered(
                        ascii_lowered(e),
                    )[k] == ascii_lowered(e)[k] by {
                        lemma_ascii_lower_fixes(e[k]);
                    }
                }
            }
        },
        None => {},
    }
}

} // verus!
