//! XML events as plain values, read through `quick_xml`.

use vstd::prelude::*;
use vstd::utf8::encode_utf8;
use quick_xml::events::BytesStart;
use quick_xml::events::Event::{Empty, End, Eof, Start, Text};

verus! {

#[verifier::external_type_specification]
#[verifier::external_body]
#[verifier::reject_recursive_types(R)]
pub struct ExXmlReader<R>(quick_xml::Reader<R>);

/// An attribute: raw name, and raw value when it is valid UTF-8.
#[derive(Debug)]
pub struct XmlAttr {
    pub key: Vec<u8>,
    pub value: Option<String>,
}

/// An opening or empty element tag.
#[derive(Debug)]
pub struct XmlTag {
    pub name: Vec<u8>,
    pub attrs: Vec<XmlAttr>,
}

/// One reader event. `Text` holds the unescaped text (`None` when it cannot
/// be unescaped); `Other` stands for comments, CDATA, declarations,
/// processing instructions, doctypes and syntax errors.
#[derive(Debug)]
pub enum XmlEvent {
    Start(XmlTag),
    Empty(XmlTag),
    End(Vec<u8>),
    Text(Option<String>),
    Other,
    Eof,
}

/// The events (up to, not including, the end of input) that a
/// `quick_xml::Reader` created by `Reader::from_str(text)` with
/// `trim_text(true)` yields.
pub uninterp spec fn xml_events(text: Seq<char>) -> Seq<XmlEvent>;

/// The events a reader has still to yield before the end of input.
pub uninterp spec fn xml_pending(r: quick_xml::Reader<&[u8]>) -> Seq<XmlEvent>;

/// Calls `Reader::from_str` and sets `trim_text(true)`. Claims: the reader
/// will yield the events `xml_events` names for this text, none of which is
/// the end of input.
#[verifier::external_body]
pub(crate) fn xml_reader(text: &str) -> (r: quick_xml::Reader<&[u8]>)
    ensures
        xml_pending(r) == xml_events(text@),
        forall|i: int| 0 <= i < xml_pending(r).len() ==> !(#[trigger] xml_pending(r)[i] is Eof),
{
    let mut r = quick_xml::Reader::from_str(text);
    r.config_mut().trim_text(true);
    r
}

/// Calls `Reader::read_event` and converts the event. Claims: the next
/// pending event is returned and consumed; with none left, `Eof` is returned.
#[verifier::external_body]
pub(crate) fn xml_next(r: &mut quick_xml::Reader<&[u8]>) -> (e: XmlEvent)
    ensures
        xml_pending(*old(r)).len() == 0 ==> e is Eof && xml_pending(*final(r)).len() == 0,
        xml_pending(*old(r)).len() > 0 ==> e == xml_pending(*old(r))[0] && xml_pending(*final(r))
            == xml_pending(*old(r)).drop_first(),
{
    let tag = |e: BytesStart| XmlTag {
        name: e.name().0.into(),
        attrs: e.attributes().flatten().map(|a| XmlAttr {
            key: a.key.0.into(),
            value: String::from_utf8(a.value.into()).ok(),
        }).collect(),
    };
    match r.read_event() {
        Ok(Start(e)) => XmlEvent::Start(tag(e)),
        Ok(Empty(e)) => XmlEvent::Empty(tag(e)),
        Ok(End(e)) => XmlEvent::End(e.name().0.into()),
        Ok(Text(e)) => XmlEvent::Text(e.unescape().ok().map(Into::into)),
        Ok(Eof) => XmlEvent::Eof,
        _ => XmlEvent::Other,
    }
}

/// All events of a document, in order (without the end of input).
pub fn read_events(text: &str) -> (v: Vec<XmlEvent>)
    ensures
        v@ == xml_events(text@),
{
    let ghost evs = xml_events(text@);
    let mut reader = xml_reader(text);
    let mut v: Vec<XmlEvent> = Vec::new();
    assert forall|i: int| 0 <= i < evs.len() implies !(#[trigger] evs[i] is Eof) by {
        assert(xml_pending(reader)[i] == evs[i]);
    }
    loop
        invariant
            evs == xml_events(text@),
            v@.len() <= evs.len(),
            v@ == evs.subrange(0, v@.len() as int),
            xml_pending(reader) == evs.subrange(v@.len() as int, evs.len() as int),
            forall|i: int| 0 <= i < evs.len() ==> !(#[trigger] evs[i] is Eof),
        decreases evs.len() - v@.len(),
    {
        let ghost before = xml_pending(reader);
        let ev = xml_next(&mut reader);
        if let XmlEvent::Eof = ev {
            proof {
                if before.len() > 0 {
                    assert(before[0] == evs[v@.len() as int]);
                    assert(!(evs[v@.len() as int] is Eof));
                    assert(false);
                }
            }
            assert(v@ =~= evs);
            return v;
        }
        proof {
            assert(before[0] == evs[v@.len() as int]);
            assert(evs.subrange(v@.len() as int, evs.len() as int).drop_first() == evs.subrange(
                v@.len() + 1 as int,
                evs.len() as int,
            ));
        }
        v.push(ev);
        assert(v@ =~= evs.subrange(0, v@.len() as int));
    }
}

// ---------------------------------------------------------------------------
// Byte-name helpers
// ---------------------------------------------------------------------------

/// UTF-8 bytes of a literal.
pub open spec fn lit_bytes(s: Seq<char>) -> Seq<u8> {
    encode_utf8(s)
}

pub open spec fn bytes_prefix(s: Seq<u8>, p: Seq<u8>) -> bool {
    p.len() <= s.len() && s.subrange(0, p.len() as int) == p
}

pub open spec fn lower_byte(b: u8) -> u8 {
    if 0x41 <= b && b <= 0x5A {
        (b + 32) as u8
    } else {
        b
    }
}

/// `<[u8]>::eq_ignore_ascii_case`.
pub open spec fn eq_ignore_case(a: Seq<u8>, b: Seq<u8>) -> bool {
    a.len() == b.len() && forall|i: int| 0 <= i < a.len() ==> lower_byte(a[i]) == lower_byte(b[i])
}

pub fn lower_byte_exec(b: u8) -> (r: u8)
    ensures
        r == lower_byte(b),
{
    if 0x41 <= b && b <= 0x5A {
        b + 32
    } else {
        b
    }
}

pub fn bytes_starts_with(s: &[u8], p: &[u8]) -> (r: bool)
    ensures
        r == bytes_prefix(s@, p@),
{
    if p.len() > s.len() {
        return false;
    }
    let mut i: usize = 0;
    while i < p.len()
        invariant
            i <= p.len() <= s.len(),
            forall|k: int| 0 <= k < i ==> s@[k] == p@[k],
        decreases p.len() - i,
    {
        if s[i] != p[i] {
            assert(s@.subrange(0, p.len() as int)[i as int] != p@[i as int]);
            return false;
        }
        i = i + 1;
    }
    assert(s@.subrange(0, p.len() as int) =~= p@);
    true
}

pub fn bytes_eq(a: &[u8], b: &[u8]) -> (r: bool)
    ensures
        r == (a@ == b@),
{
    if a.len() != b.len() {
        return false;
    }
    let mut i: usize = 0;
    while i < a.len()
        invariant
            i <= a.len() == b.len(),
            forall|k: int| 0 <= k < i ==> a@[k] == b@[k],
        decreases a.len() - i,
    {
        if a[i] != b[i] {
            return false;
        }
        i = i + 1;
    }
    assert(a@ =~= b@);
    true
}

pub fn eq_ignore_case_exec(a: &[u8], b: &[u8]) -> (r: bool)
    ensures
        r == eq_ignore_case(a@, b@),
{
    if a.len() != b.len() {
        return false;
    }
    let mut i: usize = 0;
    while i < a.len()
        invariant
            i <= a.len() == b.len(),
            forall|k: int| 0 <= k < i ==> lower_byte(a@[k]) == lower_byte(b@[k]),
        decreases a.len() - i,
    {
        if lower_byte_exec(a[i]) != lower_byte_exec(b[i]) {
            return false;
        }
        i = i + 1;
    }
    true
}

/// Whether the name equals the literal, ignoring ASCII case.
pub fn name_is(name: &[u8], lit: &str) -> (r: bool)
    ensures
        r == eq_ignore_case(name@, lit_bytes(lit@)),
{
    eq_ignore_case_exec(name, lit.as_bytes())
}

/// Whether the name starts with the literal.
pub fn name_starts(name: &[u8], lit: &str) -> (r: bool)
    ensures
        r == bytes_prefix(name@, lit_bytes(lit@)),
{
    bytes_starts_with(name, lit.as_bytes())
}

/// Copies an optional string.
pub fn clone_opt_string(s: &Option<String>) -> (r: Option<String>)
    ensures
        r == *s,
{
    match s {
        Some(v) => Some(v.clone()),
        None => None,
    }
}

/// The name starts with the literal, ignoring ASCII case.
pub open spec fn ci_prefix(name: Seq<u8>, lit: Seq<u8>) -> bool {
    lit.len() <= name.len() && eq_ignore_case(name.take(lit.len() as int), lit)
}

/// The name ends with the literal, ignoring ASCII case.
pub open spec fn ci_suffix(name: Seq<u8>, lit: Seq<u8>) -> bool {
    lit.len() <= name.len() && eq_ignore_case(name.skip(name.len() - lit.len()), lit)
}

fn ci_match_at(name: &[u8], lit: &[u8], off: usize) -> (r: bool)
    requires
        off + lit.len() <= name.len(),
    ensures
        r == eq_ignore_case(name@.subrange(off as int, off + lit.len()), lit@),
{
    let mut i: usize = 0;
    while i < lit.len()
        invariant
            i <= lit.len(),
            off + lit.len() <= name.len(),
            forall|k: int| 0 <= k < i ==> lower_byte(name@[off + k]) == lower_byte(lit@[k]),
        decreases lit.len() - i,
    {
        if lower_byte_exec(name[off + i]) != lower_byte_exec(lit[i]) {
            assert(name@.subrange(off as int, off + lit.len())[i as int] == name@[off + i]);
            return false;
        }
        i = i + 1;
    }
    proof {
        let sub = name@.subrange(off as int, off + lit.len());
        assert forall|k: int| 0 <= k < sub.len() implies lower_byte(sub[k]) == lower_byte(lit@[k]) by {
            assert(sub[k] == name@[off + k]);
        }
    }
    true
}

/// Whether the name starts with the literal, ignoring ASCII case.
pub fn name_starts_ci(name: &[u8], lit: &str) -> (r: bool)
    ensures
        r == ci_prefix(name@, lit_bytes(lit@)),
{
    let lb = lit.as_bytes();
    if lb.len() > name.len() {
        return false;
    }
    ci_match_at(name, lb, 0)
}

/// Whether the name ends with the literal, ignoring ASCII case.
pub fn name_ends_ci(name: &[u8], lit: &str) -> (r: bool)
    ensures
        r == ci_suffix(name@, lit_bytes(lit@)),
{
    let lb = lit.as_bytes();
    if lb.len() > name.len() {
        return false;
    }
    let off = name.len() - lb.len();
    assert(name@.subrange(off as int, off + lb@.len()) == name@.skip(off as int));
    ci_match_at(name, lb, off)
}

} // verus!
