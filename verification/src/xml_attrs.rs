//! Attribute lookups over XML tags.

use vstd::prelude::*;
use crate::xml::{XmlAttr, eq_ignore_case, eq_ignore_case_exec, lit_bytes};

verus! {

/// Value of the first attribute named `key` (any ASCII case) whose value is valid UTF-8.
pub open spec fn first_attr(attrs: Seq<XmlAttr>, key: Seq<u8>) -> Option<Seq<char>>
    decreases attrs.len(),
{
    if attrs.len() == 0 {
        None
    } else if eq_ignore_case(attrs[0].key@, key) && attrs[0].value is Some {
        Some(attrs[0].value->0@)
    } else {
        first_attr(attrs.drop_first(), key)
    }
}

/// Value of the last attribute named `key` (any ASCII case) whose value is valid UTF-8.
pub open spec fn last_attr(attrs: Seq<XmlAttr>, key: Seq<u8>) -> Option<Seq<char>>
    decreases attrs.len(),
{
    if attrs.len() == 0 {
        None
    } else if eq_ignore_case(attrs.last().key@, key) && attrs.last().value is Some {
        Some(attrs.last().value->0@)
    } else {
        last_attr(attrs.drop_last(), key)
    }
}

/// Values of all attributes named `key` (any ASCII case) that are valid UTF-8, in order.
pub open spec fn all_attrs(attrs: Seq<XmlAttr>, key: Seq<u8>) -> Seq<Seq<char>>
    decreases attrs.len(),
{
    if attrs.len() == 0 {
        seq![]
    } else if eq_ignore_case(attrs.last().key@, key) && attrs.last().value is Some {
        all_attrs(attrs.drop_last(), key).push(attrs.last().value->0@)
    } else {
        all_attrs(attrs.drop_last(), key)
    }
}

pub open spec fn opt_view(o: Option<String>) -> Option<Seq<char>> {
    match o {
        Some(s) => Some(s@),
        None => None,
    }
}

pub proof fn lemma_first_attr_skip(attrs: Seq<XmlAttr>, key: Seq<u8>, i: int)
    requires
        0 <= i < attrs.len(),
        !(eq_ignore_case(attrs[i].key@, key) && attrs[i].value is Some),
    ensures
        first_attr(attrs.subrange(i, attrs.len() as int), key) == first_attr(
            attrs.subrange(i + 1, attrs.len() as int),
            key,
        ),
{
    assert(attrs.subrange(i, attrs.len() as int).drop_first() == attrs.subrange(
        i + 1,
        attrs.len() as int,
    ));
}

/// The first attribute named `key` with a valid value.
pub fn first_attr_exec(attrs: &Vec<XmlAttr>, key: &str) -> (r: Option<String>)
    ensures
        opt_view(r) == first_attr(attrs@, lit_bytes(key@)),
{
    let kb = key.as_bytes();
    let mut i: usize = 0;
    assert(attrs@.subrange(0, attrs@.len() as int) == attrs@);
    while i < attrs.len()
        invariant
            i <= attrs.len(),
            kb@ == lit_bytes(key@),
            first_attr(attrs@, kb@) == first_attr(attrs@.subrange(i as int, attrs@.len() as int), kb@),
        decreases attrs.len() - i,
    {
        let a = &attrs[i];
        if eq_ignore_case_exec(&a.key, kb) {
            match &a.value {
                Some(v) => {
                    return Some(v.clone());
                },
                None => {},
            }
        }
        proof {
            lemma_first_attr_skip(attrs@, kb@, i as int);
        }
        i = i + 1;
    }
    None
}

/// The last attribute named `key` with a valid value.
pub fn last_attr_exec(attrs: &Vec<XmlAttr>, key: &str) -> (r: Option<String>)
    ensures
        opt_view(r) == last_attr(attrs@, lit_bytes(key@)),
{
    let kb = key.as_bytes();
    let mut r: Option<String> = None;
    let mut i: usize = 0;
    while i < attrs.len()
        invariant
            i <= attrs.len(),
            kb@ == lit_bytes(key@),
            opt_view(r) == last_attr(attrs@.take(i as int), kb@),
        decreases attrs.len() - i,
    {
        let a = &attrs[i];
        assert(attrs@.take(i + 1).drop_last() == attrs@.take(i as int));
        assert(attrs@.take(i + 1).last() == attrs@[i as int]);
        if eq_ignore_case_exec(&a.key, kb) {
            match &a.value {
                Some(v) => {
                    r = Some(v.clone());
                },
                None => {},
            }
        }
        i = i + 1;
    }
    assert(attrs@.take(attrs@.len() as int) == attrs@);
    r
}

/// All attributes named `key` with valid values, in order.
pub fn all_attrs_exec(attrs: &Vec<XmlAttr>, key: &str) -> (r: Vec<String>)
    ensures
        r@.map_values(|s: String| s@) == all_attrs(attrs@, lit_bytes(key@)),
{
    let kb = key.as_bytes();
    let mut r: Vec<String> = Vec::new();
    let mut i: usize = 0;
    assert(r@.map_values(|s: String| s@) =~= Seq::<Seq<char>>::empty());
    while i < attrs.len()
        invariant
            i <= attrs.len(),
            kb@ == lit_bytes(key@),
            r@.map_values(|s: String| s@) == all_attrs(attrs@.take(i as int), kb@),
        decreases attrs.len() - i,
    {
        let a = &attrs[i];
        assert(attrs@.take(i + 1).drop_last() == attrs@.take(i as int));
        assert(attrs@.take(i + 1).last() == attrs@[i as int]);
        if eq_ignore_case_exec(&a.key, kb) {
            match &a.value {
                Some(v) => {
                    let ghost before = r@.map_values(|s: String| s@);
                    r.push(v.clone());
                    assert(r@.map_values(|s: String| s@) =~= before.push(v@));
                },
                None => {},
            }
        }
        i = i + 1;
    }
    assert(attrs@.take(attrs@.len() as int) == attrs@);
    r
}

} // verus!
