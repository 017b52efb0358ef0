//! The header names that the proxy reads and writes by itself.

use axum::http::{HeaderMap, HeaderValue};
use vstd::prelude::*;
use crate::fields::{
    all_values, fields_of, first, first_value, has_room, is_header_name, replaced, set_field, static_name, take_out,
    token_char, value_bytes, value_list, values,
};
use crate::text::{lower, lower_char};

verus! {

/// A header that the proxy reads or writes by itself.
#[derive(Clone, Copy)]
pub(crate) enum Name {
    AcceptRanges,
    ContentLength,
    ContentRange,
    Etag,
    IfModifiedSince,
    IfNoneMatch,
    IfRange,
    LastModified,
    Range,
    Vary,
    Via,
    XCache,
    XCacheKey,
}

/// The text of a header name, in lower case.
pub(crate) open spec fn name_of(name: Name) -> Seq<char> {
    match name {
        Name::AcceptRanges => "accept-ranges"@,
        Name::ContentLength => "content-length"@,
        Name::ContentRange => "content-range"@,
        Name::Etag => "etag"@,
        Name::IfModifiedSince => "if-modified-since"@,
        Name::IfNoneMatch => "if-none-match"@,
        Name::IfRange => "if-range"@,
        Name::LastModified => "last-modified"@,
        Name::Range => "range"@,
        Name::Vary => "vary"@,
        Name::Via => "via"@,
        Name::XCache => "x-cache"@,
        Name::XCacheKey => "x-cache-key"@,
    }
}

proof fn lemma_names(name: Name)
    ensures
        is_header_name(name_of(name)),
        lower(name_of(name)) == name_of(name),
{
    reveal_strlit("accept-ranges");
    reveal_strlit("content-length");
    reveal_strlit("content-range");
    reveal_strlit("etag");
    reveal_strlit("if-modified-since");
    reveal_strlit("if-none-match");
    reveal_strlit("if-range");
    reveal_strlit("last-modified");
    reveal_strlit("range");
    reveal_strlit("vary");
    reveal_strlit("via");
    reveal_strlit("x-cache");
    reveal_strlit("x-cache-key");
    let s = name_of(name);
    assert forall|i: int| 0 <= i < s.len() implies token_char(#[trigger] s[i]) && lower_char(s[i]) == s[i] by {}
    assert(lower(s) =~= s);
}

fn literal(name: Name) -> (s: &'static str)
    ensures
        s@ == name_of(name),
        is_header_name(s@),
        lower(s@) == s@,
{
    proof {
        lemma_names(name);
    }
    match name {
        Name::AcceptRanges => "accept-ranges",
        Name::ContentLength => "content-length",
        Name::ContentRange => "content-range",
        Name::Etag => "etag",
        Name::IfModifiedSince => "if-modified-since",
        Name::IfNoneMatch => "if-none-match",
        Name::IfRange => "if-range",
        Name::LastModified => "last-modified",
        Name::Range => "range",
        Name::Vary => "vary",
        Name::Via => "via",
        Name::XCache => "x-cache",
        Name::XCacheKey => "x-cache-key",
    }
}

/// The bytes of a value that may be there.
pub(crate) open spec fn bytes_of(value: Option<&HeaderValue>) -> Option<Seq<u8>> {
    match value {
        Some(v) => Some(value_bytes(*v)),
        None => None,
    }
}

/// The first value of a header.
pub(crate) fn lookup<'a>(map: &'a HeaderMap, name: Name) -> (value: Option<&'a HeaderValue>)
    ensures
        bytes_of(value) == first(fields_of(*map), name_of(name)),
{
    first_value(map, literal(name))
}

/// All values of a header, in their order.
pub(crate) fn lookup_all(map: &HeaderMap, name: Name) -> (list: Vec<HeaderValue>)
    ensures
        value_list(list@) == values(fields_of(*map), name_of(name)),
{
    all_values(map, literal(name))
}

/// Gives a header a single value.
pub(crate) fn assign(map: &mut HeaderMap, name: Name, value: HeaderValue)
    requires
        has_room(fields_of(*old(map))),
    ensures
        fields_of(*final(map)) == replaced(fields_of(*old(map)), name_of(name), value_bytes(value)),
{
    set_field(map, static_name(literal(name)), value);
}

/// Takes a header out.
pub(crate) fn erase(map: &mut HeaderMap, name: Name)
    ensures
        fields_of(*final(map)) == fields_of(*old(map)).remove(name_of(name)),
{
    take_out(map, literal(name));
}

}
