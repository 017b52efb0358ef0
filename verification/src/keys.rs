//! Cache keys: the key of a resource, and of its variants by `Vary`.

use axum::http::{HeaderMap, HeaderValue};
use vstd::prelude::*;
use vstd::string::StringExecFns;
use crate::fields::{
    all_values, chars, combined, fields_of, is_header_name, is_text, read_lines, reads_as_name, value_bytes,
    value_list, value_str, values, Fields,
};
use crate::names::{lookup_all, Name};
use crate::text::{
    chars_of, join, lemma_lower_twice, list_members, lower, lower_text, optional_text, owned_texts, pieces,
    push_all, push_joined, same_str, sort_texts, sorted, split, text_from, texts, trim, trimmed, CharClass,
};

verus! {

/// The key of a resource before its variants are told apart: the method, a
/// colon, and the path with its query.
pub open spec fn base_key(method: Seq<char>, path_and_query: Option<Seq<char>>) -> Seq<char> {
    method.push(':') + path_or_root(path_and_query)
}

/// The path and query of a request, `/` where it has none.
pub open spec fn path_or_root(path_and_query: Option<Seq<char>>) -> Seq<char> {
    match path_and_query {
        Some(p) => p,
        None => "/"@,
    }
}

/// Computes the base cache key, `METHOD:path?query`. No header goes into it.
pub fn base_cache_key(method: &str, path_and_query: Option<&str>) -> (key: String)
    ensures
        key@ == base_key(method@, optional_text(path_and_query)),
{
    let mut key = String::from_str(method);
    key.push(':');
    match path_and_query {
        Some(p) => key.append(p),
        None => key.append("/"),
    }
    key
}

/// The text of a response's `Vary`: what its lines say together.
pub open spec fn vary_text(resp: Fields) -> Option<Seq<char>> {
    let lines = values(resp, "vary"@);
    if lines.len() > 0 {
        Some(combined(lines))
    } else {
        None
    }
}

/// The header names that a `Vary` text lists, in lower case.
pub open spec fn vary_names(vary: Seq<char>) -> Seq<Seq<char>> {
    list_members(vary).map_values(|m: Seq<char>| lower(m))
}

/// The listed header names by which variants are told apart: all but
/// `Authorization`.
pub open spec fn keyed_names(vary: Seq<char>) -> Seq<Seq<char>> {
    vary_names(vary).filter(|n: Seq<char>| n != "authorization"@)
}

/// Whether a response varies on everything: one of its `Vary` lines is the
/// asterisk, whatever the others list.
pub open spec fn varies_on_everything(resp: Fields) -> bool {
    has_asterisk(values(resp, "vary"@))
}

/// Whether one of several header lines is the asterisk.
pub open spec fn has_asterisk(lines: Seq<Seq<u8>>) -> bool {
    exists|i: int|
        0 <= i < lines.len() && is_text(#[trigger] lines[i]) && trim(chars(lines[i]), CharClass::Blank) == "*"@
}

/// The text of a request's header: what its lines say together, nothing where
/// the header is missing.
pub open spec fn header_text(req: Fields, name: Seq<char>) -> Seq<char> {
    if is_header_name(name) {
        combined(values(req, name))
    } else {
        seq![]
    }
}

/// One header of a request as it stands in a cache key.
pub open spec fn dimension(req: Fields, name: Seq<char>) -> Seq<char> {
    name.push('=') + header_text(req, name)
}

/// The headers of a request by which variants are told apart, as they stand
/// in a cache key.
pub open spec fn dimensions(req: Fields, vary: Seq<char>) -> Seq<Seq<char>> {
    keyed_names(vary).map_values(|n: Seq<char>| dimension(req, n))
}

/// A base key extended by the variant that a request asks for, as far as the
/// response's `Vary` tells variants apart.
pub open spec fn variant_key(base: Seq<char>, req: Fields, resp: Fields) -> Seq<char> {
    match vary_text(resp) {
        Some(vary) => if varies_on_everything(resp) || keyed_names(vary).len() == 0 {
            base
        } else {
            base.push('[') + join(sorted(dimensions(req, vary)), ',').push(']')
        },
        None => base,
    }
}

/// Whether one of several header lines is the asterisk.
fn any_asterisk(lines: &Vec<HeaderValue>) -> (r: bool)
    ensures
        r == has_asterisk(value_list(lines@)),
{
    let ghost all = value_list(lines@);
    let mut i: usize = 0;
    while i < lines.len()
        invariant
            i <= lines@.len(),
            all == value_list(lines@),
            forall|j: int|
                0 <= j < i && is_text(#[trigger] all[j]) ==> trim(chars(all[j]), CharClass::Blank) != "*"@,
        decreases lines@.len() - i,
    {
        assert(all[i as int] == value_bytes(lines@[i as int]));
        match value_str(&lines[i]) {
            Some(s) => {
                let line = chars_of(s);
                if same_str(trimmed(line.as_slice(), CharClass::Blank), "*") {
                    return true;
                }
            },
            None => {},
        }
        i += 1;
    }
    false
}

/// The names of a `Vary` text that go into a key.
fn list_keyed_names(vary: &[char]) -> (r: Vec<Vec<char>>)
    ensures
        owned_texts(r@) == keyed_names(vary@),
{
    let parts = pieces(vary, CharClass::Is(','));
    let ghost names = vary_names(vary@);
    let ghost keyed = |n: Seq<char>| n != "authorization"@;
    let mut r: Vec<Vec<char>> = Vec::new();
    let mut i: usize = 0;
    proof {
        assert(texts(parts@).len() == parts@.len());
        reveal(Seq::filter);
        assert(owned_texts(r@) =~= names.take(0).filter(keyed));
    }
    while i < parts.len()
        invariant
            i <= parts@.len(),
            texts(parts@) == split(vary@, CharClass::Is(',')),
            names == vary_names(vary@),
            names.len() == parts@.len(),
            keyed == (|n: Seq<char>| n != "authorization"@),
            owned_texts(r@) == names.take(i as int).filter(keyed),
        decreases parts@.len() - i,
    {
        let name = lower_text(trimmed(parts[i], CharClass::Blank));
        let ghost before = r@;
        proof {
            reveal(Seq::filter);
            assert(texts(parts@)[i as int] == parts@[i as int]@);
            assert(names.take(i + 1).drop_last() =~= names.take(i as int));
            assert(names.take(i + 1).last() == name@);
        }
        if !same_str(name.as_slice(), "authorization") {
            r.push(name);
            assert(owned_texts(r@) =~= owned_texts(before).push(name@));
        }
        i += 1;
    }
    assert(names.take(i as int) =~= names);
    r
}

/// One header of a request as it stands in a cache key.
fn write_dimension(req: &HeaderMap, name: &[char]) -> (r: Vec<char>)
    requires
        lower(name@) == name@,
    ensures
        r@ == dimension(fields_of(*req), name@),
{
    let key = text_from(name);
    let mut r: Vec<char> = Vec::new();
    push_all(&mut r, name);
    r.push('=');
    if reads_as_name(name) {
        let said = read_lines(&all_values(req, key.as_str())).0;
        push_all(&mut r, said.as_slice());
    }
    assert(r@ =~= dimension(fields_of(*req), name@));
    r
}

proof fn lemma_keyed_names_are_lower(vary: Seq<char>, i: int)
    requires
        0 <= i < keyed_names(vary).len(),
    ensures
        lower(keyed_names(vary)[i]) == keyed_names(vary)[i],
{
    let keyed = |n: Seq<char>| n != "authorization"@;
    let name = keyed_names(vary)[i];
    assert(vary_names(vary).contains(name)) by {
        vary_names(vary).lemma_filter_contains_rev(keyed, name);
    }
    let j = choose|j: int| 0 <= j < vary_names(vary).len() && vary_names(vary)[j] == name;
    lemma_lower_twice(trim(split(vary, CharClass::Is(','))[j], CharClass::Blank));
}

/// Extends a base key by the headers that the response's `Vary` lists, with
/// their values in the request.
///
/// The key stays as it is where there is no `Vary`, where one of its lines is
/// the asterisk, and where it lists nothing but `Authorization`, which never goes into a
/// key. The order in which `Vary` lists the headers does not matter.
pub fn vary_cache_key(base: &str, req_headers: &HeaderMap, resp_headers: &HeaderMap) -> (key: String)
    ensures
        key@ == variant_key(base@, fields_of(*req_headers), fields_of(*resp_headers)),
{
    let lines = lookup_all(resp_headers, Name::Vary);
    assert(value_list(lines@).len() == lines@.len());
    if lines.len() == 0 || any_asterisk(&lines) {
        return String::from_str(base);
    }
    let vary = read_lines(&lines).0;
    let names = list_keyed_names(vary.as_slice());
    let ghost keyed = keyed_names(vary@);
    let ghost req = fields_of(*req_headers);
    assert(owned_texts(names@).len() == names@.len());
    if names.len() == 0 {
        return String::from_str(base);
    }
    let mut parts: Vec<Vec<char>> = Vec::new();
    let mut i: usize = 0;
    while i < names.len()
        invariant
            i <= names@.len(),
            owned_texts(names@) == keyed,
            keyed == keyed_names(vary@),
            req == fields_of(*req_headers),
            owned_texts(parts@) == dimensions(req, vary@).take(i as int),
        decreases names@.len() - i,
    {
        proof {
            assert(keyed[i as int] == names@[i as int]@);
            lemma_keyed_names_are_lower(vary@, i as int);
        }
        let ghost before = parts@;
        let part = write_dimension(req_headers, names[i].as_slice());
        parts.push(part);
        i += 1;
        assert(owned_texts(parts@) =~= owned_texts(before).push(part@));
        assert(owned_texts(parts@) =~= dimensions(req, vary@).take(i as int));
    }
    assert(owned_texts(parts@) =~= dimensions(req, vary@));
    let parts = sort_texts(parts);
    let mut key = String::from_str(base);
    key.push('[');
    push_joined(&mut key, &parts, ',');
    key.push(']');
    assert(key@ =~= variant_key(base@, req, fields_of(*resp_headers)));
    key
}

/// Whether a response's `Vary` makes caching unsafe: the response differs
/// from request to request, or from credential to credential.
pub open spec fn uncacheable(resp: Fields) -> bool {
    match vary_text(resp) {
        Some(vary) => varies_on_everything(resp) || vary_names(vary).contains("authorization"@),
        None => false,
    }
}

/// Whether a line of a response's `Vary` is the asterisk or lists
/// `Authorization`.
pub fn vary_prevents_caching(resp_headers: &HeaderMap) -> (r: bool)
    ensures
        r == uncacheable(fields_of(*resp_headers)),
{
    let lines = lookup_all(resp_headers, Name::Vary);
    assert(value_list(lines@).len() == lines@.len());
    if lines.len() == 0 {
        return false;
    }
    if any_asterisk(&lines) {
        return true;
    }
    let vary = read_lines(&lines).0;
    let parts = pieces(vary.as_slice(), CharClass::Is(','));
    let ghost names = vary_names(vary@);
    assert(texts(parts@).len() == parts@.len());
    let mut i: usize = 0;
    while i < parts.len()
        invariant
            i <= parts@.len(),
            texts(parts@) == split(vary@, CharClass::Is(',')),
            names == vary_names(vary@),
            Some(vary@) == vary_text(fields_of(*resp_headers)),
            !varies_on_everything(fields_of(*resp_headers)),
            names.len() == parts@.len(),
            forall|j: int| 0 <= j < i ==> #[trigger] names[j] != "authorization"@,
        decreases parts@.len() - i,
    {
        let name = lower_text(trimmed(parts[i], CharClass::Blank));
        assert(texts(parts@)[i as int] == parts@[i as int]@);
        assert(names[i as int] == name@);
        if same_str(name.as_slice(), "authorization") {
            return true;
        }
        i += 1;
    }
    false
}

}
