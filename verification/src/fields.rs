//! Header fields: the multimap of `axum::http`, what it holds, and the text
//! of names and values.

use axum::http::{HeaderMap, HeaderName, HeaderValue};
use vstd::prelude::*;
use vstd::utf8::encode_utf8;
use crate::numbers::decimal;
use crate::text::{chars_of, lemma_members_of_both, list_members, lower, push_all};

verus! {

// ---------------------------------------------------------------------------
// Types and their contents
// ---------------------------------------------------------------------------

/// The header multimap of `axum::http`.
#[verifier::external_type_specification]
#[verifier::external_body]
#[verifier::reject_recursive_types(T)]
pub struct ExHeaderMap<T>(HeaderMap<T>);

/// A header name of `axum::http`.
#[verifier::external_type_specification]
#[verifier::external_body]
pub struct ExHeaderName(HeaderName);

/// A header value of `axum::http`.
#[verifier::external_type_specification]
#[verifier::external_body]
pub struct ExHeaderValue(HeaderValue);

/// What a header map holds: each name, in lower case, with its values in the
/// order in which they were added.
pub type Fields = Map<Seq<char>, Seq<Seq<u8>>>;

/// The contents of a header map.
pub uninterp spec fn fields_of(map: HeaderMap) -> Map<Seq<char>, Seq<Seq<u8>>>;

/// The characters of a header name.
pub uninterp spec fn name_text(name: HeaderName) -> Seq<char>;

/// The bytes of a header value.
pub uninterp spec fn value_bytes(value: HeaderValue) -> Seq<u8>;

// ---------------------------------------------------------------------------
// Characters of names and values
// ---------------------------------------------------------------------------

/// Whether a character may occur in a header name, in either case.
pub open spec fn token_char(c: char) -> bool {
    ||| 'a' <= c && c <= 'z'
    ||| 'A' <= c && c <= 'Z'
    ||| '0' <= c && c <= '9'
    ||| c == '!' || c == '#' || c == '$' || c == '%' || c == '&' || c == '\''
    ||| c == '*' || c == '+' || c == '-' || c == '.' || c == '^' || c == '_'
    ||| c == '`' || c == '|' || c == '~'
}

/// Whether every character of a text may occur in a header name.
pub open spec fn is_token(s: Seq<char>) -> bool {
    forall|i: int| 0 <= i < s.len() ==> token_char(#[trigger] s[i])
}

/// The largest length of a header name.
pub const MAX_NAME_LEN: usize = 65535;

/// Whether a text is a header name, in either case.
pub open spec fn is_header_name(s: Seq<char>) -> bool {
    1 <= s.len() <= MAX_NAME_LEN && is_token(s)
}

/// Whether a byte is a tab or a printable ASCII character.
pub open spec fn visible(b: u8) -> bool {
    32 <= b < 127 || b == 9
}

/// Whether a header value is plain text: tabs and printable ASCII only.
pub open spec fn is_text(bytes: Seq<u8>) -> bool {
    forall|i: int| 0 <= i < bytes.len() ==> visible(#[trigger] bytes[i])
}

/// The characters of a header value that is plain text.
pub open spec fn chars(bytes: Seq<u8>) -> Seq<char> {
    bytes.map_values(|b: u8| b as char)
}

/// The text of a header value, if it is plain text.
pub open spec fn text(bytes: Seq<u8>) -> Option<Seq<char>> {
    if is_text(bytes) {
        Some(chars(bytes))
    } else {
        None
    }
}

/// The text of a header value, or nothing where it is not plain text.
pub open spec fn text_or_empty(bytes: Seq<u8>) -> Seq<char> {
    if is_text(bytes) {
        chars(bytes)
    } else {
        seq![]
    }
}

/// Whether a byte may occur in a header value.
pub open spec fn value_byte(b: u8) -> bool {
    (b >= 32 && b != 127) || b == 9
}

/// Whether a byte string may be a header value.
pub open spec fn is_value(bytes: Seq<u8>) -> bool {
    forall|i: int| 0 <= i < bytes.len() ==> value_byte(#[trigger] bytes[i])
}

/// Whether a text consists of tabs and printable ASCII characters.
pub open spec fn is_plain(s: Seq<char>) -> bool {
    forall|i: int| 0 <= i < s.len() ==> #[trigger] s[i] == '\t' || (' ' <= s[i] && s[i] <= '~')
}

// ---------------------------------------------------------------------------
// Contents
// ---------------------------------------------------------------------------

/// A map without headers.
pub open spec fn no_fields() -> Fields {
    Map::empty()
}

/// The fields after a value was added behind those of the same name.
pub open spec fn appended(f: Fields, name: Seq<char>, value: Seq<u8>) -> Fields {
    f.insert(name, values(f, name).push(value))
}

/// The fields after a value took the place of all those of the same name.
pub open spec fn replaced(f: Fields, name: Seq<char>, value: Seq<u8>) -> Fields {
    f.insert(name, seq![value])
}

/// The values of a name, none where the name does not occur.
pub open spec fn values(f: Fields, name: Seq<char>) -> Seq<Seq<u8>> {
    if f.contains_key(name) {
        f[name]
    } else {
        seq![]
    }
}

/// The first value of a name.
pub open spec fn first(f: Fields, name: Seq<char>) -> Option<Seq<u8>> {
    if f.contains_key(name) {
        Some(f[name][0])
    } else {
        None
    }
}

/// The values that are plain text.
pub open spec fn plain_values(values: Seq<Seq<u8>>) -> Seq<Seq<u8>> {
    values.filter(|v: Seq<u8>| is_text(v))
}

/// The texts of header lines, with a comma and a space between them.
pub open spec fn line_texts(lines: Seq<Seq<u8>>) -> Seq<char>
    decreases lines.len(),
{
    if lines.len() == 0 {
        seq![]
    } else if lines.len() == 1 {
        chars(lines[0])
    } else {
        line_texts(lines.drop_last()) + ", "@ + chars(lines.last())
    }
}

/// What the lines of one header say together: the texts of those that are
/// plain text, as one list.
pub open spec fn combined(lines: Seq<Seq<u8>>) -> Seq<char> {
    line_texts(plain_values(lines))
}

/// The bytes of a list of header values.
pub open spec fn value_list(list: Seq<HeaderValue>) -> Seq<Seq<u8>> {
    list.map_values(|v: HeaderValue| value_bytes(v))
}

/// The fields that come of adding name and value pairs one after the other.
pub open spec fn collected(pairs: Seq<(Seq<char>, Seq<u8>)>) -> Fields
    decreases pairs.len(),
{
    if pairs.len() == 0 {
        no_fields()
    } else {
        appended(collected(pairs.drop_last()), pairs.last().0, pairs.last().1)
    }
}

/// The texts of a list of header names and values.
pub open spec fn pair_texts(list: Seq<(HeaderName, HeaderValue)>) -> Seq<(Seq<char>, Seq<u8>)> {
    list.map_values(|p: (HeaderName, HeaderValue)| (name_text(p.0), value_bytes(p.1)))
}

/// The number of names up to which a header map takes another field, however
/// its hash table came to be. The table has at most 32768 places; once a fifth
/// of them is in use, colliding names may ask for a larger one.
pub const MAX_NAMES: usize = 6553;

/// Whether the fields have just this number of names.
pub open spec fn counts_names(f: Fields, n: nat) -> bool {
    f.dom().finite() && f.dom().len() == n
}

/// Whether a header map with these fields takes another field.
pub open spec fn has_room(f: Fields) -> bool {
    f.dom().finite() && f.dom().len() <= MAX_NAMES
}

// ---------------------------------------------------------------------------
// The outside calls
// ---------------------------------------------------------------------------

/// `HeaderMap::new`. Trusted: the new map holds nothing.
#[verifier::external_body]
pub(crate) fn new_headers() -> (map: HeaderMap)
    ensures
        fields_of(map) == no_fields(),
{
    HeaderMap::new()
}

/// `HeaderMap::keys_len`. Trusted: it counts the names, which are finitely
/// many.
#[verifier::external_body]
pub(crate) fn name_count(map: &HeaderMap) -> (n: usize)
    ensures
        counts_names(fields_of(*map), n as nat),
{
    map.keys_len()
}

/// `HeaderMap::get`. Trusted: the lookup of a header name ignores its case and
/// gives the first value.
#[verifier::external_body]
pub(crate) fn first_value<'a>(map: &'a HeaderMap, name: &str) -> (value: Option<&'a HeaderValue>)
    requires
        is_header_name(name@),
    ensures
        value is Some == fields_of(*map).contains_key(lower(name@)),
        value matches Some(v) ==> value_bytes(*v) == fields_of(*map)[lower(name@)][0],
{
    map.get(name)
}

/// `HeaderMap::get_all`. Trusted: the lookup of a header name ignores its case
/// and gives all the values of the name, in their order.
#[verifier::external_body]
pub(crate) fn all_values(map: &HeaderMap, name: &str) -> (list: Vec<HeaderValue>)
    requires
        is_header_name(name@),
    ensures
        value_list(list@) == values(fields_of(*map), lower(name@)),
{
    map.get_all(name).iter().map(|v| v.clone()).collect()
}

/// `HeaderMap::insert`. Trusted: the value takes the place of all values of
/// its name. The call panics where the hash table is full and may not grow;
/// with at most `MAX_NAMES` names it always finds room.
#[verifier::external_body]
pub(crate) fn set_field(map: &mut HeaderMap, name: HeaderName, value: HeaderValue)
    requires
        has_room(fields_of(*old(map))),
    ensures
        fields_of(*final(map)) == replaced(fields_of(*old(map)), name_text(name), value_bytes(value)),
{
    map.insert(name, value);
}

/// `HeaderMap::append`. Trusted: the value goes behind those of its name.
/// The call panics where `set_field` does.
#[verifier::external_body]
pub(crate) fn add_field(map: &mut HeaderMap, name: HeaderName, value: HeaderValue)
    requires
        has_room(fields_of(*old(map))),
    ensures
        fields_of(*final(map)) == appended(fields_of(*old(map)), name_text(name), value_bytes(value)),
{
    map.append(name, value);
}

/// `HeaderMap::try_append`. Trusted: where it succeeds, the value goes behind
/// those of its name; where it does not, the map stays as it is. With at most
/// `MAX_NAMES` names it succeeds. With more, success rests on how the names
/// fall into the hash table, and nothing is said of it.
#[verifier::external_body]
pub(crate) fn offer_field(map: &mut HeaderMap, name: HeaderName, value: HeaderValue) -> (taken: bool)
    ensures
        has_room(fields_of(*old(map))) ==> taken,
        fields_of(*final(map)) == (if taken {
            appended(fields_of(*old(map)), name_text(name), value_bytes(value))
        } else {
            fields_of(*old(map))
        }),
{
    map.try_append(name, value).is_ok()
}

/// `HeaderMap::remove`. Trusted: all values of a header name go, whatever its
/// case.
#[verifier::external_body]
pub(crate) fn take_out(map: &mut HeaderMap, name: &str)
    requires
        is_header_name(name@),
    ensures
        fields_of(*final(map)) == fields_of(*old(map)).remove(lower(name@)),
{
    map.remove(name);
}

/// `HeaderMap::iter`. Trusted: each name comes with each of its values, the
/// values of one name in their order, so that adding the pairs one after the
/// other rebuilds the contents. Nothing is said of the order of the names.
#[verifier::external_body]
pub(crate) fn items(map: &HeaderMap) -> (list: Vec<(HeaderName, HeaderValue)>)
    ensures
        collected(pair_texts(list@)) == fields_of(*map),
{
    map.iter().map(|(n, v)| (n.clone(), v.clone())).collect()
}

/// `HeaderName::as_str`. Trusted: the text of a header name is in lower case.
#[verifier::external_body]
pub(crate) fn name_str(name: &HeaderName) -> (s: &str)
    ensures
        s@ == name_text(*name),
        lower(s@) == s@,
{
    name.as_str()
}

/// `HeaderName::from_static`. Trusted: the name has the text given, which has
/// to be a header name in lower case: the call panics on any other.
#[verifier::external_body]
pub(crate) fn static_name(s: &'static str) -> (name: HeaderName)
    requires
        is_header_name(s@),
        lower(s@) == s@,
    ensures
        name_text(name) == s@,
{
    HeaderName::from_static(s)
}

/// `HeaderName::from_bytes`. Trusted: it takes the texts of header names and
/// brings them to lower case.
#[verifier::external_body]
pub(crate) fn parse_name(s: &str) -> (name: Option<HeaderName>)
    ensures
        name is Some <==> is_header_name(s@),
        name matches Some(n) ==> name_text(n) == lower(s@),
{
    HeaderName::from_bytes(s.as_bytes()).ok()
}

/// `HeaderValue::to_str`. Trusted: it gives the text of a value that is plain
/// text, and nothing for any other.
#[verifier::external_body]
pub(crate) fn value_str(value: &HeaderValue) -> (s: Option<&str>)
    ensures
        s is Some <==> is_text(value_bytes(*value)),
        s matches Some(t) ==> t@ == chars(value_bytes(*value)),
{
    value.to_str().ok()
}

/// `HeaderValue::from_str`. Trusted: it takes the texts whose UTF-8 bytes may
/// all occur in a header value, and keeps the bytes.
#[verifier::external_body]
pub(crate) fn parse_value(s: &str) -> (value: Option<HeaderValue>)
    ensures
        value is Some <==> is_value(encode_utf8(s@)),
        value matches Some(v) ==> value_bytes(v) == encode_utf8(s@),
{
    HeaderValue::from_str(s).ok()
}

/// `HeaderValue::from_static`. Trusted: the value has the bytes of the text,
/// which has to be plain text: the call panics on any other.
#[verifier::external_body]
pub(crate) fn static_value(s: &'static str) -> (value: HeaderValue)
    requires
        is_text(encode_utf8(s@)),
    ensures
        value_bytes(value) == encode_utf8(s@),
{
    HeaderValue::from_static(s)
}

/// `HeaderValue::from` a number. Trusted: the value is the decimal text.
#[verifier::external_body]
pub(crate) fn number_value(n: u64) -> (value: HeaderValue)
    ensures
        value_bytes(value) == encode_utf8(decimal(n as nat)),
{
    HeaderValue::from(n)
}

/// `HeaderMap::clone`. Trusted: the copy holds the same fields.
#[verifier::external_body]
pub(crate) fn copy_headers(map: &HeaderMap) -> (copy: HeaderMap)
    ensures
        fields_of(copy) == fields_of(*map),
{
    map.clone()
}

/// `HeaderValue::clone`. Trusted: the copy has the same bytes.
#[verifier::external_body]
pub(crate) fn copy_value(value: &HeaderValue) -> (copy: HeaderValue)
    ensures
        value_bytes(copy) == value_bytes(*value),
{
    value.clone()
}

/// `HeaderName::clone`. Trusted: the copy has the same text.
#[verifier::external_body]
pub(crate) fn copy_name(name: &HeaderName) -> (copy: HeaderName)
    ensures
        name_text(copy) == name_text(*name),
{
    name.clone()
}

/// `HeaderValue::eq`. Trusted: values are equal where their bytes are.
#[verifier::external_body]
pub(crate) fn same_value(a: &HeaderValue, b: &HeaderValue) -> (same: bool)
    ensures
        same == (value_bytes(*a) == value_bytes(*b)),
{
    a == b
}

// ---------------------------------------------------------------------------
// Checks on the side of the caller
// ---------------------------------------------------------------------------

/// Whether characters are those of a header name, in either case.
pub(crate) fn reads_as_name(s: &[char]) -> (r: bool)
    ensures
        r == is_header_name(s@),
{
    if s.len() < 1 || s.len() > MAX_NAME_LEN {
        return false;
    }
    let mut i: usize = 0;
    while i < s.len()
        invariant
            i <= s@.len(),
            forall|j: int| 0 <= j < i ==> token_char(#[trigger] s@[j]),
        decreases s@.len() - i,
    {
        let c = s[i];
        if !(('a' <= c && c <= 'z') || ('A' <= c && c <= 'Z') || ('0' <= c && c <= '9') || c == '!' || c == '#'
            || c == '$' || c == '%' || c == '&' || c == '\'' || c == '*' || c == '+' || c == '-' || c == '.' || c
            == '^' || c == '_' || c == '`' || c == '|' || c == '~') {
            assert(!token_char(s@[i as int]));
            return false;
        }
        i += 1;
    }
    true
}

/// What a header's lines say together, and how many of them are plain text.
pub(crate) fn read_lines(list: &Vec<HeaderValue>) -> (r: (Vec<char>, usize))
    ensures
        r.0@ == combined(value_list(list@)),
        r.1 == plain_values(value_list(list@)).len(),
{
    let ghost all = value_list(list@);
    let mut said: Vec<char> = Vec::new();
    let mut plain: usize = 0;
    let mut i: usize = 0;
    proof {
        reveal(Seq::filter);
        assert(said@ =~= combined(all.take(0)));
    }
    while i < list.len()
        invariant
            i <= list@.len(),
            all == value_list(list@),
            said@ == combined(all.take(i as int)),
            plain == plain_values(all.take(i as int)).len(),
            plain <= i,
        decreases list@.len() - i,
    {
        proof {
            lemma_combined_step(all.take(i as int), all[i as int]);
            assert(all.take(i + 1) =~= all.take(i as int).push(all[i as int]));
        }
        match value_str(&list[i]) {
            Some(s) => {
                if plain > 0 {
                    said.push(',');
                    said.push(' ');
                }
                let line = chars_of(s);
                push_all(&mut said, line.as_slice());
                plain += 1;
                proof {
                    reveal_strlit(", ");
                    if plain == 1 {
                        assert(plain_values(all.take(i as int)) =~= seq![]);
                    }
                    assert(said@ =~= combined(all.take(i + 1)));
                }
            },
            None => {},
        }
        i += 1;
    }
    assert(all.take(i as int) =~= all);
    (said, plain)
}

/// Whether a header map takes another field for sure.
pub fn takes_more(map: &HeaderMap) -> (r: bool)
    ensures
        r == has_room(fields_of(*map)),
{
    name_count(map) <= MAX_NAMES
}

// ---------------------------------------------------------------------------
// Plain text
// ---------------------------------------------------------------------------

/// Plain text survives as a header value: its bytes may stand in one, and
/// reading them gives the text back.
pub proof fn lemma_plain_text(s: Seq<char>)
    requires
        is_plain(s),
    ensures
        is_value(encode_utf8(s)),
        is_text(encode_utf8(s)),
        chars(encode_utf8(s)) == s,
        text(encode_utf8(s)) == Some(s),
        text_or_empty(encode_utf8(s)) == s,
{
    assert(vstd::utf8::is_ascii_chars(s));
    vstd::utf8::is_ascii_chars_encode_utf8(s);
    let b = encode_utf8(s);
    assert forall|i: int| 0 <= i < b.len() implies visible(#[trigger] b[i]) by {
        assert(s[i] == '\t' || (' ' <= s[i] && s[i] <= '~'));
    }
    assert(chars(b) =~= s);
}

/// The text of header lines grows by one line after the other.
pub proof fn lemma_combined_step(lines: Seq<Seq<u8>>, line: Seq<u8>)
    ensures
        plain_values(lines.push(line)) == (if is_text(line) {
            plain_values(lines).push(line)
        } else {
            plain_values(lines)
        }),
        combined(lines.push(line)) == (if !is_text(line) {
            combined(lines)
        } else if plain_values(lines).len() == 0 {
            chars(line)
        } else {
            combined(lines) + ", "@ + chars(line)
        }),
{
    reveal(Seq::filter);
    assert(lines.push(line).drop_last() =~= lines);
    if is_text(line) {
        let more = plain_values(lines).push(line);
        assert(plain_values(lines.push(line)) == more);
        assert(more.drop_last() =~= plain_values(lines));
    }
}

/// What header lines say together is plain text.
pub proof fn lemma_combined_is_plain(lines: Seq<Seq<u8>>)
    ensures
        is_plain(combined(lines)),
    decreases lines.len(),
{
    reveal(Seq::filter);
    if lines.len() > 0 {
        let before = lines.drop_last();
        lemma_combined_is_plain(before);
        lemma_combined_step(before, lines.last());
        lemma_text_is_plain(lines.last());
        reveal_strlit(", ");
        assert(before.push(lines.last()) =~= lines);
    }
}

/// What header lines say together is one list, of what each of them that is
/// plain text lists.
pub proof fn lemma_combined_lists_all(lines: Seq<Seq<u8>>, i: int, member: Seq<char>)
    requires
        0 <= i < lines.len(),
        is_text(lines[i]),
        list_members(chars(lines[i])).contains(member),
    ensures
        list_members(combined(lines)).contains(member),
    decreases lines.len(),
{
    let before = lines.drop_last();
    let line = lines.last();
    lemma_combined_step(before, line);
    assert(before.push(line) =~= lines);
    let (a, b) = (list_members(combined(before)), list_members(chars(line)));
    if i == lines.len() - 1 {
        if plain_values(before).len() > 0 {
            lemma_members_of_both(combined(before), chars(line));
            let k = choose|k: int| 0 <= k < b.len() && b[k] == member;
            assert((a + b)[a.len() + k] == member);
        }
    } else {
        assert(before[i] == lines[i]);
        lemma_combined_lists_all(before, i, member);
        lemma_plain_values_hold(before, i);
        if is_text(line) {
            lemma_members_of_both(combined(before), chars(line));
            let k = choose|k: int| 0 <= k < a.len() && a[k] == member;
            assert((a + b)[k] == member);
        }
    }
}

/// A line that is plain text counts among those that are.
pub proof fn lemma_plain_values_hold(lines: Seq<Seq<u8>>, i: int)
    requires
        0 <= i < lines.len(),
        is_text(lines[i]),
    ensures
        plain_values(lines).len() > 0,
    decreases lines.len(),
{
    reveal(Seq::filter);
    if i < lines.len() - 1 {
        assert(lines.drop_last()[i] == lines[i]);
        lemma_plain_values_hold(lines.drop_last(), i);
    }
}

/// The text of a header value is plain.
pub proof fn lemma_text_is_plain(bytes: Seq<u8>)
    ensures
        is_plain(text_or_empty(bytes)),
        is_text(bytes) ==> is_plain(chars(bytes)) && encode_utf8(chars(bytes)) == bytes,
{
    if is_text(bytes) {
        let s = chars(bytes);
        assert forall|i: int| 0 <= i < s.len() implies #[trigger] s[i] == '\t' || (' ' <= s[i] && s[i] <= '~') by {
            assert(visible(bytes[i]));
        }
        assert(vstd::utf8::is_ascii_chars(s));
        vstd::utf8::is_ascii_chars_encode_utf8(s);
        assert(encode_utf8(s) =~= bytes);
    }
}

}
