//! What a request is for: what of it reaches the origin, and how.

use vstd::prelude::*;
use vstd::utf8::encode_utf8;
use crate::date::date_of;
use crate::fields::{chars, combined, is_text, lemma_combined_step, plain_values, Fields};
use crate::headers::with_via;
use crate::keys::{base_key, path_or_root, variant_key};
use crate::proxy::{cacheable_method, forwarded, looked_up};
use crate::selection::{hop_by_hop, selected, Selection};
use crate::store::Entry;

verus! {

/// Whether a header belongs to the connection (RFC 7230, section 6.1).
pub open spec fn is_connection_header(name: Seq<char>) -> bool {
    ||| name == "connection"@
    ||| name == "keep-alive"@
    ||| name == "proxy-authenticate"@
    ||| name == "proxy-authorization"@
    ||| name == "te"@
    ||| name == "trailers"@
    ||| name == "transfer-encoding"@
    ||| name == "upgrade"@
}

/// Whether two sets of fields agree on a header: both have it with the same
/// values, or neither has it.
pub open spec fn agree_on(a: Fields, b: Fields, name: Seq<char>) -> bool {
    &&& a.contains_key(name) == b.contains_key(name)
    &&& a.contains_key(name) ==> a[name] == b[name]
}

/// A header is held back just where it belongs to the connection; every other
/// one goes on with all its values.
pub proof fn law_only_connection_headers_are_held_back(f: Fields, name: Seq<char>)
    ensures
        hop_by_hop(name) <==> is_connection_header(name),
        is_connection_header(name) ==> !selected(f, Selection::EndToEnd).contains_key(name),
        !is_connection_header(name) ==> agree_on(selected(f, Selection::EndToEnd), f, name),
{
}

pub(crate) proof fn lemma_no_connection_headers()
    ensures
        !is_connection_header("via"@),
        !is_connection_header("range"@),
        !is_connection_header("if-range"@),
        !is_connection_header("if-none-match"@),
        !is_connection_header("if-modified-since"@),
        !is_connection_header("content-length"@),
        !is_connection_header("content-range"@),
        !is_connection_header("accept-ranges"@),
        !is_connection_header("x-cache"@),
        !is_connection_header("x-cache-key"@),
{
    reveal_strlit("connection");
    reveal_strlit("keep-alive");
    reveal_strlit("proxy-authenticate");
    reveal_strlit("proxy-authorization");
    reveal_strlit("te");
    reveal_strlit("trailers");
    reveal_strlit("transfer-encoding");
    reveal_strlit("upgrade");
    reveal_strlit("via");
    reveal_strlit("range");
    reveal_strlit("if-range");
    reveal_strlit("if-none-match");
    reveal_strlit("if-modified-since");
    reveal_strlit("content-length");
    reveal_strlit("content-range");
    reveal_strlit("accept-ranges");
    reveal_strlit("x-cache");
    reveal_strlit("x-cache-key");
    assert("connection"@.len() == 10 && "keep-alive"@.len() == 10 && "proxy-authenticate"@.len() == 18
        && "proxy-authorization"@.len() == 19 && "te"@.len() == 2 && "trailers"@.len() == 8
        && "transfer-encoding"@.len() == 17 && "upgrade"@.len() == 7);
    assert("trailers"@[0] == 't' && "if-range"@[0] == 'i');
    assert("transfer-encoding"@[0] == 't' && "if-modified-since"@[0] == 'i');
    assert("upgrade"@[0] == 'u' && "x-cache"@[0] == 'x');
}

proof fn lemma_request_names_differ()
    ensures
        "via"@ != "range"@,
        "via"@ != "if-range"@,
        "via"@ != "if-none-match"@,
        "via"@ != "if-modified-since"@,
        "range"@ != "if-none-match"@,
        "range"@ != "if-modified-since"@,
        "if-range"@ != "if-none-match"@,
        "if-range"@ != "if-modified-since"@,
        "if-none-match"@ != "if-modified-since"@,
{
    reveal_strlit("via");
    reveal_strlit("range");
    reveal_strlit("if-range");
    reveal_strlit("if-none-match");
    reveal_strlit("if-modified-since");
    assert("via"@.len() == 3 && "range"@.len() == 5 && "if-range"@.len() == 8 && "if-none-match"@.len() == 13
        && "if-modified-since"@.len() == 17);
}

/// What the client sends reaches the origin just as it is, but for the headers
/// of the connection, `Via`, the range and the validators; nothing else is
/// added.
pub proof fn law_requests_are_forwarded(method: Seq<char>, client: Fields, cached: Option<Entry>, name: Seq<char>)
    requires
        name != "via"@,
        name != "range"@,
        name != "if-range"@,
        name != "if-none-match"@,
        name != "if-modified-since"@,
    ensures
        is_connection_header(name) ==> !forwarded(method, client, cached).contains_key(name),
        !is_connection_header(name) ==> agree_on(forwarded(method, client, cached), client, name),
{
}

/// The range of a `GET` is kept from the origin, with what makes it
/// conditional, so that the whole body comes. Any other request, and a
/// condition without a range, reaches the origin as the client sent it.
pub proof fn law_only_ranges_of_gets_are_kept_back(method: Seq<char>, client: Fields, cached: Option<Entry>)
    ensures
        ({
            let sent = forwarded(method, client, cached);
            if method == "GET"@ && client.contains_key("range"@) {
                !sent.contains_key("range"@) && !sent.contains_key("if-range"@)
            } else {
                agree_on(sent, client, "range"@) && agree_on(sent, client, "if-range"@)
            }
        }),
{
    lemma_no_connection_headers();
    lemma_request_names_differ();
}

/// The validators that the client sent reach the origin just as they are where
/// there is nothing in the cache to ask about: neither where nothing is
/// cached, nor where the cached response has no such validator.
pub proof fn law_own_validators_reach_the_origin(method: Seq<char>, client: Fields, cached: Option<Entry>)
    ensures
        (cached matches Some(entry) ==> entry.etag is None) ==> agree_on(
            forwarded(method, client, cached),
            client,
            "if-none-match"@,
        ),
        (cached matches Some(entry) ==> entry.last_modified is None) ==> agree_on(
            forwarded(method, client, cached),
            client,
            "if-modified-since"@,
        ),
{
    lemma_no_connection_headers();
    lemma_request_names_differ();
}

/// The validators of what is cached reach the origin just as they are where
/// the client sent none.
pub proof fn law_cached_validators_reach_the_origin(method: Seq<char>, client: Fields, entry: Entry)
    ensures
        ({
            let sent = forwarded(method, client, Some(entry));
            &&& entry.etag is Some && !client.contains_key("if-none-match"@) ==> sent.contains_key("if-none-match"@)
                && sent["if-none-match"@] == seq![entry.etag.unwrap()]
            &&& entry.last_modified is Some && !client.contains_key("if-modified-since"@) ==> sent.contains_key(
                "if-modified-since"@,
            ) && sent["if-modified-since"@] == seq![entry.last_modified.unwrap()]
        }),
{
    lemma_request_names_differ();
}

/// Where both have an entity tag, the origin is asked about both in one line,
/// the client's first. Where they are the same, it is asked once.
pub proof fn law_validators_are_sent_together(method: Seq<char>, client: Fields, entry: Entry, own: Seq<u8>)
    requires
        client.contains_key("if-none-match"@),
        client["if-none-match"@] == seq![own],
        is_text(own),
        entry.etag matches Some(p) && is_text(p),
    ensures
        ({
            let sent = forwarded(method, client, Some(entry));
            let p = entry.etag.unwrap();
            &&& sent.contains_key("if-none-match"@)
            &&& own == p ==> sent["if-none-match"@] == seq![p]
            &&& own != p ==> sent["if-none-match"@] == seq![encode_utf8(chars(own) + seq![',', ' '] + chars(p))]
        }),
{
    lemma_no_connection_headers();
    lemma_request_names_differ();
    let p = entry.etag.unwrap();
    let lines = seq![own];
    lemma_one_line(own);
    reveal_strlit(", ");
    assert(seq![',', ' '] =~= ", "@);
    if own != p {
        assert(lines[0] == own);
        assert(lines != seq![p]) by {
            assert(seq![p][0] == p);
        }
    }
}

/// Where both have a date, one of the two reaches the origin, and it is not
/// the earlier one; a date that cannot be read gives way to the cached one.
pub proof fn law_the_later_date_is_sent(method: Seq<char>, client: Fields, entry: Entry, own: Seq<u8>)
    requires
        client.contains_key("if-modified-since"@),
        client["if-modified-since"@].len() > 0,
        client["if-modified-since"@][0] == own,
        entry.last_modified is Some,
    ensures
        ({
            let p = entry.last_modified.unwrap();
            let sent = forwarded(method, client, Some(entry));
            &&& sent.contains_key("if-modified-since"@)
            &&& sent["if-modified-since"@] == seq![own] || sent["if-modified-since"@] == seq![p]
            &&& date_of(own) is None || date_of(p) is None ==> sent["if-modified-since"@] == seq![p]
            &&& date_of(own) is Some && date_of(p) is Some ==> sent["if-modified-since"@] == (if date_of(own).unwrap()
                < date_of(p).unwrap() {
                seq![p]
            } else {
                seq![own]
            })
        }),
{
    lemma_request_names_differ();
}

pub(crate) proof fn lemma_one_line(line: Seq<u8>)
    ensures
        is_text(line) ==> combined(seq![line]) == chars(line) && plain_values(seq![line]).len() == 1,
        !is_text(line) ==> combined(seq![line]).len() == 0 && plain_values(seq![line]).len() == 0,
{
    reveal(Seq::filter);
    let none: Seq<Seq<u8>> = seq![];
    lemma_combined_step(none, line);
    assert(none.push(line) =~= seq![line]);
}

pub(crate) proof fn lemma_no_line()
    ensures
        combined(seq![]).len() == 0,
        plain_values(seq![]).len() == 0,
{
    reveal(Seq::filter);
}

/// Whatever passes through the proxy gets a single `Via` line that ends in the
/// proxy; before it stands what the line said that was there.
pub proof fn law_the_proxy_comes_last_in_via(f: Fields, line: Seq<u8>)
    ensures
        with_via(f).contains_key("via"@),
        !f.contains_key("via"@) ==> with_via(f)["via"@] == seq![encode_utf8("1.1 relaycache"@)],
        f.contains_key("via"@) && f["via"@] == seq![line] && is_text(line) ==> with_via(f)["via"@] == seq![
            encode_utf8(chars(line) + seq![',', ' '] + "1.1 relaycache"@),
        ],
        forall|name: Seq<char>| name != "via"@ ==> agree_on(with_via(f), f, name),
{
    lemma_one_line(line);
    lemma_no_line();
    reveal_strlit(", ");
    assert(seq![',', ' '] =~= ", "@);
}

/// The request that reaches the origin carries the `Via` that passing through
/// the proxy gives.
pub proof fn law_requests_name_the_proxy(method: Seq<char>, client: Fields, cached: Option<Entry>)
    ensures
        agree_on(forwarded(method, client, cached), with_via(selected(client, Selection::EndToEnd)), "via"@),
        agree_on(selected(client, Selection::EndToEnd), client, "via"@),
{
    lemma_no_connection_headers();
    lemma_request_names_differ();
}

/// The path and query of a request stand in its address as they are; a request
/// without any is one for the root. The base key is the method, a colon and
/// the same text.
pub proof fn law_paths_are_kept(method: Seq<char>, path: Seq<char>)
    ensures
        path_or_root(Some(path)) == path,
        path_or_root(None) == seq!['/'],
        base_key(method, Some(path)) == method + seq![':'] + path,
        base_key(method, None) == method + seq![':', '/'],
        cacheable_method(method) <==> method == seq!['G', 'E', 'T'],
{
    reveal_strlit("/");
    reveal_strlit("GET");
    assert("/"@ =~= seq!['/']);
    assert("GET"@ =~= seq!['G', 'E', 'T']);
    assert(base_key(method, Some(path)) =~= method + seq![':'] + path);
    assert(base_key(method, None) =~= method + seq![':', '/']);
}

/// Different methods and different paths have different base keys.
pub proof fn law_resources_have_keys_of_their_own(m: Seq<char>, p: Seq<char>, n: Seq<char>, q: Seq<char>)
    requires
        !m.contains(':'),
        !n.contains(':'),
        base_key(m, Some(p)) == base_key(n, Some(q)),
    ensures
        m == n,
        p == q,
{
    let (a, b) = (base_key(m, Some(p)), base_key(n, Some(q)));
    law_paths_are_kept(m, p);
    law_paths_are_kept(n, q);
    assert(a[m.len() as int] == ':' && b[n.len() as int] == ':');
    if m.len() < n.len() {
        assert(b[m.len() as int] == n[m.len() as int]);
    }
    if n.len() < m.len() {
        assert(a[n.len() as int] == m[n.len() as int]);
    }
    assert(m =~= a.take(m.len() as int));
    assert(n =~= b.take(n.len() as int));
    assert(p =~= a.skip(m.len() + 1int));
    assert(q =~= b.skip(n.len() + 1int));
}

/// A request looks under its base key first. What is there is what it gets,
/// unless its `Vary` leads to another key: then it gets what is there, be it
/// nothing.
pub proof fn law_lookups_follow_vary(index: Map<Seq<char>, Entry>, base: Seq<char>, client: Fields)
    ensures
        !index.contains_key(base) ==> looked_up(index, base, client) == (base, None::<Entry>),
        index.contains_key(base) && !index[base].headers.contains_key("vary"@) ==> looked_up(index, base, client) == (
            base,
            Some(index[base]),
        ),
        index.contains_key(base) ==> ({
            let key = variant_key(base, client, index[base].headers);
            looked_up(index, base, client) == (
                key,
                if index.contains_key(key) {
                    Some(index[key])
                } else {
                    None
                },
            )
        }),
{
}

}
