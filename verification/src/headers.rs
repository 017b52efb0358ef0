//! Header rules: which headers go on, and `Via`.

use axum::http::{HeaderMap, HeaderValue};
use vstd::prelude::*;
use vstd::string::StringExecFns;
use vstd::utf8::encode_utf8;
use crate::fields::{
    chars, combined, fields_of, has_room, is_plain, is_text, lemma_combined_is_plain, lemma_combined_lists_all,
    lemma_plain_text, lemma_plain_values_hold, parse_value, plain_values, read_lines, replaced, static_value, text,
    values, Fields,
};
use crate::names::{assign, lookup_all, Name};
use crate::selection::{hop_by_hop, names_hop, select, selected, Selection};
use crate::text::{lemma_members_of_both, lemma_single_piece, list_members, lower, push_chars, trim, CharClass};

pub use crate::date::parse_http_date;
pub use crate::keys::{base_cache_key, vary_cache_key, vary_prevents_caching};
pub use crate::range::parse_range_header;
pub use crate::validators::{
    did_client_validator_match, etag_list_contains, merge_etag_validators, merge_ims_validators, normalize_etag,
};

verus! {

// ---------------------------------------------------------------------------
// Forwarding
// ---------------------------------------------------------------------------

/// Whether a header belongs to the connection rather than to the message,
/// whatever the case of its name.
pub fn is_hop_by_hop(name: &str) -> (r: bool)
    ensures
        r == hop_by_hop(lower(name@)),
{
    names_hop(name)
}

/// The headers of a message without those that belong to the connection.
pub fn forward_headers(src: &HeaderMap) -> (dst: HeaderMap)
    requires
        has_room(fields_of(*src)),
    ensures
        fields_of(dst) == selected(fields_of(*src), Selection::EndToEnd),
{
    select(src, Selection::EndToEnd)
}

// ---------------------------------------------------------------------------
// Via (RFC 7230, section 5.7.1)
// ---------------------------------------------------------------------------

/// What the proxy adds to `Via`.
pub open spec fn via_token() -> Seq<char> {
    "1.1 relaycache"@
}

/// The `Via` text of a message that passes through the proxy: the text of its
/// `Via` lines that are plain text, and behind it what the proxy adds.
pub open spec fn via_text(f: Fields) -> Seq<char> {
    let lines = values(f, "via"@);
    if plain_values(lines).len() > 0 {
        combined(lines) + ", "@ + via_token()
    } else {
        via_token()
    }
}

/// The fields of a message with the proxy named in `Via`.
pub open spec fn with_via(f: Fields) -> Fields {
    replaced(f, "via"@, encode_utf8(via_text(f)))
}

/// Names the proxy in `Via`: behind the text of all `Via` lines, or by itself
/// where there is none that is plain text. The header has a single line
/// afterwards, which lists every earlier hop.
pub fn add_via(headers: &mut HeaderMap)
    requires
        has_room(fields_of(*old(headers))),
    ensures
        fields_of(*final(headers)) == with_via(fields_of(*old(headers))),
{
    let lines = lookup_all(headers, Name::Via);
    let (said, plain) = read_lines(&lines);
    let mut text: String = String::new();
    if plain > 0 {
        push_chars(&mut text, said.as_slice());
        text.append(", ");
    }
    text.append("1.1 relaycache");
    proof {
        reveal_strlit("1.1 relaycache");
        reveal_strlit(", ");
        lemma_combined_is_plain(values(fields_of(*headers), "via"@));
        assert(text@ =~= via_text(fields_of(*headers)));
        assert(is_plain(via_token()));
        assert(is_plain(text@));
        lemma_plain_text(text@);
        lemma_plain_text(via_token());
    }
    let value: HeaderValue = match parse_value(text.as_str()) {
        Some(v) => v,
        None => static_value("1.1 relaycache"),
    };
    assign(headers, Name::Via, value);
}

/// No hop is lost from `Via`: whatever one of its lines lists is listed
/// afterwards, and the proxy comes last.
pub proof fn law_via_keeps_every_hop(f: Fields, line: int, hop: Seq<char>)
    ensures
        with_via(f).contains_key("via"@),
        with_via(f)["via"@] == seq![encode_utf8(via_text(f))],
        text(encode_utf8(via_text(f))) == Some(via_text(f)),
        list_members(via_text(f)).last() == via_token(),
        ({
            let lines = values(f, "via"@);
            0 <= line < lines.len() && is_text(lines[line]) && list_members(chars(lines[line])).contains(hop)
                ==> list_members(via_text(f)).contains(hop)
        }),
{
    let lines = values(f, "via"@);
    let token = via_token();
    reveal_strlit("1.1 relaycache");
    reveal_strlit(", ");
    lemma_combined_is_plain(lines);
    assert(is_plain(via_text(f)));
    lemma_plain_text(via_text(f));
    assert(forall|i: int| 0 <= i < token.len() ==> #[trigger] token[i] != ',');
    lemma_single_piece(token, CharClass::Is(','));
    assert(token[0] == '1' && token[13] == 'e');
    assert(trim(token, CharClass::Blank) == token);
    assert(list_members(token) =~= seq![token]);
    let (front, all) = (list_members(combined(lines)), list_members(via_text(f)));
    if plain_values(lines).len() > 0 {
        lemma_members_of_both(combined(lines), token);
        assert(all =~= front.push(token));
    }
    if 0 <= line < lines.len() && is_text(lines[line]) && list_members(chars(lines[line])).contains(hop) {
        lemma_combined_lists_all(lines, line, hop);
        lemma_plain_values_hold(lines, line);
        let k = choose|k: int| 0 <= k < front.len() && front[k] == hop;
        assert(all[k] == hop);
    }
}

}
