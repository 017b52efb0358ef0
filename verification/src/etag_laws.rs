//! What entity tags are for: which copy an origin's 304 confirms.

use vstd::prelude::*;
use vstd::utf8::encode_utf8;
use crate::date::date_of;
use crate::fields::{is_plain, lemma_plain_text, text_or_empty, Fields};
use crate::proxy::{next_step, NextStep, ReplyBody};
use crate::store::Entry;
use crate::text::{
    in_class, lemma_single_piece, lemma_split_at_separator, list_members, split, starts_with, trim, trim_end,
    trim_start, CharClass,
};
use crate::validators::{bare_etag, confirms_client, listed, listed_in_any};
use crate::vary_laws::{is_blank, is_one_name, lemma_trim_padded};

verus! {

/// How an entity tag is written.
pub enum TagForm {
    /// `foo`
    Bare,
    /// `"foo"`
    Strong,
    /// `W/"foo"`
    Weak,
}

/// Whether a text can stand in an entity tag: printable ASCII without commas
/// and quotes. Written without quotes, it may not be empty or have spaces, nor
/// look like a weak one.
pub open spec fn fits(form: TagForm, s: Seq<char>) -> bool {
    &&& forall|i: int| 0 <= i < s.len() ==> ' ' <= #[trigger] s[i] && s[i] <= '~' && s[i] != ',' && s[i] != '"'
    &&& form is Bare ==> s.len() > 0 && !(s.len() >= 2 && s[0] == 'W' && s[1] == '/') && forall|i: int|
        0 <= i < s.len() ==> #[trigger] s[i] != ' '
}

/// An entity tag as it is written.
pub open spec fn tag_written(form: TagForm, s: Seq<char>) -> Seq<char> {
    match form {
        TagForm::Bare => s,
        TagForm::Strong => seq!['"'] + s + seq!['"'],
        TagForm::Weak => seq!['W', '/', '"'] + s + seq!['"'],
    }
}

/// A member of a list of entity tags: the blanks in front of it, how it is
/// written, its text, and the blanks behind it.
pub struct Member {
    pub before: Seq<char>,
    pub form: TagForm,
    pub tag: Seq<char>,
    pub behind: Seq<char>,
}

/// A member of a list as it is written.
pub open spec fn member_written(m: Member) -> Seq<char> {
    m.before + tag_written(m.form, m.tag) + m.behind
}

/// Entity tags as they are written in a list, with commas between them.
pub open spec fn tags_written(list: Seq<Member>) -> Seq<char>
    decreases list.len(),
{
    if list.len() == 0 {
        seq![]
    } else if list.len() == 1 {
        member_written(list[0])
    } else {
        tags_written(list.drop_last()) + seq![','] + member_written(list.last())
    }
}

/// Whether all members of a list can be written so.
pub open spec fn all_fit(list: Seq<Member>) -> bool {
    forall|i: int|
        0 <= i < list.len() ==> fits((#[trigger] list[i]).form, list[i].tag) && is_blank(list[i].before) && is_blank(
            list[i].behind,
        )
}

/// Whether a tag is in a list, however it is written there.
pub open spec fn has_tag(list: Seq<Member>, tag: Seq<char>) -> bool {
    exists|i: int| 0 <= i < list.len() && (#[trigger] list[i]).tag == tag
}

proof fn lemma_unquoted(s: Seq<char>)
    requires
        fits(TagForm::Strong, s),
    ensures
        trim(seq!['"'] + s + seq!['"'], CharClass::Is('"')) == s,
        trim(s, CharClass::Is('"')) == s,
{
    let class = CharClass::Is('"');
    let q = seq!['"'] + s + seq!['"'];
    let r = s + seq!['"'];
    assert(q.drop_first() =~= r);
    assert(q[0] == '"');
    reveal_with_fuel(trim_start, 3);
    reveal_with_fuel(trim_end, 3);
    if s.len() == 0 {
        assert(r[0] == '"');
        assert(r.drop_first() =~= s);
        assert(trim_start(r, class) == s);
    } else {
        assert(r[0] == s[0] && s[0] != '"');
        assert(r.drop_last() =~= s);
        assert(r.last() == '"');
        assert(s.last() == s[s.len() - 1] && s[s.len() - 1] != '"');
        assert(trim_end(r, class) == s);
    }
}

proof fn lemma_tag_written(form: TagForm, s: Seq<char>)
    requires
        fits(form, s),
    ensures
        bare_etag(tag_written(form, s)) == s,
        is_one_name(tag_written(form, s)),
        is_plain(tag_written(form, s)),
{
    let w = tag_written(form, s);
    reveal_strlit("W/");
    lemma_unquoted(s);
    match form {
        TagForm::Bare => {
            if starts_with(w, "W/"@) {
                assert(w.take(2)[0] == s[0] && w.take(2)[1] == s[1]);
            }
            assert(w.last() == s[s.len() - 1]);
        },
        TagForm::Strong => {
            if starts_with(w, "W/"@) {
                assert(w.take(2)[0] == w[0]);
            }
            assert(w.last() == '"');
        },
        TagForm::Weak => {
            assert(w.take(2) =~= "W/"@);
            assert(w.skip(2) =~= seq!['"'] + s + seq!['"']);
            assert(w.last() == '"');
        },
    }
    assert forall|i: int| 0 <= i < w.len() implies #[trigger] w[i] != ',' && (' ' <= w[i] && w[i] <= '~') by {
        match form {
            TagForm::Bare => {},
            TagForm::Strong => if 1 <= i <= s.len() {
                assert(w[i] == s[i - 1]);
            },
            TagForm::Weak => if 3 <= i < s.len() + 3 {
                assert(w[i] == s[i - 3]);
            },
        }
    }
}

proof fn lemma_member_written(m: Member)
    requires
        fits(m.form, m.tag),
        is_blank(m.before),
        is_blank(m.behind),
    ensures
        list_members(member_written(m)) == seq![tag_written(m.form, m.tag)],
        is_plain(member_written(m)),
{
    let (w, t) = (member_written(m), tag_written(m.form, m.tag));
    lemma_tag_written(m.form, m.tag);
    assert forall|i: int| 0 <= i < w.len() implies !in_class(#[trigger] w[i], CharClass::Is(',')) && (w[i] == '\t' || (
    ' ' <= w[i] && w[i] <= '~')) by {
        if i < m.before.len() {
            assert(w[i] == m.before[i]);
        } else if i < m.before.len() + t.len() {
            assert(w[i] == t[i - m.before.len()]);
        } else {
            assert(w[i] == m.behind[i - m.before.len() - t.len()]);
        }
    }
    lemma_single_piece(w, CharClass::Is(','));
    lemma_trim_padded(m.before, t, m.behind);
    assert(list_members(w) =~= seq![t]);
}

proof fn lemma_tags_written(list: Seq<Member>)
    requires
        list.len() > 0,
        all_fit(list),
    ensures
        is_plain(tags_written(list)),
        list_members(tags_written(list)) == list.map_values(|m: Member| tag_written(m.form, m.tag)),
    decreases list.len(),
{
    let last = list[list.len() - 1];
    assert(fits(list[list.len() - 1].form, last.tag));
    lemma_member_written(last);
    let all = list.map_values(|m: Member| tag_written(m.form, m.tag));
    if list.len() == 1 {
        assert(list_members(tags_written(list)) =~= all);
    } else {
        let before = list.drop_last();
        assert forall|i: int| 0 <= i < before.len() implies fits((#[trigger] before[i]).form, before[i].tag)
            && is_blank(before[i].before) && is_blank(before[i].behind) by {
            assert(before[i] == list[i]);
        }
        lemma_tags_written(before);
        let (front, w) = (tags_written(before), member_written(last));
        assert(front + seq![','] + w =~= front.push(',') + w);
        lemma_split_at_separator(front, ',', w, CharClass::Is(','));
        assert(list_members(tags_written(list)) =~= list_members(front) + list_members(w));
        assert(list_members(tags_written(list)) =~= all);
    }
}

/// An entity tag is in a list just where a member of the list is the same text,
/// weak or strong, with quotes or without, and with any blanks around it: a tag
/// that only begins like it, or that it begins with, is another one.
pub proof fn law_only_equal_tags_are_listed(list: Seq<Member>, form: TagForm, tag: Seq<char>)
    requires
        list.len() > 0,
        all_fit(list),
        fits(form, tag),
    ensures
        listed(encode_utf8(tags_written(list)), encode_utf8(tag_written(form, tag))) <==> has_tag(list, tag),
{
    let (l, c) = (tags_written(list), tag_written(form, tag));
    lemma_tags_written(list);
    lemma_tag_written(form, tag);
    lemma_plain_text(l);
    lemma_plain_text(c);
    let members = list_members(l);
    let tags = split(l, CharClass::Is(','));
    let all = list.map_values(|m: Member| tag_written(m.form, m.tag));
    assert(members == all);
    assert(all.len() == list.len());
    assert(members.len() == tags.len());
    assert forall|i: int| 0 <= i < list.len() implies bare_etag(trim(#[trigger] tags[i], CharClass::Blank))
        == list[i].tag by {
        assert(all[i] == tag_written(list[i].form, list[i].tag));
        assert(members[i] == trim(tags[i], CharClass::Blank));
        assert(fits(list[i].form, list[i].tag));
        lemma_tag_written(list[i].form, list[i].tag);
    }
    if has_tag(list, tag) {
        let i = choose|i: int| 0 <= i < list.len() && (#[trigger] list[i]).tag == tag;
        assert(bare_etag(trim(tags[i], CharClass::Blank)) == tag);
    }
    if listed(encode_utf8(l), encode_utf8(c)) {
        let i = choose|i: int|
            0 <= i < tags.len() && bare_etag(trim(#[trigger] tags[i], CharClass::Blank)) == bare_etag(
                text_or_empty(encode_utf8(c)),
            );
        assert(list[i].tag == tag);
    }
}

/// One tag is in the list of another one just where both are the same text.
pub proof fn law_different_tags_differ(f: TagForm, a: Seq<char>, g: TagForm, b: Seq<char>)
    requires
        fits(f, a),
        fits(g, b),
    ensures
        listed(encode_utf8(tag_written(f, a)), encode_utf8(tag_written(g, b))) <==> a == b,
{
    let m = Member { before: seq![], form: f, tag: a, behind: seq![] };
    let one = seq![m];
    law_only_equal_tags_are_listed(one, g, b);
    assert(one[0].tag == a);
    assert(member_written(m) =~= tag_written(f, a));
}

/// The text of an entity tag is what stands between its quotes.
pub proof fn law_tags_are_stripped(form: TagForm, s: Seq<char>)
    requires
        fits(form, s),
    ensures
        bare_etag(tag_written(form, s)) == s,
{
    lemma_tag_written(form, s);
}

/// Whether a tag is on one of several lines.
pub open spec fn any_has_tag(lines: Seq<Seq<Member>>, tag: Seq<char>) -> bool {
    exists|i: int| 0 <= i < lines.len() && has_tag(#[trigger] lines[i], tag)
}

/// After a 304 with an entity tag, the client is told that its own copy is
/// current just where it asked about that very tag, on whichever line of
/// `If-None-Match`. Otherwise it gets what is cached.
pub proof fn law_confirmed_tags_decide(
    method: Seq<char>,
    client: Fields,
    up: Fields,
    entry: Entry,
    key: Seq<char>,
    lines: Seq<Seq<Member>>,
    form: TagForm,
    tag: Seq<char>,
)
    requires
        forall|i: int| 0 <= i < lines.len() ==> (#[trigger] lines[i]).len() > 0 && all_fit(lines[i]),
        fits(form, tag),
        lines.len() > 0 ==> client.contains_key("if-none-match"@) && client["if-none-match"@] == lines.map_values(
            |l: Seq<Member>| encode_utf8(tags_written(l)),
        ),
        lines.len() == 0 ==> !client.contains_key("if-none-match"@),
        up.contains_key("etag"@),
        up["etag"@].len() > 0,
        up["etag"@][0] == encode_utf8(tag_written(form, tag)),
    ensures
        confirms_client(client, up) <==> any_has_tag(lines, tag),
        next_step(method, 304, client, up, Some(entry), key) matches NextStep::Answer(a) && (if any_has_tag(
            lines,
            tag,
        ) {
            a.status == 304 && a.body == ReplyBody::Empty
        } else {
            a.status == 200 || a.status == 206 || a.status == 416
        }),
        !any_has_tag(lines, tag) && !client.contains_key("range"@) ==> (next_step(
            method,
            304,
            client,
            up,
            Some(entry),
            key,
        ) matches NextStep::Answer(a) && a.status == 200 && a.body == ReplyBody::Whole),
{
    let c = encode_utf8(tag_written(form, tag));
    if lines.len() > 0 {
        let sent = client["if-none-match"@];
        assert forall|i: int| 0 <= i < lines.len() implies (listed(#[trigger] sent[i], c) <==> has_tag(
            lines[i],
            tag,
        )) by {
            law_only_equal_tags_are_listed(lines[i], form, tag);
        }
        if any_has_tag(lines, tag) {
            let i = choose|i: int| 0 <= i < lines.len() && has_tag(#[trigger] lines[i], tag);
            assert(listed(sent[i], c));
        }
        if listed_in_any(sent, c) {
            let i = choose|i: int| 0 <= i < sent.len() && listed(#[trigger] sent[i], c);
            assert(has_tag(lines[i], tag));
        }
    }
}

/// After a 304 without an entity tag, the client's own copy is current just
/// where the origin's `Last-Modified` is a date no later than the client's
/// `If-Modified-Since`. Where either is missing or no date, it is not.
pub proof fn law_confirmed_dates_decide(
    method: Seq<char>,
    client: Fields,
    up: Fields,
    entry: Entry,
    key: Seq<char>,
)
    requires
        !up.contains_key("etag"@),
    ensures
        confirms_client(client, up) == (client.contains_key("if-modified-since"@) && up.contains_key(
            "last-modified"@,
        ) && date_of(up["last-modified"@][0]) is Some && date_of(client["if-modified-since"@][0]) is Some && date_of(
            up["last-modified"@][0],
        ).unwrap() <= date_of(client["if-modified-since"@][0]).unwrap()),
        next_step(method, 304, client, up, Some(entry), key) matches NextStep::Answer(a) && (a.status == 304) == (
        client.contains_key("if-modified-since"@) && up.contains_key("last-modified"@) && date_of(
            up["last-modified"@][0],
        ) is Some && date_of(client["if-modified-since"@][0]) is Some && date_of(up["last-modified"@][0]).unwrap()
            <= date_of(client["if-modified-since"@][0]).unwrap()),
{
}

}
