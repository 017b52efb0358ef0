//! Text as sequences of characters: case, trimming, splitting, joining and
//! lexicographic order.

use vstd::prelude::*;
use vstd::relations::{sorted_by, total_ordering};
use vstd::slice::slice_subrange;

verus! {

/// Appends one character to a string (`std::string::String::push`).
///
/// Trusted: the character lands behind the text that was there.
pub assume_specification[ String::push ](s: &mut String, c: char)
    ensures
        final(s)@ == old(s)@.push(c),
;

/// Whether a character has the Unicode `White_Space` property.
pub open spec fn white_space(c: char) -> bool {
    ||| 0x9 <= c as u32 <= 0xd
    ||| c as u32 == 0x20
    ||| c as u32 == 0x85
    ||| c as u32 == 0xa0
    ||| c as u32 == 0x1680
    ||| 0x2000 <= c as u32 <= 0x200a
    ||| c as u32 == 0x2028
    ||| c as u32 == 0x2029
    ||| c as u32 == 0x202f
    ||| c as u32 == 0x205f
    ||| c as u32 == 0x3000
}

/// Whether a character has the Unicode `White_Space` property.
pub(crate) fn is_white_space(c: char) -> (yes: bool)
    ensures
        yes == white_space(c),
{
    let n: u32 = c as u32;
    (0x9 <= n && n <= 0xd) || n == 0x20 || n == 0x85 || n == 0xa0 || n == 0x1680 || (0x2000 <= n && n <= 0x200a)
        || n == 0x2028 || n == 0x2029 || n == 0x202f || n == 0x205f || n == 0x3000
}

/// The text of a string that may be there.
pub open spec fn text_of(s: Option<String>) -> Option<Seq<char>> {
    match s {
        Some(t) => Some(t@),
        None => None,
    }
}

/// The text of a string slice that may be there.
pub open spec fn optional_text(s: Option<&str>) -> Option<Seq<char>> {
    match s {
        Some(t) => Some(t@),
        None => None,
    }
}

/// The characters of a string.
pub(crate) fn chars_of(s: &str) -> (chars: Vec<char>)
    ensures
        chars@ == s@,
{
    let mut chars: Vec<char> = Vec::new();
    for c in it: s.chars()
        invariant
            chars@ == it.seq().take(it.index()),
            it.seq() == s@,
    {
        chars.push(c);
    }
    chars
}

/// The string that holds the given characters.
pub(crate) fn text_from(chars: &[char]) -> (s: String)
    ensures
        s@ == chars@,
{
    let mut s = String::new();
    let mut i: usize = 0;
    while i < chars.len()
        invariant
            i <= chars@.len(),
            s@ == chars@.take(i as int),
        decreases chars@.len() - i,
    {
        s.push(chars[i]);
        i += 1;
    }
    s
}

/// Puts characters behind others.
pub(crate) fn push_all(v: &mut Vec<char>, s: &[char])
    ensures
        final(v)@ == old(v)@ + s@,
{
    let ghost before = v@;
    let mut i: usize = 0;
    while i < s.len()
        invariant
            i <= s@.len(),
            v@ == before + s@.take(i as int),
        decreases s@.len() - i,
    {
        v.push(s[i]);
        i += 1;
        assert(v@ =~= before + s@.take(i as int));
    }
    assert(s@.take(i as int) =~= s@);
}

// ---------------------------------------------------------------------------
// Case
// ---------------------------------------------------------------------------

/// The ASCII lower-case form of a character; other characters are kept.
pub open spec fn lower_char(c: char) -> char {
    if 'A' <= c && c <= 'Z' {
        ((c as u8) + 32) as char
    } else {
        c
    }
}

/// The ASCII upper-case form of a character; other characters are kept.
pub open spec fn upper_char(c: char) -> char {
    if 'a' <= c && c <= 'z' {
        ((c as u8) - 32) as char
    } else {
        c
    }
}

/// A text in ASCII lower case.
pub open spec fn lower(s: Seq<char>) -> Seq<char> {
    s.map_values(|c: char| lower_char(c))
}

/// A text in ASCII upper case.
pub open spec fn upper(s: Seq<char>) -> Seq<char> {
    s.map_values(|c: char| upper_char(c))
}

/// Text in lower case stays as it is.
pub proof fn lemma_lower_twice(s: Seq<char>)
    ensures
        lower(lower(s)) == lower(s),
{
    assert(lower(lower(s)) =~= lower(s));
}

pub(crate) fn lower_text(s: &[char]) -> (r: Vec<char>)
    ensures
        r@ == lower(s@),
{
    let mut r: Vec<char> = Vec::new();
    let mut i: usize = 0;
    while i < s.len()
        invariant
            i <= s@.len(),
            r@ == lower(s@.take(i as int)),
        decreases s@.len() - i,
    {
        let c = s[i];
        if 'A' <= c && c <= 'Z' {
            r.push(((c as u8) + 32) as char);
        } else {
            r.push(c);
        }
        i += 1;
        assert(r@ =~= lower(s@.take(i as int)));
    }
    assert(s@.take(i as int) =~= s@);
    r
}

pub(crate) fn upper_text(s: &[char]) -> (r: Vec<char>)
    ensures
        r@ == upper(s@),
{
    let mut r: Vec<char> = Vec::new();
    let mut i: usize = 0;
    while i < s.len()
        invariant
            i <= s@.len(),
            r@ == upper(s@.take(i as int)),
        decreases s@.len() - i,
    {
        let c = s[i];
        if 'a' <= c && c <= 'z' {
            r.push(((c as u8) - 32) as char);
        } else {
            r.push(c);
        }
        i += 1;
        assert(r@ =~= upper(s@.take(i as int)));
    }
    assert(s@.take(i as int) =~= s@);
    r
}

// ---------------------------------------------------------------------------
// Comparison
// ---------------------------------------------------------------------------

pub(crate) fn same(a: &[char], b: &[char]) -> (r: bool)
    ensures
        r == (a@ == b@),
{
    if a.len() != b.len() {
        return false;
    }
    let mut i: usize = 0;
    while i < a.len()
        invariant
            i <= a@.len(),
            a@.len() == b@.len(),
            a@.take(i as int) == b@.take(i as int),
        decreases a@.len() - i,
    {
        if a[i] != b[i] {
            return false;
        }
        i += 1;
        assert(a@.take(i as int) =~= b@.take(i as int));
    }
    assert(a@.take(i as int) =~= a@);
    assert(b@.take(i as int) =~= b@);
    true
}

/// Whether the characters are those of the string.
pub(crate) fn same_str(a: &[char], b: &str) -> (r: bool)
    ensures
        r == (a@ == b@),
{
    let b = chars_of(b);
    same(a, b.as_slice())
}

/// Whether a text begins with a prefix.
pub open spec fn starts_with(s: Seq<char>, prefix: Seq<char>) -> bool {
    prefix.len() <= s.len() && s.take(prefix.len() as int) == prefix
}

pub(crate) fn has_prefix(s: &[char], prefix: &str) -> (r: bool)
    ensures
        r == starts_with(s@, prefix@),
{
    let p = chars_of(prefix);
    if p.len() > s.len() {
        return false;
    }
    let head = slice_subrange(s, 0, p.len());
    same(head, p.as_slice())
}

// ---------------------------------------------------------------------------
// Character classes, trimming and splitting
// ---------------------------------------------------------------------------

/// A set of characters by which text is trimmed or split.
#[derive(Clone, Copy)]
pub enum CharClass {
    /// One character.
    Is(char),
    /// The white space of header text: space and tab.
    Blank,
    /// Unicode white space.
    WhiteSpace,
    /// All but digits, points and white space.
    NoNumber,
}

/// Whether a character belongs to a class.
pub open spec fn in_class(c: char, class: CharClass) -> bool {
    match class {
        CharClass::Is(x) => c == x,
        CharClass::Blank => c == ' ' || c == '\t',
        CharClass::WhiteSpace => white_space(c),
        CharClass::NoNumber => !('0' <= c && c <= '9') && c != '.' && !white_space(c),
    }
}

fn belongs(c: char, class: CharClass) -> (r: bool)
    ensures
        r == in_class(c, class),
{
    match class {
        CharClass::Is(x) => c == x,
        CharClass::Blank => c == ' ' || c == '\t',
        CharClass::WhiteSpace => is_white_space(c),
        CharClass::NoNumber => !('0' <= c && c <= '9') && c != '.' && !is_white_space(c),
    }
}

/// A text without the leading characters of a class.
pub open spec fn trim_start(s: Seq<char>, class: CharClass) -> Seq<char>
    decreases s.len(),
{
    if s.len() > 0 && in_class(s[0], class) {
        trim_start(s.drop_first(), class)
    } else {
        s
    }
}

/// A text without the trailing characters of a class.
pub open spec fn trim_end(s: Seq<char>, class: CharClass) -> Seq<char>
    decreases s.len(),
{
    if s.len() > 0 && in_class(s.last(), class) {
        trim_end(s.drop_last(), class)
    } else {
        s
    }
}

/// A text without the leading and trailing characters of a class.
pub open spec fn trim(s: Seq<char>, class: CharClass) -> Seq<char> {
    trim_end(trim_start(s, class), class)
}

pub(crate) fn trimmed_start(s: &[char], class: CharClass) -> (r: &[char])
    ensures
        r@ == trim_start(s@, class),
{
    let mut i: usize = 0;
    assert(s@.skip(0) =~= s@);
    while i < s.len() && belongs(s[i], class)
        invariant
            i <= s@.len(),
            trim_start(s@.skip(i as int), class) == trim_start(s@, class),
        decreases s@.len() - i,
    {
        assert(s@.skip(i as int).drop_first() =~= s@.skip(i + 1));
        i += 1;
    }
    let r = slice_subrange(s, i, s.len());
    assert(r@ =~= s@.skip(i as int));
    r
}

pub(crate) fn trimmed_end(s: &[char], class: CharClass) -> (r: &[char])
    ensures
        r@ == trim_end(s@, class),
{
    let mut n: usize = s.len();
    assert(s@.take(n as int) =~= s@);
    while n > 0 && belongs(s[n - 1], class)
        invariant
            n <= s@.len(),
            trim_end(s@.take(n as int), class) == trim_end(s@, class),
        decreases n,
    {
        assert(s@.take(n as int).drop_last() =~= s@.take(n - 1));
        n -= 1;
    }
    let r = slice_subrange(s, 0, n);
    assert(r@ =~= s@.take(n as int));
    r
}

pub(crate) fn trimmed(s: &[char], class: CharClass) -> (r: &[char])
    ensures
        r@ == trim(s@, class),
{
    trimmed_end(trimmed_start(s, class), class)
}

/// Trimming at the start leaves an end of the text, which does not begin with
/// a character of the class.
pub proof fn lemma_trim_start(s: Seq<char>, class: CharClass)
    ensures
        trim_start(s, class).len() <= s.len(),
        trim_start(s, class) == s.skip(s.len() - trim_start(s, class).len()),
        trim_start(s, class).len() > 0 ==> !in_class(trim_start(s, class)[0], class),
        forall|i: int| 0 <= i < s.len() - trim_start(s, class).len() ==> in_class(#[trigger] s[i], class),
    decreases s.len(),
{
    if s.len() > 0 {
        let rest = s.drop_first();
        lemma_trim_start(rest, class);
        assert forall|i: int| 0 <= i < s.len() - trim_start(s, class).len() implies in_class(
            #[trigger] s[i],
            class,
        ) by {
            if i > 0 {
                assert(rest[i - 1] == s[i]);
            }
        }
    }
    assert(trim_start(s, class) =~= s.skip(s.len() - trim_start(s, class).len()));
}

/// Trimming at the end leaves a start of the text, which does not end with a
/// character of the class.
pub proof fn lemma_trim_end(s: Seq<char>, class: CharClass)
    ensures
        trim_end(s, class).len() <= s.len(),
        trim_end(s, class) == s.take(trim_end(s, class).len() as int),
        trim_end(s, class).len() > 0 ==> !in_class(trim_end(s, class).last(), class),
        forall|i: int| trim_end(s, class).len() <= i < s.len() ==> in_class(#[trigger] s[i], class),
    decreases s.len(),
{
    if s.len() > 0 {
        let rest = s.drop_last();
        lemma_trim_end(rest, class);
        assert forall|i: int| trim_end(s, class).len() <= i < s.len() implies in_class(#[trigger] s[i], class) by {
            if i < rest.len() {
                assert(rest[i] == s[i]);
            }
        }
    }
    assert(trim_end(s, class) =~= s.take(trim_end(s, class).len() as int));
}

/// The number of characters before the first one of a class.
pub open spec fn prefix_len(s: Seq<char>, class: CharClass) -> nat
    decreases s.len(),
{
    if s.len() == 0 || in_class(s[0], class) {
        0
    } else {
        1 + prefix_len(s.drop_first(), class)
    }
}

pub proof fn lemma_prefix_len(s: Seq<char>, class: CharClass)
    ensures
        prefix_len(s, class) <= s.len(),
        prefix_len(s, class) < s.len() ==> in_class(s[prefix_len(s, class) as int], class),
        forall|i: int| 0 <= i < prefix_len(s, class) ==> !in_class(#[trigger] s[i], class),
    decreases s.len(),
{
    if s.len() > 0 && !in_class(s[0], class) {
        lemma_prefix_len(s.drop_first(), class);
        let n = prefix_len(s.drop_first(), class);
        assert forall|i: int| 0 <= i < n + 1 implies !in_class(#[trigger] s[i], class) by {
            if i > 0 {
                assert(s[i] == s.drop_first()[i - 1]);
            }
        }
    }
}

proof fn lemma_prefix_len_is(s: Seq<char>, class: CharClass, n: nat)
    requires
        n <= s.len(),
        n < s.len() ==> in_class(s[n as int], class),
        forall|i: int| 0 <= i < n ==> !in_class(#[trigger] s[i], class),
    ensures
        prefix_len(s, class) == n,
{
    lemma_prefix_len(s, class);
    let m = prefix_len(s, class);
    if m < n {
        assert(!in_class(s[m as int], class));
    }
}

pub(crate) fn find(s: &[char], class: CharClass) -> (n: usize)
    ensures
        n == prefix_len(s@, class),
        n <= s@.len(),
{
    let mut n: usize = 0;
    while n < s.len() && !belongs(s[n], class)
        invariant
            n <= s@.len(),
            forall|i: int| 0 <= i < n ==> !in_class(#[trigger] s@[i], class),
        decreases s@.len() - n,
    {
        n += 1;
    }
    proof {
        lemma_prefix_len_is(s@, class, n as nat);
    }
    n
}

/// The pieces between the characters of a class, empty ones included.
pub open spec fn split(s: Seq<char>, class: CharClass) -> Seq<Seq<char>>
    decreases s.len(),
    via split_decreases
{
    let n = prefix_len(s, class) as int;
    if n >= s.len() {
        seq![s]
    } else {
        seq![s.take(n)] + split(s.skip(n + 1), class)
    }
}

#[via_fn]
proof fn split_decreases(s: Seq<char>, class: CharClass) {
    lemma_prefix_len(s, class);
}

proof fn lemma_prefix_len_of_sum(a: Seq<char>, b: Seq<char>, class: CharClass)
    ensures
        prefix_len(a, class) < a.len() ==> prefix_len(a + b, class) == prefix_len(a, class),
        prefix_len(a, class) >= a.len() ==> prefix_len(a + b, class) == a.len() + prefix_len(b, class),
    decreases a.len(),
{
    if a.len() == 0 {
        assert(a + b =~= b);
    } else {
        assert((a + b)[0] == a[0]);
        assert((a + b).drop_first() =~= a.drop_first() + b);
        lemma_prefix_len_of_sum(a.drop_first(), b, class);
        lemma_prefix_len(a.drop_first(), class);
        lemma_prefix_len(a, class);
    }
}

/// Splitting at a separator that stands between two texts splits each of
/// them.
pub proof fn lemma_split_at_separator(a: Seq<char>, c: char, b: Seq<char>, class: CharClass)
    requires
        in_class(c, class),
    ensures
        split(a.push(c) + b, class) == split(a, class) + split(b, class),
    decreases a.len(),
{
    let s = a.push(c) + b;
    let n = prefix_len(a, class) as int;
    lemma_prefix_len(a, class);
    lemma_prefix_len_of_sum(a, seq![c] + b, class);
    assert(s =~= a + (seq![c] + b));
    assert(prefix_len(seq![c] + b, class) == 0);
    if n >= a.len() {
        assert(s.take(n) =~= a);
        assert(s.skip(n + 1) =~= b);
        assert(split(s, class) =~= split(a, class) + split(b, class));
    } else {
        let rest = a.skip(n + 1);
        assert(s.take(n) =~= a.take(n));
        assert(s.skip(n + 1) =~= rest.push(c) + b);
        lemma_split_at_separator(rest, c, b, class);
        assert(split(s, class) =~= split(a, class) + split(b, class));
    }
}

/// A text without separators is a single piece.
pub proof fn lemma_single_piece(s: Seq<char>, class: CharClass)
    requires
        forall|i: int| 0 <= i < s.len() ==> !in_class(#[trigger] s[i], class),
    ensures
        split(s, class) == seq![s],
{
    lemma_prefix_len(s, class);
}

/// The members of a comma-separated list, without the blanks around them.
pub open spec fn list_members(s: Seq<char>) -> Seq<Seq<char>> {
    split(s, CharClass::Is(',')).map_values(|m: Seq<char>| trim(m, CharClass::Blank))
}

proof fn lemma_trim_blank(c: char, s: Seq<char>)
    requires
        in_class(c, CharClass::Blank),
    ensures
        trim(seq![c] + s, CharClass::Blank) == trim(s, CharClass::Blank),
{
    assert((seq![c] + s).drop_first() =~= s);
}

proof fn lemma_members_behind_blank(s: Seq<char>)
    ensures
        list_members(seq![' '] + s) == list_members(s),
{
    let class = CharClass::Is(',');
    let t = seq![' '] + s;
    let n = prefix_len(s, class) as int;
    assert(prefix_len(seq![' '], class) == 1) by {
        reveal_with_fuel(prefix_len, 2);
    }
    lemma_prefix_len_of_sum(seq![' '], s, class);
    lemma_prefix_len(s, class);
    if n >= s.len() {
        lemma_trim_blank(' ', s);
        assert(list_members(t) =~= list_members(s));
    } else {
        assert(t.take(n + 1) =~= seq![' '] + s.take(n));
        assert(t.skip(n + 2) =~= s.skip(n + 1));
        lemma_trim_blank(' ', s.take(n));
        assert(list_members(t) =~= list_members(s));
    }
}

/// Two lists with a comma and a space between them are one list.
pub proof fn lemma_members_of_both(a: Seq<char>, b: Seq<char>)
    ensures
        list_members(a + ", "@ + b) == list_members(a) + list_members(b),
{
    reveal_strlit(", ");
    let behind = seq![' '] + b;
    assert(a + ", "@ + b =~= a.push(',') + behind);
    lemma_split_at_separator(a, ',', behind, CharClass::Is(','));
    lemma_members_behind_blank(b);
    assert(list_members(a + ", "@ + b) =~= list_members(a) + list_members(behind));
}

/// The views of a list of texts.
pub open spec fn texts(list: Seq<&[char]>) -> Seq<Seq<char>> {
    list.map_values(|t: &[char]| t@)
}

pub(crate) fn pieces<'a>(s: &'a [char], class: CharClass) -> (r: Vec<&'a [char]>)
    ensures
        texts(r@) == split(s@, class),
{
    let mut r: Vec<&'a [char]> = Vec::new();
    let mut rest: &'a [char] = s;
    assert(texts(r@) + split(rest@, class) =~= split(s@, class));
    loop
        invariant
            texts(r@) + split(rest@, class) == split(s@, class),
        decreases rest@.len(),
    {
        let n: usize = find(rest, class);
        let ghost before = r@;
        if n >= rest.len() {
            r.push(rest);
            assert(texts(r@) =~= texts(before) + seq![rest@]);
            return r;
        }
        let head = slice_subrange(rest, 0, n);
        let tail = slice_subrange(rest, n + 1, rest.len());
        assert(head@ =~= rest@.take(n as int));
        assert(tail@ =~= rest@.skip(n + 1));
        r.push(head);
        assert(texts(r@) + split(tail@, class) =~= texts(before) + (seq![head@] + split(tail@, class)));
        rest = tail;
    }
}

/// The maximal runs of characters outside a class, in order.
pub open spec fn words(s: Seq<char>, class: CharClass) -> Seq<Seq<char>> {
    split(s, class).filter(|w: Seq<char>| w.len() > 0)
}

/// A word in front of a separator comes before the words behind it.
pub proof fn lemma_words_at_separator(word: Seq<char>, c: char, rest: Seq<char>, class: CharClass)
    requires
        in_class(c, class),
        word.len() > 0,
        forall|i: int| 0 <= i < word.len() ==> !in_class(#[trigger] word[i], class),
    ensures
        words(word.push(c) + rest, class) == seq![word] + words(rest, class),
{
    let long = |w: Seq<char>| w.len() > 0;
    lemma_split_at_separator(word, c, rest, class);
    lemma_single_piece(word, class);
    lemma_filter_of_sum(seq![word], split(rest, class), long);
    reveal(Seq::filter);
    assert(seq![word].drop_last() =~= seq![]);
    assert(seq![word].filter(long) =~= seq![word]);
}

/// A separator in front of a text adds no word.
pub proof fn lemma_words_behind_separator(c: char, rest: Seq<char>, class: CharClass)
    requires
        in_class(c, class),
    ensures
        words(seq![c] + rest, class) == words(rest, class),
{
    let long = |w: Seq<char>| w.len() > 0;
    let none: Seq<char> = seq![];
    assert(none.push(c) + rest =~= seq![c] + rest);
    lemma_split_at_separator(none, c, rest, class);
    lemma_single_piece(none, class);
    lemma_filter_of_sum(seq![none], split(rest, class), long);
    reveal(Seq::filter);
    let empty: Seq<Seq<char>> = seq![];
    assert(empty.filter(long) =~= empty);
    assert(seq![none].drop_last() =~= empty);
    assert(!long(seq![none].last()));
    assert(seq![none].filter(long) =~= empty);
    assert(words(seq![c] + rest, class) =~= words(rest, class));
}

/// A text without separators is a single word.
pub proof fn lemma_single_word(word: Seq<char>, class: CharClass)
    requires
        word.len() > 0,
        forall|i: int| 0 <= i < word.len() ==> !in_class(#[trigger] word[i], class),
    ensures
        words(word, class) == seq![word],
{
    lemma_single_piece(word, class);
    reveal(Seq::filter);
    let long = |w: Seq<char>| w.len() > 0;
    assert(seq![word].drop_last() =~= seq![]);
    assert(seq![word].filter(long) =~= seq![word]);
}

/// Choosing from two lists together is choosing from each of them.
pub proof fn lemma_filter_of_sum<A>(a: Seq<A>, b: Seq<A>, pred: spec_fn(A) -> bool)
    ensures
        (a + b).filter(pred) == a.filter(pred) + b.filter(pred),
    decreases b.len(),
{
    reveal(Seq::filter);
    if b.len() == 0 {
        assert(a + b =~= a);
        assert((a + b).filter(pred) =~= a.filter(pred) + b.filter(pred));
    } else {
        assert((a + b).drop_last() =~= a + b.drop_last());
        lemma_filter_of_sum(a, b.drop_last(), pred);
        assert((a + b).filter(pred) =~= a.filter(pred) + b.filter(pred));
    }
}

pub(crate) fn word_list<'a>(s: &'a [char], class: CharClass) -> (r: Vec<&'a [char]>)
    ensures
        texts(r@) == words(s@, class),
{
    let all = pieces(s, class);
    let ghost long = |w: Seq<char>| w.len() > 0;
    let ghost views = texts(all@);
    let mut r: Vec<&'a [char]> = Vec::new();
    let mut i: usize = 0;
    proof {
        reveal(Seq::filter);
        assert(texts(r@) =~= views.take(0).filter(long));
    }
    while i < all.len()
        invariant
            i <= all@.len(),
            views == texts(all@),
            texts(r@) == views.take(i as int).filter(long),
            long == (|w: Seq<char>| w.len() > 0),
        decreases all@.len() - i,
    {
        let ghost before = r@;
        proof {
            reveal(Seq::filter);
            assert(views.take(i + 1).drop_last() =~= views.take(i as int));
            assert(views.take(i + 1).last() == all@[i as int]@);
        }
        if all[i].len() > 0 {
            r.push(all[i]);
            assert(texts(r@) =~= texts(before).push(all@[i as int]@));
        }
        i += 1;
    }
    assert(views.take(i as int) =~= views);
    r
}

// ---------------------------------------------------------------------------
// Order
// ---------------------------------------------------------------------------

/// Lexicographic order of texts by their characters.
pub open spec fn text_le(a: Seq<char>, b: Seq<char>) -> bool
    decreases a.len(),
{
    if a.len() == 0 {
        true
    } else if b.len() == 0 {
        false
    } else if a[0] != b[0] {
        a[0] < b[0]
    } else {
        text_le(a.drop_first(), b.drop_first())
    }
}

/// The lexicographic order as a relation.
pub open spec fn text_order() -> spec_fn(Seq<char>, Seq<char>) -> bool {
    |a: Seq<char>, b: Seq<char>| text_le(a, b)
}

/// A list of texts in lexicographic order.
pub open spec fn sorted(list: Seq<Seq<char>>) -> Seq<Seq<char>> {
    list.sort_by(text_order())
}

proof fn lemma_text_le_reflexive(a: Seq<char>)
    ensures
        text_le(a, a),
    decreases a.len(),
{
    if a.len() > 0 {
        lemma_text_le_reflexive(a.drop_first());
    }
}

proof fn lemma_text_le_antisymmetric(a: Seq<char>, b: Seq<char>)
    requires
        text_le(a, b),
        text_le(b, a),
    ensures
        a == b,
    decreases a.len(),
{
    if a.len() > 0 {
        lemma_text_le_antisymmetric(a.drop_first(), b.drop_first());
        assert(a =~= seq![a[0]] + a.drop_first());
        assert(b =~= seq![b[0]] + b.drop_first());
    } else {
        assert(a =~= b);
    }
}

proof fn lemma_text_le_transitive(a: Seq<char>, b: Seq<char>, c: Seq<char>)
    requires
        text_le(a, b),
        text_le(b, c),
    ensures
        text_le(a, c),
    decreases a.len(),
{
    if a.len() > 0 && a[0] == b[0] && b[0] == c[0] {
        lemma_text_le_transitive(a.drop_first(), b.drop_first(), c.drop_first());
    }
}

proof fn lemma_text_le_total(a: Seq<char>, b: Seq<char>)
    ensures
        text_le(a, b) || text_le(b, a),
    decreases a.len(),
{
    if a.len() > 0 && b.len() > 0 && a[0] == b[0] {
        lemma_text_le_total(a.drop_first(), b.drop_first());
    }
}

/// The lexicographic order is a total order.
pub proof fn lemma_text_order()
    ensures
        total_ordering(text_order()),
{
    let r = text_order();
    assert forall|a: Seq<char>| #[trigger] r(a, a) by {
        lemma_text_le_reflexive(a);
    }
    assert forall|a: Seq<char>, b: Seq<char>| #[trigger] r(a, b) && #[trigger] r(b, a) implies a == b by {
        lemma_text_le_antisymmetric(a, b);
    }
    assert forall|a: Seq<char>, b: Seq<char>, c: Seq<char>| #[trigger]
        r(a, b) && #[trigger] r(b, c) implies r(a, c) by {
        lemma_text_le_transitive(a, b, c);
    }
    assert forall|a: Seq<char>, b: Seq<char>| #[trigger] r(a, b) || #[trigger] r(b, a) by {
        lemma_text_le_total(a, b);
    }
}

fn not_after(a: &[char], b: &[char]) -> (r: bool)
    ensures
        r == text_le(a@, b@),
{
    let mut i: usize = 0;
    assert(a@.skip(0) =~= a@);
    assert(b@.skip(0) =~= b@);
    while i < a.len()
        invariant
            i <= a@.len(),
            i <= b@.len(),
            text_le(a@.skip(i as int), b@.skip(i as int)) == text_le(a@, b@),
        decreases a@.len() - i,
    {
        if i >= b.len() {
            return false;
        }
        if a[i] != b[i] {
            return a[i] < b[i];
        }
        assert(a@.skip(i as int).drop_first() =~= a@.skip(i + 1));
        assert(b@.skip(i as int).drop_first() =~= b@.skip(i + 1));
        i += 1;
    }
    true
}

/// The texts of a list of character vectors.
pub open spec fn owned_texts(list: Seq<Vec<char>>) -> Seq<Seq<char>> {
    list.map_values(|t: Vec<char>| t@)
}

proof fn lemma_insert_multiset<A>(s: Seq<A>, k: int, x: A)
    requires
        0 <= k <= s.len(),
    ensures
        s.insert(k, x).to_multiset() == s.to_multiset().insert(x),
{
    broadcast use vstd::seq_lib::group_to_multiset_ensures;
    broadcast use vstd::multiset::group_multiset_axioms;

    let t = s.insert(k, x);
    assert(t.remove(k) =~= s);
    assert(t[k] == x);
    assert(t.to_multiset().count(x) > 0);
    assert(t.to_multiset() =~= t.to_multiset().remove(x).insert(x));
}

/// Puts a text into its place in a sorted list.
fn insert_sorted(list: &mut Vec<Vec<char>>, item: Vec<char>)
    requires
        sorted_by(owned_texts(old(list)@), text_order()),
    ensures
        sorted_by(owned_texts(final(list)@), text_order()),
        owned_texts(final(list)@).to_multiset() == owned_texts(old(list)@).to_multiset().insert(item@),
{
    let ghost before = owned_texts(list@);
    let ghost x = item@;
    let mut k: usize = 0;
    while k < list.len() && not_after(list[k].as_slice(), item.as_slice())
        invariant
            k <= list@.len(),
            owned_texts(list@) == before,
            x == item@,
            forall|i: int| 0 <= i < k ==> text_le(#[trigger] before[i], x),
        decreases list@.len() - k,
    {
        assert(before[k as int] == list@[k as int]@);
        k += 1;
    }
    proof {
        lemma_text_order();
        lemma_insert_multiset(before, k as int, x);
        let after = before.insert(k as int, x);
        let r = text_order();
        if k < before.len() {
            assert(before[k as int] == list@[k as int]@);
            lemma_text_le_total(before[k as int], x);
        }
        assert forall|i: int, j: int| 0 <= i < j < after.len() implies #[trigger] r(after[i], after[j]) by {
            if i < k && j > k {
                assert(r(before[i], before[j - 1]));
            } else if i < k && j < k {
                assert(r(before[i], before[j]));
            } else if i > k {
                assert(r(before[i - 1], before[j - 1]));
            } else if i == k {
                if j - 1 > k {
                    assert(r(before[k as int], before[j - 1]));
                    lemma_text_le_transitive(x, before[k as int], before[j - 1]);
                }
            }
        }
    }
    list.insert(k, item);
    assert(owned_texts(list@) =~= before.insert(k as int, x));
}

/// Brings a list of texts into lexicographic order.
pub(crate) fn sort_texts(list: Vec<Vec<char>>) -> (r: Vec<Vec<char>>)
    ensures
        owned_texts(r@) == sorted(owned_texts(list@)),
{
    let ghost all = owned_texts(list@);
    let mut r: Vec<Vec<char>> = Vec::new();
    let mut rest = list;
    proof {
        assert(owned_texts(r@).to_multiset() =~= vstd::multiset::Multiset::empty()) by {
            broadcast use vstd::seq_lib::group_to_multiset_ensures;
            broadcast use vstd::multiset::group_multiset_axioms;

            assert(owned_texts(r@) =~= Seq::<Seq<char>>::empty());
        }
        broadcast use vstd::multiset::group_multiset_axioms;

        assert(owned_texts(r@).to_multiset().add(owned_texts(rest@).to_multiset()) =~= all.to_multiset());
    }
    loop
        invariant
            sorted_by(owned_texts(r@), text_order()),
            owned_texts(r@).to_multiset().add(owned_texts(rest@).to_multiset()) == all.to_multiset(),
            all == owned_texts(list@),
        decreases rest@.len(),
    {
        let ghost done = owned_texts(r@);
        let ghost left = owned_texts(rest@);
        match rest.pop() {
            Some(item) => {
                let ghost x = item@;
                insert_sorted(&mut r, item);
                proof {
                    broadcast use vstd::seq_lib::group_to_multiset_ensures;
                    broadcast use vstd::multiset::group_multiset_axioms;

                    assert(owned_texts(rest@).push(x) =~= left);
                    assert(owned_texts(rest@).push(x).to_multiset() =~= owned_texts(rest@).to_multiset().insert(x));
                    assert(owned_texts(r@).to_multiset().add(owned_texts(rest@).to_multiset())
                        =~= done.to_multiset().add(left.to_multiset()));
                }
            },
            None => {
                proof {
                    broadcast use vstd::seq_lib::group_to_multiset_ensures;
                    broadcast use vstd::multiset::group_multiset_axioms;

                    assert(left =~= Seq::<Seq<char>>::empty());
                    assert(left.to_multiset() =~= vstd::multiset::Multiset::empty());
                    assert(owned_texts(r@).to_multiset() =~= all.to_multiset());
                    lemma_text_order();
                    all.lemma_sort_by_ensures(text_order());
                    vstd::seq_lib::lemma_sorted_unique(owned_texts(r@), sorted(all), text_order());
                }
                return r;
            },
        }
    }
}

// ---------------------------------------------------------------------------
// Joining
// ---------------------------------------------------------------------------

/// The texts of a list, one after the other, with a separator between them.
pub open spec fn join(list: Seq<Seq<char>>, separator: char) -> Seq<char>
    decreases list.len(),
{
    if list.len() == 0 {
        seq![]
    } else if list.len() == 1 {
        list[0]
    } else {
        join(list.drop_last(), separator).push(separator) + list.last()
    }
}

/// Writes characters behind what a string holds.
pub(crate) fn push_chars(s: &mut String, chars: &[char])
    ensures
        final(s)@ == old(s)@ + chars@,
{
    let ghost before = s@;
    let mut i: usize = 0;
    while i < chars.len()
        invariant
            i <= chars@.len(),
            s@ == before + chars@.take(i as int),
        decreases chars@.len() - i,
    {
        s.push(chars[i]);
        i += 1;
        assert(s@ =~= before + chars@.take(i as int));
    }
    assert(chars@.take(i as int) =~= chars@);
}

/// Writes the texts of a list, with a separator between them, behind what a
/// string holds.
pub(crate) fn push_joined(s: &mut String, list: &Vec<Vec<char>>, separator: char)
    ensures
        final(s)@ == old(s)@ + join(owned_texts(list@), separator),
{
    let ghost before = s@;
    let ghost all = owned_texts(list@);
    let mut i: usize = 0;
    assert(s@ =~= before + join(all.take(0), separator));
    while i < list.len()
        invariant
            i <= list@.len(),
            all == owned_texts(list@),
            s@ == before + join(all.take(i as int), separator),
        decreases list@.len() - i,
    {
        assert(all.take(i + 1).drop_last() =~= all.take(i as int));
        assert(all.take(i + 1).last() == list@[i as int]@);
        if i > 0 {
            s.push(separator);
        }
        push_chars(s, list[i].as_slice());
        i += 1;
        assert(s@ =~= before + join(all.take(i as int), separator));
    }
    assert(all.take(i as int) =~= all);
}

}
