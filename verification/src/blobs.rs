//! Where bodies lie on disk, and which files are leftovers.

use vstd::hash_set::StringHashSet;
use vstd::prelude::*;
use vstd::string::StringExecFns;
use vstd::utf8::{decode_utf8, encode_utf8, is_char_boundary};
use crate::digest::{is_address, is_hex_digit};
use crate::numbers::{decimal, law_decimal_is_injective, push_decimal};
use crate::paths::{join_paths, path_join};
use crate::text::{chars_of, has_prefix, starts_with, text_of};

verus! {

// ---------------------------------------------------------------------------
// Blobs
// ---------------------------------------------------------------------------

/// Whether a digest has a first part of two bytes.
pub open spec fn has_shard(sha256: Seq<char>) -> bool {
    is_char_boundary(encode_utf8(sha256), 2)
}

/// The first two bytes of a digest, which name the directory of its blob.
pub open spec fn shard(sha256: Seq<char>) -> Seq<char> {
    decode_utf8(encode_utf8(sha256).subrange(0, 2))
}

/// Where the blob of a digest lies: in a directory named by the first two
/// bytes of the digest, under the whole digest.
pub open spec fn blob_location(root: Seq<char>, sha256: Seq<char>) -> Seq<char> {
    path_join(path_join(root, shard(sha256)), sha256)
}

/// The path of a blob.
pub fn blob_path(root: &str, sha256: &str) -> (path: String)
    requires
        has_shard(sha256@),
    ensures
        path@ == blob_location(root@, sha256@),
{
    let (dir, _rest) = sha256.split_at(2);
    proof {
        vstd::utf8::encode_utf8_decode_utf8(dir@);
    }
    join_paths(join_paths(root, dir).as_str(), sha256)
}

/// The path of the blob of a body that was cached; none where it was not.
pub fn blob_path_on_disk(blob_root: &str, sha256: Option<&str>) -> (path: Option<String>)
    requires
        sha256 matches Some(s) ==> has_shard(s@),
    ensures
        text_of(path) == (match sha256 {
            Some(s) => Some(blob_location(blob_root@, s@)),
            None => None,
        }),
{
    match sha256 {
        Some(s) => Some(blob_path(blob_root, s)),
        None => None,
    }
}

/// A content address has a first part of two bytes: its first two digits.
pub proof fn lemma_address_has_shard(s: Seq<char>)
    requires
        is_address(s),
    ensures
        has_shard(s),
        shard(s) == s.take(2),
{
    assert(vstd::utf8::is_ascii_chars(s)) by {
        assert forall|i: int| 0 <= i < s.len() implies '\0' <= #[trigger] s[i] <= '\u{7f}' by {
            assert(is_hex_digit(s[i]));
        }
    }
    vstd::utf8::is_ascii_chars_encode_utf8(s);
    let bytes = encode_utf8(s);
    let head = s.take(2);
    assert(vstd::utf8::is_ascii_chars(head));
    vstd::utf8::is_ascii_chars_encode_utf8(head);
    assert(bytes.subrange(0, 2) =~= encode_utf8(head));
    vstd::utf8::encode_utf8_decode_utf8(head);
    vstd::utf8::encode_utf8_valid_utf8(s);
    assert(bytes[2] < 128) by {
        assert(is_hex_digit(s[2]));
    }
    vstd::utf8::utf8_byte_ranges_bitwise(bytes[2]);
    vstd::utf8::is_char_boundary_iff_is_leading_byte(bytes, 2);
}

/// Under one root, different content addresses have different blob paths.
pub proof fn law_blobs_lie_apart(root: Seq<char>, a: Seq<char>, b: Seq<char>)
    requires
        is_address(a),
        is_address(b),
        blob_location(root, a) == blob_location(root, b),
    ensures
        a == b,
{
    lemma_address_has_shard(a);
    lemma_address_has_shard(b);
    let (pa, pb) = (blob_location(root, a), blob_location(root, b));
    assert(is_hex_digit(a[0]) && is_hex_digit(b[0]));
    assert(a =~= pa.skip(pa.len() - 64));
    assert(b =~= pb.skip(pb.len() - 64));
}

// ---------------------------------------------------------------------------
// Temporary files
// ---------------------------------------------------------------------------

/// The name of a temporary file.
pub open spec fn temp_name(n: u64) -> Seq<char> {
    ".tmp-"@ + decimal(n as nat)
}

/// The path of the temporary file with a given number.
pub fn make_temp_path(blob_root: &str, n: u64) -> (path: String)
    ensures
        path@ == path_join(blob_root@, temp_name(n)),
{
    let mut name = String::from_str(".tmp-");
    push_decimal(&mut name, n);
    join_paths(blob_root, name.as_str())
}

/// Whether a file in the blob root is a temporary file that was left behind.
pub fn is_temp_name(name: &str) -> (r: bool)
    ensures
        r == starts_with(name@, ".tmp-"@),
{
    let name = chars_of(name);
    has_prefix(name.as_slice(), ".tmp-")
}

/// Temporary files with different numbers have different paths, and each is
/// told from a blob directory by its name.
pub proof fn law_temp_files_are_told_apart(root: Seq<char>, a: u64, b: u64)
    ensures
        path_join(root, temp_name(a)) == path_join(root, temp_name(b)) ==> a == b,
        starts_with(temp_name(a), ".tmp-"@),
        forall|s: Seq<char>| #[trigger] is_address(s) ==> !starts_with(shard(s), ".tmp-"@),
{
    reveal_strlit(".tmp-");
    assert(temp_name(a).take(5) =~= ".tmp-"@);
    let (na, nb) = (temp_name(a), temp_name(b));
    let (pa, pb) = (path_join(root, na), path_join(root, nb));
    if pa == pb {
        assert(na[0] == '.' && nb[0] == '.');
        let k = pa.len() - na.len();
        assert(pb.len() - nb.len() == k);
        assert(na =~= pa.skip(k));
        assert(nb =~= pb.skip(k));
        assert(decimal(a as nat) =~= na.skip(5));
        assert(decimal(b as nat) =~= nb.skip(5));
        law_decimal_is_injective(a as nat, b as nat);
    }
    assert forall|s: Seq<char>| #[trigger] is_address(s) implies !starts_with(shard(s), ".tmp-"@) by {
        lemma_address_has_shard(s);
    }
}

// ---------------------------------------------------------------------------
// Orphans
// ---------------------------------------------------------------------------

/// The digests that the database knows.
pub struct KnownBlobs {
    digests: StringHashSet,
}

impl View for KnownBlobs {
    type V = Set<Seq<char>>;

    closed spec fn view(&self) -> Set<Seq<char>> {
        self.digests@
    }
}

impl KnownBlobs {
    /// No digests.
    pub fn new() -> (known: KnownBlobs)
        ensures
            known@ == Set::<Seq<char>>::empty(),
    {
        KnownBlobs { digests: StringHashSet::new() }
    }

    /// Takes a digest in.
    pub fn insert(&mut self, sha256: String)
        ensures
            final(self)@ == old(self)@.insert(sha256@),
    {
        self.digests.insert(sha256);
    }

    /// Whether a blob file belongs to no digest that the database knows.
    pub fn is_orphan(&self, name: &str) -> (r: bool)
        ensures
            r == !self@.contains(name@),
    {
        !self.digests.contains(name)
    }
}

/// What was found in the blob root: a name, and the names of the files in it
/// where it is a directory that can be read.
#[derive(Debug)]
pub struct Found {
    pub name: String,
    pub files: Option<Vec<String>>,
}

/// A file that is to be removed.
#[derive(Clone, Copy, PartialEq, Eq, Structural, Debug)]
pub enum Leftover {
    /// A temporary file: the item of the blob root with this number.
    Temp { item: usize },
    /// A blob file without an owner: the file with this number in the item of
    /// the blob root with that number.
    Orphan { item: usize, file: usize },
}

/// The blob files without an owner in an item of the blob root, in order.
pub open spec fn orphans(item: int, files: Seq<String>, known: Set<Seq<char>>) -> Seq<Leftover>
    decreases files.len(),
{
    if files.len() == 0 {
        seq![]
    } else {
        let before = orphans(item, files.drop_last(), known);
        if known.contains(files.last()@) {
            before
        } else {
            before.push(Leftover::Orphan { item: item as usize, file: (files.len() - 1) as usize })
        }
    }
}

/// What is to be removed of an item of the blob root: the item itself where it
/// is a temporary file, or the blob files without an owner in it.
pub open spec fn leftovers_of(item: int, found: Found, known: Set<Seq<char>>) -> Seq<Leftover> {
    if starts_with(found.name@, ".tmp-"@) {
        seq![Leftover::Temp { item: item as usize }]
    } else {
        match found.files {
            Some(files) => orphans(item, files@, known),
            None => seq![],
        }
    }
}

/// What is to be removed of the blob root, in order.
pub open spec fn leftovers(listing: Seq<Found>, known: Set<Seq<char>>) -> Seq<Leftover>
    decreases listing.len(),
{
    if listing.len() == 0 {
        seq![]
    } else {
        leftovers(listing.drop_last(), known) + leftovers_of(listing.len() - 1, listing.last(), known)
    }
}

fn push_orphans(out: &mut Vec<Leftover>, item: usize, files: &Vec<String>, known: &KnownBlobs)
    ensures
        final(out)@ == old(out)@ + orphans(item as int, files@, known@),
{
    let ghost before = out@;
    let mut j: usize = 0;
    while j < files.len()
        invariant
            j <= files@.len(),
            out@ == before + orphans(item as int, files@.take(j as int), known@),
        decreases files@.len() - j,
    {
        assert(files@.take(j + 1).drop_last() =~= files@.take(j as int));
        if known.is_orphan(files[j].as_str()) {
            out.push(Leftover::Orphan { item, file: j });
        }
        j += 1;
        assert(out@ =~= before + orphans(item as int, files@.take(j as int), known@));
    }
    assert(files@.take(j as int) =~= files@);
}

/// Decides which files of the blob root are left over from an unclean
/// shutdown: temporary files, and blob files that the database does not know.
pub fn cleanup_plan(listing: &Vec<Found>, known: &KnownBlobs) -> (plan: Vec<Leftover>)
    ensures
        plan@ == leftovers(listing@, known@),
{
    let mut plan: Vec<Leftover> = Vec::new();
    let mut i: usize = 0;
    while i < listing.len()
        invariant
            i <= listing@.len(),
            plan@ == leftovers(listing@.take(i as int), known@),
        decreases listing@.len() - i,
    {
        assert(listing@.take(i + 1).drop_last() =~= listing@.take(i as int));
        assert(listing@.take(i + 1).last() == listing@[i as int]);
        if is_temp_name(listing[i].name.as_str()) {
            plan.push(Leftover::Temp { item: i });
        } else {
            match &listing[i].files {
                Some(files) => push_orphans(&mut plan, i, files, known),
                None => {},
            }
        }
        i += 1;
        assert(plan@ =~= leftovers(listing@.take(i as int), known@));
    }
    assert(listing@.take(i as int) =~= listing@);
    plan
}

/// A cleanup removes no blob that the database knows, and no directory of
/// blobs.
pub proof fn law_known_blobs_are_kept(listing: Seq<Found>, known: Set<Seq<char>>, k: int)
    requires
        0 <= k < leftovers(listing, known).len(),
        listing.len() <= usize::MAX,
    ensures
        match leftovers(listing, known)[k] {
            Leftover::Temp { item } => item < listing.len() && starts_with(listing[item as int].name@, ".tmp-"@),
            Leftover::Orphan { item, file } => item < listing.len() && (listing[item as int].files matches Some(f)
                && file < f@.len() && !known.contains(f@[file as int]@)),
        },
    decreases listing.len(),
{
    let before = listing.drop_last();
    let n = leftovers(before, known).len();
    let last = listing.len() - 1;
    if k < n {
        law_known_blobs_are_kept(before, known, k);
    } else {
        let mine = leftovers_of(last, listing.last(), known);
        assert(leftovers(listing, known)[k] == mine[k - n]);
        if !starts_with(listing[last].name@, ".tmp-"@) {
            match listing[last].files {
                Some(f) => {
                    assert(f.len() == f@.len());
                    lemma_orphans(last, f@, known, k - n);
                },
                None => {},
            }
        }
    }
}

proof fn lemma_orphans(item: int, files: Seq<String>, known: Set<Seq<char>>, k: int)
    requires
        0 <= k < orphans(item, files, known).len(),
        files.len() <= usize::MAX,
    ensures
        orphans(item, files, known)[k] matches Leftover::Orphan { item: i, file } && i == item as usize && file
            < files.len() && !known.contains(files[file as int]@),
    decreases files.len(),
{
    let before = orphans(item, files.drop_last(), known);
    if k < before.len() {
        lemma_orphans(item, files.drop_last(), known, k);
    }
}

/// A cleanup removes every temporary file in the blob root, and every blob
/// file in its directories that the database does not know.
pub proof fn law_leftovers_are_removed(listing: Seq<Found>, known: Set<Seq<char>>, item: int, file: int)
    requires
        0 <= item < listing.len() <= usize::MAX,
    ensures
        starts_with(listing[item].name@, ".tmp-"@) ==> leftovers(listing, known).contains(
            Leftover::Temp { item: item as usize },
        ),
        !starts_with(listing[item].name@, ".tmp-"@) && (listing[item].files matches Some(f) && 0 <= file < f@.len()
            && !known.contains(f@[file]@)) ==> leftovers(listing, known).contains(
            Leftover::Orphan { item: item as usize, file: file as usize },
        ),
    decreases listing.len(),
{
    let before = listing.drop_last();
    let last = listing.len() - 1;
    let (front, mine) = (leftovers(before, known), leftovers_of(last, listing.last(), known));
    let temp = Leftover::Temp { item: item as usize };
    let orphan = Leftover::Orphan { item: item as usize, file: file as usize };
    assert(leftovers(listing, known) == front + mine);
    if item < last {
        assert(before[item] == listing[item]);
        law_leftovers_are_removed(before, known, item, file);
        if front.contains(temp) {
            let k = choose|k: int| 0 <= k < front.len() && front[k] == temp;
            assert((front + mine)[k] == temp);
        }
        if front.contains(orphan) {
            let k = choose|k: int| 0 <= k < front.len() && front[k] == orphan;
            assert((front + mine)[k] == orphan);
        }
    } else if starts_with(listing[item].name@, ".tmp-"@) {
        assert((front + mine)[front.len() as int] == temp);
    } else {
        match listing[item].files {
            Some(f) => if 0 <= file < f@.len() && !known.contains(f@[file]@) {
                lemma_orphans_hold(item, f@, known, file);
                let k = choose|k: int| 0 <= k < mine.len() && mine[k] == orphan;
                assert((front + mine)[front.len() + k] == orphan);
            },
            None => {},
        }
    }
}

proof fn lemma_orphans_hold(item: int, files: Seq<String>, known: Set<Seq<char>>, file: int)
    requires
        0 <= file < files.len(),
        !known.contains(files[file]@),
    ensures
        orphans(item, files, known).contains(Leftover::Orphan { item: item as usize, file: file as usize }),
    decreases files.len(),
{
    let before = orphans(item, files.drop_last(), known);
    let orphan = Leftover::Orphan { item: item as usize, file: file as usize };
    if file == files.len() - 1 {
        assert(before.push(orphan)[before.len() as int] == orphan);
    } else {
        assert(files.drop_last()[file] == files[file]);
        lemma_orphans_hold(item, files.drop_last(), known, file);
        let k = choose|k: int| 0 <= k < before.len() && before[k] == orphan;
        assert(orphans(item, files, known)[k] == orphan);
    }
}

/// Whether a file was in an item of the blob root and was not to be removed.
pub open spec fn was_kept(name: Seq<char>, files: Seq<String>, item: int, plan: Seq<Leftover>) -> bool {
    exists|g: int|
        0 <= g < files.len() && (#[trigger] files[g])@ == name && !plan.contains(
            Leftover::Orphan { item: item as usize, file: g as usize },
        )
}

/// Whether an item of the blob root holds nothing but what an earlier item
/// held and was not to be removed.
pub open spec fn is_rest_of(later: Found, earlier: Found, item: int, plan: Seq<Leftover>) -> bool {
    &&& later.name@ == earlier.name@
    &&& !plan.contains(Leftover::Temp { item: item as usize })
    &&& later.files matches Some(rest) ==> earlier.files matches Some(files) && forall|j: int|
        0 <= j < rest@.len() ==> was_kept((#[trigger] rest@[j])@, files@, item, plan)
}

/// Whether the blob root holds nothing but what it held before a cleanup and
/// the cleanup did not remove.
pub open spec fn is_cleaned(later: Seq<Found>, listing: Seq<Found>, known: Set<Seq<char>>) -> bool {
    forall|j: int|
        0 <= j < later.len() ==> exists|i: int|
            0 <= i < listing.len() && is_rest_of(
                #[trigger] later[j],
                #[trigger] listing[i],
                i,
                leftovers(listing, known),
            )
}

/// A second cleanup finds nothing to remove.
pub proof fn law_cleaning_up_twice_removes_nothing(later: Seq<Found>, listing: Seq<Found>, known: Set<Seq<char>>)
    requires
        is_cleaned(later, listing, known),
        listing.len() <= usize::MAX,
    ensures
        leftovers(later, known).len() == 0,
    decreases later.len(),
{
    if later.len() > 0 {
        let before = later.drop_last();
        let last = later[later.len() - 1];
        let plan = leftovers(listing, known);
        assert forall|j: int| 0 <= j < before.len() implies exists|i: int|
            0 <= i < listing.len() && is_rest_of(#[trigger] before[j], #[trigger] listing[i], i, plan) by {
            assert(before[j] == later[j]);
        }
        law_cleaning_up_twice_removes_nothing(before, listing, known);
        let i = choose|i: int| 0 <= i < listing.len() && is_rest_of(last, #[trigger] listing[i], i, plan);
        law_leftovers_are_removed(listing, known, i, 0);
        assert(!starts_with(last.name@, ".tmp-"@));
        match (last.files, listing[i].files) {
            (Some(rest), Some(files)) => {
                assert forall|j: int| 0 <= j < rest@.len() implies known.contains((#[trigger] rest@[j])@) by {
                    let name = rest@[j]@;
                    assert(was_kept(name, files@, i, plan));
                    let g = choose|g: int|
                        0 <= g < files@.len() && (#[trigger] files@[g])@ == name && !plan.contains(
                            Leftover::Orphan { item: i as usize, file: g as usize },
                        );
                    law_leftovers_are_removed(listing, known, i, g);
                }
                lemma_no_orphans(later.len() - 1, rest@, known);
            },
            _ => {},
        }
    }
}

proof fn lemma_no_orphans(item: int, files: Seq<String>, known: Set<Seq<char>>)
    requires
        forall|j: int| 0 <= j < files.len() ==> known.contains((#[trigger] files[j])@),
    ensures
        orphans(item, files, known).len() == 0,
    decreases files.len(),
{
    if files.len() > 0 {
        let before = files.drop_last();
        assert forall|j: int| 0 <= j < before.len() implies known.contains((#[trigger] before[j])@) by {
            assert(before[j] == files[j]);
        }
        lemma_no_orphans(item, before, known);
        assert(known.contains(files[files.len() - 1]@));
    }
}

}
