//! Content addresses: the SHA-256 digest of a body in hexadecimal.

use sha2::{Digest, Sha256};
use vstd::prelude::*;

verus! {

/// The SHA-256 digest of a byte string.
pub uninterp spec fn sha256(bytes: Seq<u8>) -> Seq<u8>;

/// The state of `sha2::Sha256`, which takes bytes in piece by piece.
#[verifier::external_body]
pub struct Hasher {
    state: Sha256,
}

/// The bytes that a hasher has taken in.
pub uninterp spec fn absorbed(hasher: Hasher) -> Seq<u8>;

/// No bytes at all.
pub open spec fn no_bytes() -> Seq<u8> {
    Seq::empty()
}

/// `Sha256::new`. Trusted: the new state has taken nothing in.
#[verifier::external_body]
fn new_hasher() -> (hasher: Hasher)
    ensures
        absorbed(hasher) == no_bytes(),
{
    Hasher { state: Sha256::new() }
}

/// `Sha256::update`. Trusted: the bytes go behind those taken in before.
#[verifier::external_body]
fn absorb(hasher: &mut Hasher, bytes: &[u8])
    ensures
        absorbed(*final(hasher)) == absorbed(*old(hasher)) + bytes@,
{
    hasher.state.update(bytes);
}

/// `Sha256::finalize`. Trusted: the digest depends on the bytes that were
/// taken in alone, not on how they were cut, and has 32 bytes.
#[verifier::external_body]
fn finalize(hasher: Hasher) -> (digest: Vec<u8>)
    ensures
        digest@ == sha256(absorbed(hasher)),
        digest@.len() == 32,
{
    hasher.state.finalize().to_vec()
}

/// The hexadecimal digit for a number below sixteen, in lower case.
pub open spec fn hex_digit(d: int) -> char {
    if d < 10 {
        (48 + d) as char
    } else {
        (87 + d) as char
    }
}

/// Bytes in hexadecimal: two lower-case digits for each, the high one first.
pub open spec fn hex_text(bytes: Seq<u8>) -> Seq<char> {
    Seq::new(
        2 * bytes.len(),
        |i: int| hex_digit(if i % 2 == 0 { bytes[i / 2] as int / 16 } else { bytes[i / 2] as int % 16 }),
    )
}

/// `hex::encode`. Trusted: it writes two lower-case digits for each byte, the
/// high one first.
#[verifier::external_body]
fn to_hex(bytes: &[u8]) -> (s: String)
    ensures
        s@ == hex_text(bytes@),
{
    hex::encode(bytes)
}

/// The digest and the size of a body that comes piece by piece.
pub struct BodyDigest {
    hasher: Hasher,
    size: u64,
}

impl View for BodyDigest {
    type V = Seq<u8>;

    /// The bytes that have come.
    closed spec fn view(&self) -> Seq<u8> {
        absorbed(self.hasher)
    }
}

impl BodyDigest {
    #[verifier::type_invariant]
    spec fn counts_right(self) -> bool {
        self.size == absorbed(self.hasher).len()
    }

    /// A body of which nothing has come.
    pub fn new() -> (digest: BodyDigest)
        ensures
            digest@ == no_bytes(),
    {
        BodyDigest { hasher: new_hasher(), size: 0 }
    }

    /// Takes in the next piece.
    pub fn update(self, chunk: &[u8]) -> (digest: BodyDigest)
        requires
            self@.len() + chunk@.len() <= u64::MAX,
        ensures
            digest@ == self@ + chunk@,
    {
        proof {
            use_type_invariant(&self);
        }
        let mut hasher = self.hasher;
        let size: u64 = self.size + chunk.len() as u64;
        absorb(&mut hasher, chunk);
        BodyDigest { hasher, size }
    }

    /// The number of bytes that have come.
    pub fn size(&self) -> (n: u64)
        ensures
            n == self@.len(),
    {
        proof {
            use_type_invariant(self);
        }
        self.size
    }

    /// The content address of the body, and its size.
    pub fn finish(self) -> (r: (String, u64))
        ensures
            r.0@ == content_address(self@),
            is_address(r.0@),
            r.1 == self@.len(),
    {
        proof {
            use_type_invariant(&self);
        }
        let digest = finalize(self.hasher);
        proof {
            lemma_hex_text(digest@);
        }
        (to_hex(digest.as_slice()), self.size)
    }
}

/// The content address of a body.
pub open spec fn content_address(body: Seq<u8>) -> Seq<char> {
    hex_text(sha256(body))
}

/// Whether a text has the form of a content address: 64 lower-case
/// hexadecimal digits.
pub open spec fn is_address(s: Seq<char>) -> bool {
    &&& s.len() == 64
    &&& forall|i: int| 0 <= i < 64 ==> is_hex_digit(#[trigger] s[i])
}

/// Whether a character is a lower-case hexadecimal digit.
pub open spec fn is_hex_digit(c: char) -> bool {
    ('0' <= c && c <= '9') || ('a' <= c && c <= 'f')
}

proof fn lemma_hex_text(bytes: Seq<u8>)
    ensures
        hex_text(bytes).len() == 2 * bytes.len(),
        forall|i: int| 0 <= i < 2 * bytes.len() ==> is_hex_digit(#[trigger] hex_text(bytes)[i]),
{
}

/// Computes the content address of a body.
pub fn sha256_hex(data: &[u8]) -> (s: String)
    ensures
        s@ == content_address(data@),
        is_address(s@),
{
    let mut hasher = new_hasher();
    absorb(&mut hasher, data);
    assert(absorbed(hasher) =~= data@);
    let digest = finalize(hasher);
    proof {
        lemma_hex_text(digest@);
    }
    to_hex(digest.as_slice())
}

proof fn lemma_hex_digit_is_injective(x: int, y: int)
    requires
        0 <= x < 16,
        0 <= y < 16,
        hex_digit(x) == hex_digit(y),
    ensures
        x == y,
{
    let (cx, cy) = (hex_digit(x), hex_digit(y));
    assert(cx as int == (if x < 10 { 48 + x } else { 87 + x }));
    assert(cy as int == (if y < 10 { 48 + y } else { 87 + y }));
}

proof fn lemma_hex_text_is_injective(a: Seq<u8>, b: Seq<u8>)
    requires
        hex_text(a) == hex_text(b),
    ensures
        a == b,
{
    assert(2 * a.len() == hex_text(a).len());
    assert(2 * b.len() == hex_text(b).len());
    assert forall|i: int| 0 <= i < a.len() implies a[i] == b[i] by {
        let (high, low) = (2 * i, 2 * i + 1);
        assert(high / 2 == i && low / 2 == i && high % 2 == 0 && low % 2 == 1);
        assert(hex_text(a)[high] == hex_digit(a[i] as int / 16));
        assert(hex_text(b)[high] == hex_digit(b[i] as int / 16));
        assert(hex_text(a)[low] == hex_digit(a[i] as int % 16));
        assert(hex_text(b)[low] == hex_digit(b[i] as int % 16));
        lemma_hex_digit_is_injective(a[i] as int / 16, b[i] as int / 16);
        lemma_hex_digit_is_injective(a[i] as int % 16, b[i] as int % 16);
    }
    assert(a =~= b);
}

/// Two bodies share a content address just where they share a digest.
pub proof fn law_addresses_tell_digests_apart(a: Seq<u8>, b: Seq<u8>)
    ensures
        content_address(a) == content_address(b) <==> sha256(a) == sha256(b),
{
    if content_address(a) == content_address(b) {
        lemma_hex_text_is_injective(sha256(a), sha256(b));
    }
}

}
