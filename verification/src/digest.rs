use crate::hex_text::{
    hex_encode, hex_encoding, is_hex_digit, lemma_hex_encoding_injective, lemma_hex_encoding_shape,
};
use crate::sha::{
    absorbed, sha256, sha256_finish, sha256_start, sha256_update, Sha256State, SHA256_MAX_INPUT,
};
use vstd::prelude::*;

verus! {

/// The number of characters in the text of a content digest.
pub const DIGEST_TEXT_LEN: usize = 64;

/// Whether a text has the form of a content digest: sixty-four lowercase
/// hexadecimal digits.
pub open spec fn is_digest_text(text: Seq<char>) -> bool {
    &&& text.len() == DIGEST_TEXT_LEN
    &&& forall|i: int| 0 <= i < text.len() ==> is_hex_digit(#[trigger] text[i])
}

/// The content identity of a byte string: the lowercase hexadecimal text of
/// its SHA-256 digest.
pub open spec fn digest_of(content: Seq<u8>) -> Seq<char> {
    hex_encoding(sha256(content))
}

/// What a hasher has taken in once it was given the pieces, one after the
/// other, starting from nothing.
pub open spec fn fed(pieces: Seq<Seq<u8>>) -> Seq<u8>
    decreases pieces.len(),
{
    if pieces.len() == 0 {
        Seq::empty()
    } else {
        fed(pieces.drop_last()) + pieces.last()
    }
}

/// Giving a hasher a content piece by piece is giving it the content: what it
/// has taken in is the pieces laid end to end.
pub proof fn lemma_fed_is_whole(pieces: Seq<Seq<u8>>)
    ensures
        fed(pieces) == pieces.flatten(),
    decreases pieces.len(),
{
    if pieces.len() == 0 {
        assert(pieces.flatten() =~= Seq::<u8>::empty());
    } else {
        lemma_fed_is_whole(pieces.drop_last());
        pieces.drop_last().lemma_flatten_push(pieces.last());
        assert(pieces.drop_last().push(pieces.last()) =~= pieces);
    }
}

/// Files with the same bytes have the same digest, however each of them was
/// cut into pieces while it was read.
pub proof fn lemma_same_content_same_digest(a: Seq<Seq<u8>>, b: Seq<Seq<u8>>)
    requires
        a.flatten() == b.flatten(),
    ensures
        digest_of(fed(a)) == digest_of(fed(b)),
{
    lemma_fed_is_whole(a);
    lemma_fed_is_whole(b);
}

/// The text of a digest tells contents apart as well as SHA-256 does: two
/// contents have the same text only if they have the same SHA-256 digest.
pub proof fn lemma_digest_text_is_faithful(a: Seq<u8>, b: Seq<u8>)
    requires
        digest_of(a) == digest_of(b),
    ensures
        sha256(a) == sha256(b),
{
    lemma_hex_encoding_injective(sha256(a), sha256(b));
}

/// The identity of a file's content, held as its printable text.
#[derive(Debug)]
pub struct ContentDigest {
    text: String,
}

impl View for ContentDigest {
    type V = Seq<char>;

    closed spec fn view(&self) -> Seq<char> {
        self.text@
    }
}

impl ContentDigest {
    #[verifier::type_invariant]
    spec fn well_formed(&self) -> bool {
        is_digest_text(self.text@)
    }

    /// The digest's text.
    pub fn as_str(&self) -> (text: &str)
        ensures
            text@ == self@,
            is_digest_text(text@),
    {
        proof {
            use_type_invariant(self);
        }
        self.text.as_str()
    }

    /// Gives up the digest for its text.
    pub fn into_string(self) -> (text: String)
        ensures
            text@ == self@,
            is_digest_text(text@),
    {
        proof {
            use_type_invariant(&self);
        }
        self.text
    }

    /// Whether two digests stand for the same content identity.
    pub fn same_as(&self, other: &ContentDigest) -> (same: bool)
        ensures
            same == (self@ == other@),
    {
        self.text == other.text
    }
}

impl Clone for ContentDigest {
    fn clone(&self) -> (copy: Self)
        ensures
            copy@ == self@,
    {
        proof {
            use_type_invariant(self);
        }
        ContentDigest { text: self.text.clone() }
    }
}

/// A streaming hasher: it takes a file's bytes piece by piece, in bounded
/// memory, and ends in the identity of everything it was given.
pub struct ContentHasher {
    state: Sha256State,
    length: u64,
}

impl ContentHasher {
    /// The hasher's count of bytes agrees with what it has taken in, and the
    /// total is one that SHA-256 can still digest.
    pub closed spec fn wf(&self) -> bool {
        &&& self.length == absorbed(self.state).len()
        &&& self.length <= SHA256_MAX_INPUT
    }

    /// Everything the hasher has been given so far, in order.
    pub closed spec fn consumed(&self) -> Seq<u8> {
        absorbed(self.state)
    }

    /// A well-formed hasher holds no more than SHA-256 can digest.
    pub proof fn lemma_within_limit(&self)
        requires
            self.wf(),
        ensures
            self.consumed().len() <= SHA256_MAX_INPUT,
    {
    }

    /// A hasher that has been given nothing.
    pub fn new() -> (hasher: Self)
        ensures
            hasher.wf(),
            hasher.consumed() == Seq::<u8>::empty(),
    {
        ContentHasher { state: sha256_start(), length: 0 }
    }

    /// The number of bytes given so far.
    pub fn len(&self) -> (count: u64)
        requires
            self.wf(),
        ensures
            count == self.consumed().len(),
            count <= SHA256_MAX_INPUT,
    {
        self.length
    }

    /// Gives the hasher the next piece of the content. A piece that would
    /// carry the total past `SHA256_MAX_INPUT` is not taken, and the hasher
    /// stays as it was.
    pub fn update(&mut self, chunk: &[u8]) -> (taken: bool)
        requires
            old(self).wf(),
        ensures
            final(self).wf(),
            taken == (old(self).consumed().len() + chunk@.len() <= SHA256_MAX_INPUT),
            taken ==> final(self).consumed() == old(self).consumed() + chunk@,
            !taken ==> final(self).consumed() == old(self).consumed(),
    {
        let room: u64 = SHA256_MAX_INPUT - self.length;
        if chunk.len() as u64 > room {
            return false;
        }
        sha256_update(&mut self.state, chunk);
        self.length = self.length + chunk.len() as u64;
        true
    }

    /// Ends the computation in the identity of everything that was given.
    pub fn finalize(self) -> (digest: ContentDigest)
        requires
            self.wf(),
        ensures
            digest@ == digest_of(self.consumed()),
            is_digest_text(digest@),
    {
        let raw: Vec<u8> = sha256_finish(self.state);
        let text: String = hex_encode(&raw);
        proof {
            lemma_hex_encoding_shape(raw@);
        }
        ContentDigest { text }
    }
}

} // verus!
