//! SHA-256 content hashes of organised files, as lower-case hexadecimal text.
//!
//! The digest itself is computed by the `sha2` crate; the bytes fed to it and
//! the text made of its result are decided here.

use vstd::prelude::*;
use crate::text::push_char;

verus! {

/// A `sha2::Sha256` hasher. That type is an alias of a generic wrapper whose
/// declaration Verus refuses ("expected generics to match"), so it is held
/// here, out of Verus's sight; `sha256_fed` names what it has been fed.
#[verifier::external_body]
pub struct Sha256State {
    inner: sha2::Sha256,
}

/// The SHA-256 digest of the bytes (FIPS 180-4), as `sha2::Sha256` computes it.
pub uninterp spec fn sha256_digest(data: Seq<u8>) -> Seq<u8>;

/// The bytes fed so far to a hasher.
pub uninterp spec fn sha256_fed(hasher: Sha256State) -> Seq<u8>;

/// `Sha256::new`: a hasher that has been fed nothing.
#[verifier::external_body]
fn sha256_start() -> (r: Sha256State)
    ensures
        sha256_fed(r) == Seq::<u8>::empty(),
{
    Sha256State { inner: <sha2::Sha256 as sha2::Digest>::new() }
}

/// `Digest::update`: the hasher has been fed the chunk after what it had.
#[verifier::external_body]
fn sha256_feed(hasher: &mut Sha256State, chunk: &[u8])
    ensures
        sha256_fed(*final(hasher)) == sha256_fed(*old(hasher)) + chunk@,
{
    sha2::Digest::update(&mut hasher.inner, chunk)
}

/// `Digest::finalize`: the 32 bytes of the digest of everything fed.
#[verifier::external_body]
fn sha256_finish(hasher: Sha256State) -> (r: Vec<u8>)
    ensures
        r@ == sha256_digest(sha256_fed(hasher)),
        r@.len() == 32,
{
    sha2::Digest::finalize(hasher.inner).to_vec()
}

/// The lower-case hexadecimal digit of a value below 16.
pub open spec fn hex_digit(v: int) -> char {
    if v < 10 {
        ((48 + v) as u8) as char
    } else {
        ((87 + v) as u8) as char
    }
}

/// Bytes as lower-case hexadecimal text, two digits per byte.
pub open spec fn hex_text(bytes: Seq<u8>) -> Seq<char>
    decreases bytes.len(),
{
    if bytes.len() == 0 {
        Seq::empty()
    } else {
        hex_text(bytes.drop_last()) + seq![hex_digit((bytes.last() / 16) as int), hex_digit((bytes.last() % 16) as int)]
    }
}

fn hex_char(v: u8) -> (r: char)
    requires
        v < 16,
    ensures
        r == hex_digit(v as int),
{
    if v < 10 {
        (48 + v) as char
    } else {
        (87 + v) as char
    }
}

/// Bytes as lower-case hexadecimal text.
pub fn lower_hex(bytes: &[u8]) -> (r: String)
    ensures
        r@ == hex_text(bytes@),
{
    let mut out = String::new();
    let mut i: usize = 0;
    while i < bytes.len()
        invariant
            i <= bytes@.len(),
            out@ == hex_text(bytes@.subrange(0, i as int)),
        decreases bytes@.len() - i,
    {
        let b = bytes[i];
        assert(bytes@.subrange(0, i + 1).drop_last() =~= bytes@.subrange(0, i as int));
        push_char(&mut out, hex_char(b / 16));
        push_char(&mut out, hex_char(b % 16));
        i = i + 1;
    }
    assert(bytes@.subrange(0, bytes@.len() as int) =~= bytes@);
    out
}

/// A content hash being computed over a file read in chunks.
pub struct ContentHasher {
    state: Sha256State,
}

impl ContentHasher {
    /// The bytes fed so far.
    pub closed spec fn fed(&self) -> Seq<u8> {
        sha256_fed(self.state)
    }

    /// A hasher fed nothing yet.
    pub fn new() -> (r: ContentHasher)
        ensures
            r.fed() == Seq::<u8>::empty(),
    {
        ContentHasher { state: sha256_start() }
    }

    /// Feeds the next chunk of the content.
    pub fn feed(&mut self, chunk: &[u8])
        ensures
            final(self).fed() == old(self).fed() + chunk@,
    {
        sha256_feed(&mut self.state, chunk)
    }

    /// The content's SHA-256 digest as lower-case hexadecimal text.
    pub fn finish_hex(self) -> (r: String)
        ensures
            r@ == hex_text(sha256_digest(self.fed())),
            r@.len() == 64,
    {
        let digest = sha256_finish(self.state);
        proof {
            lemma_hex_len(digest@);
        }
        lower_hex(digest.as_slice())
    }
}

proof fn lemma_hex_len(bytes: Seq<u8>)
    ensures
        hex_text(bytes).len() == 2 * bytes.len(),
    decreases bytes.len(),
{
    if bytes.len() > 0 {
        lemma_hex_len(bytes.drop_last());
    }
}

/// The SHA-256 digest of the bytes as lower-case hexadecimal text.
pub fn sha256_hex(data: &[u8]) -> (r: String)
    ensures
        r@ == hex_text(sha256_digest(data@)),
{
    let mut hasher = ContentHasher::new();
    hasher.feed(data);
    assert(hasher.fed() =~= data@);
    hasher.finish_hex()
}

} // verus!
