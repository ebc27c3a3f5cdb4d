//! The SHA-1 fingerprint of a collected file, taken while the file is read
//! through a fixed buffer.
//!
//! Each read fills the front of the buffer, and the whole buffer is then
//! hashed, including what an earlier, longer read left behind it. The
//! fingerprint therefore depends on the sizes of the reads as well as on
//! the bytes of the file.

use vstd::prelude::*;

verus! {

/// A SHA-1 hasher (`sha1::Sha1`, an alias of the generic `CoreWrapper` of
/// the `digest` crate), kept in a private field whose contents are known
/// only through the bytes it has absorbed.
#[verifier::external_body]
pub struct Sha1Hasher {
    inner: sha1::Sha1,
}

/// The bytes that a SHA-1 hasher has absorbed.
pub uninterp spec fn sha1_input(h: Sha1Hasher) -> Seq<u8>;

/// The SHA-1 digest of `data`.
pub uninterp spec fn sha1_of(data: Seq<u8>) -> Seq<u8>;

/// Wraps `<Sha1 as Digest>::new`: a hasher that has absorbed nothing.
#[verifier::external_body]
fn sha1_new() -> (h: Sha1Hasher)
    ensures
        sha1_input(h) == Seq::<u8>::empty(),
{
    Sha1Hasher { inner: <sha1::Sha1 as sha1::Digest>::new() }
}

/// Wraps `<Sha1 as Digest>::update`: the hasher absorbs `data` after what
/// it absorbed before.
#[verifier::external_body]
fn sha1_update(h: &mut Sha1Hasher, data: &[u8])
    ensures
        sha1_input(*final(h)) == sha1_input(*old(h)) + data@,
{
    sha1::Digest::update(&mut h.inner, data)
}

/// Wraps `<Sha1 as Digest>::finalize`: the 20-byte digest of all the
/// bytes the hasher absorbed.
#[verifier::external_body]
fn sha1_finalize(h: Sha1Hasher) -> (r: Vec<u8>)
    ensures
        r@ == sha1_of(sha1_input(h)),
        r@.len() == 20,
{
    sha1::Digest::finalize(h.inner).to_vec()
}

/// The lowercase hexadecimal digit of `v` (below 16).
pub open spec fn hex_digit(v: u8) -> char {
    if v < 10 {
        (('0' as u8) + v) as char
    } else {
        (('a' as u8) + (v - 10)) as char
    }
}

/// `data` in lowercase hexadecimal, two digits per byte, high digit first.
pub open spec fn hex_lower(data: Seq<u8>) -> Seq<char>
    decreases data.len(),
{
    if data.len() == 0 {
        seq![]
    } else {
        hex_lower(data.drop_last()) + seq![hex_digit(data.last() / 16), hex_digit(data.last() % 16)]
    }
}

/// Wraps `hex::encode`, which writes each byte as two lowercase
/// hexadecimal digits, high digit first (table `0123456789abcdef`).
#[verifier::external_body]
pub(crate) fn hex_encode(data: &[u8]) -> (r: String)
    ensures
        r@ == hex_lower(data@),
{
    hex::encode(data)
}

/// The size of the read buffer.
pub const READ_BUFFER_SIZE: usize = 4092;

/// The fingerprint being taken: the hasher and the read buffer.
pub struct FileDigest {
    hasher: Sha1Hasher,
    contents: Vec<u8>,
}

impl View for FileDigest {
    /// The bytes hashed so far, and the buffer.
    type V = (Seq<u8>, Seq<u8>);

    closed spec fn view(&self) -> (Seq<u8>, Seq<u8>) {
        (sha1_input(self.hasher), self.contents@)
    }
}

/// The buffer after a read of `chunk`: the chunk in front, then what the
/// buffer held after it.
pub open spec fn after_read(buffer: Seq<u8>, chunk: Seq<u8>) -> Seq<u8> {
    chunk + buffer.skip(chunk.len() as int)
}

impl FileDigest {
    #[verifier::type_invariant]
    closed spec fn buffer_size(self) -> bool {
        self.contents@.len() == READ_BUFFER_SIZE
    }

    /// Nothing hashed yet, and a buffer of zeros.
    pub fn new() -> (r: Self)
        ensures
            r@.0 == Seq::<u8>::empty(),
            r@.1 == Seq::new(READ_BUFFER_SIZE as nat, |_i: int| 0u8),
    {
        let mut contents: Vec<u8> = Vec::new();
        let mut i: usize = 0;
        while i < READ_BUFFER_SIZE
            invariant
                i <= READ_BUFFER_SIZE,
                contents@ == Seq::new(i as nat, |_i: int| 0u8),
            decreases READ_BUFFER_SIZE - i,
        {
            contents.push(0u8);
            i = i + 1;
            assert(contents@ =~= Seq::new(i as nat, |_i: int| 0u8));
        }
        FileDigest { hasher: sha1_new(), contents }
    }

    /// One read of `chunk` (at most a buffer full): it fills the front of
    /// the buffer, and the whole buffer is hashed.
    pub fn absorb(&mut self, chunk: &[u8])
        requires
            chunk@.len() <= READ_BUFFER_SIZE,
        ensures
            final(self)@.1 == after_read(old(self)@.1, chunk@),
            final(self)@.0 == old(self)@.0 + final(self)@.1,
    {
        proof {
            use_type_invariant(&*self);
        }
        let mut next: Vec<u8> = Vec::new();
        let n = chunk.len();
        let mut i: usize = 0;
        while i < READ_BUFFER_SIZE
            invariant
                i <= READ_BUFFER_SIZE,
                n == chunk@.len(),
                n <= READ_BUFFER_SIZE,
                self.contents@.len() == READ_BUFFER_SIZE,
                next@ == after_read(self.contents@, chunk@).take(i as int),
            decreases READ_BUFFER_SIZE - i,
        {
            if i < n {
                next.push(chunk[i]);
            } else {
                next.push(self.contents[i]);
            }
            i = i + 1;
            assert(next@ =~= after_read(self.contents@, chunk@).take(i as int));
        }
        assert(next@ =~= after_read(self.contents@, chunk@));
        let mut hasher = sha1_new();
        std::mem::swap(&mut hasher, &mut self.hasher);
        sha1_update(&mut hasher, next.as_slice());
        self.hasher = hasher;
        self.contents = next;
    }

    /// The fingerprint: the digest of everything hashed, in lowercase
    /// hexadecimal.
    pub fn finish(self) -> (r: String)
        ensures
            r@ == hex_lower(sha1_of(self@.0)),
            r@.len() == 40,
    {
        let digest = sha1_finalize(self.hasher);
        proof {
            law_hex_length(digest@);
        }
        hex_encode(digest.as_slice())
    }
}

/// Law: every read hashes a whole buffer, so a fingerprint always covers a
/// multiple of the buffer size.
pub proof fn law_hashed_whole_buffers(before: Seq<u8>, buffer: Seq<u8>, chunk: Seq<u8>)
    requires
        buffer.len() == READ_BUFFER_SIZE,
        chunk.len() <= READ_BUFFER_SIZE,
        (before.len() as int) % (READ_BUFFER_SIZE as int) == 0,
    ensures
        after_read(buffer, chunk).len() == READ_BUFFER_SIZE,
        ((before + after_read(buffer, chunk)).len() as int) % (READ_BUFFER_SIZE as int) == 0,
{
    assert((before.len() + READ_BUFFER_SIZE as int) % (READ_BUFFER_SIZE as int) == 0) by (nonlinear_arith)
        requires
            (before.len() as int) % (READ_BUFFER_SIZE as int) == 0,
    {}
}

/// Law: the hexadecimal form has two digits per byte.
pub proof fn law_hex_length(data: Seq<u8>)
    ensures
        hex_lower(data).len() == 2 * data.len(),
    decreases data.len(),
{
    if data.len() > 0 {
        law_hex_length(data.drop_last());
    }
}

} // verus!
