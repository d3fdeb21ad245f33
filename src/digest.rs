use vstd::prelude::*;

verus! {

/// A running SHA-256 computation of the `sha2` crate. Verus cannot declare
/// the crate's hasher type (an alias over typenum-parameterised wrappers), so it
/// is held here, opaque, and reached only through the functions below.
#[verifier::external_body]
pub struct Sha256State {
    inner: sha2::Sha256,
}

/// The bytes that a SHA-256 hasher has absorbed since it was created.
pub uninterp spec fn absorbed(h: Sha256State) -> Seq<u8>;

/// The SHA-256 digest of a byte sequence.
pub uninterp spec fn sha256_of(data: Seq<u8>) -> Seq<u8>;

/// Relies on `sha2::Digest::new`: a fresh hasher has absorbed nothing.
#[verifier::external_body]
fn sha256_new() -> (r: Sha256State)
    ensures
        absorbed(r) == Seq::<u8>::empty(),
{
    Sha256State { inner: <sha2::Sha256 as sha2::Digest>::new() }
}

/// Relies on `sha2::Digest::update`: the data is appended to what was absorbed.
#[verifier::external_body]
fn sha256_update(h: &mut Sha256State, data: &[u8])
    ensures
        absorbed(*final(h)) == absorbed(*old(h)) + data@,
{
    sha2::Digest::update(&mut h.inner, data)
}

/// Relies on `sha2::Digest::finalize`: the 32-byte SHA-256 digest of all absorbed bytes.
#[verifier::external_body]
fn sha256_finalize(h: Sha256State) -> (r: Vec<u8>)
    ensures
        r@ == sha256_of(absorbed(h)),
        r@.len() == 32,
{
    sha2::Digest::finalize(h.inner).to_vec()
}

/// Length in bytes of a SHA-256 digest.
pub const DIGEST_LEN: usize = 32;

/// Streams content into a SHA-256 computation, one chunk at a time, so that
/// memory stays bounded whatever the size of the content. Its view is the
/// byte sequence fed so far.
pub struct ContentHasher {
    state: Sha256State,
}

impl View for ContentHasher {
    type V = Seq<u8>;

    closed spec fn view(&self) -> Seq<u8> {
        absorbed(self.state)
    }
}

impl ContentHasher {
    /// A hasher that has been fed nothing.
    pub fn new() -> (r: ContentHasher)
        ensures
            r@ == Seq::<u8>::empty(),
    {
        ContentHasher { state: sha256_new() }
    }

    /// Feeds one chunk; the view grows by exactly that chunk.
    pub fn update(&mut self, chunk: &[u8])
        ensures
            final(self)@ == old(self)@ + chunk@,
    {
        sha256_update(&mut self.state, chunk);
    }

    /// The digest of everything fed so far.
    pub fn finish(self) -> (r: Vec<u8>)
        ensures
            r@ == sha256_of(self@),
            r@.len() == DIGEST_LEN,
    {
        sha256_finalize(self.state)
    }
}

/// The SHA-256 digest of a whole byte slice.
pub fn digest_of(data: &[u8]) -> (r: Vec<u8>)
    ensures
        r@ == sha256_of(data@),
        r@.len() == DIGEST_LEN,
{
    let mut h = ContentHasher::new();
    h.update(data);
    proof {
        assert(Seq::<u8>::empty() + data@ =~= data@);
    }
    h.finish()
}

} // verus!
