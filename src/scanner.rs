use vstd::prelude::*;
use crate::database::SignatureDatabase;
use crate::digest::{sha256_of, ContentHasher};

verus! {

/// The verdict on one file, tagged with its path.
#[derive(Debug, Clone, PartialEq, Eq)]
pub enum ScanResult {
    Clean(String),
    Infected(String),
    /// The file could not be opened or read; the message says why.
    Error(String, String),
}

impl ScanResult {
    /// The path that the verdict is about.
    pub fn path(&self) -> (r: &String)
        ensures
            r == self.spec_path(),
    {
        match self {
            ScanResult::Clean(p) => p,
            ScanResult::Infected(p) => p,
            ScanResult::Error(p, _) => p,
        }
    }

    pub open spec fn spec_path(&self) -> String {
        match self {
            ScanResult::Clean(p) => *p,
            ScanResult::Infected(p) => *p,
            ScanResult::Error(p, _) => *p,
        }
    }
}

/// What one scan yields: `Err` holds the message of a failed open or read,
/// `Ok` the full content of a file that was read to its end.
pub open spec fn scan_spec(db: Set<Seq<u8>>, path: String, file: Result<Seq<u8>, String>) -> ScanResult {
    match file {
        Ok(content) => if db.contains(sha256_of(content)) {
            ScanResult::Infected(path)
        } else {
            ScanResult::Clean(path)
        },
        Err(message) => ScanResult::Error(path, message),
    }
}

/// A file scan in progress: the content read so far is hashed chunk by
/// chunk, so memory stays bounded. The caller reads the file and reports each
/// chunk, then the end of the file or the failure that stopped it.
pub struct FileScan {
    path: String,
    hasher: ContentHasher,
}

impl FileScan {
    pub closed spec fn spec_path(&self) -> String {
        self.path
    }

    /// The content fed so far.
    pub closed spec fn content(&self) -> Seq<u8> {
        self.hasher@
    }

    /// Starts the scan of the file at `path`, once it has been opened.
    pub fn open(path: String) -> (r: FileScan)
        ensures
            r.spec_path() == path,
            r.content() == Seq::<u8>::empty(),
    {
        FileScan { path, hasher: ContentHasher::new() }
    }

    /// The path of the file being scanned.
    pub fn path(&self) -> (r: &String)
        ensures
            *r == self.spec_path(),
    {
        &self.path
    }

    /// Reports the next chunk read from the file.
    pub fn feed(&mut self, chunk: &[u8])
        ensures
            final(self).spec_path() == old(self).spec_path(),
            final(self).content() == old(self).content() + chunk@,
    {
        self.hasher.update(chunk);
    }

    /// Reports the end of the file: the whole content has been fed.
    pub fn finish(self, db: &SignatureDatabase) -> (r: ScanResult)
        requires
            db.wf(),
        ensures
            r == scan_spec(db@, self.spec_path(), Ok(self.content())),
    {
        let digest = self.hasher.finish();
        classify(db, self.path, digest.as_slice())
    }

    /// Reports a failed read: the partial digest is dropped and the file's
    /// verdict is an error with this message.
    pub fn fail(self, message: String) -> (r: ScanResult)
        ensures
            r == ScanResult::Error(self.spec_path(), message),
    {
        ScanResult::Error(self.path, message)
    }
}

/// The verdict for a file whose content has this digest.
pub fn classify(db: &SignatureDatabase, path: String, digest: &[u8]) -> (r: ScanResult)
    requires
        db.wf(),
    ensures
        r == (if db@.contains(digest@) {
            ScanResult::Infected(path)
        } else {
            ScanResult::Clean(path)
        }),
{
    if db.contains_digest(digest) {
        ScanResult::Infected(path)
    } else {
        ScanResult::Clean(path)
    }
}

/// The verdict on a file that could not be opened.
pub fn open_failed(path: String, message: String) -> (r: ScanResult)
    ensures
        r == ScanResult::Error(path, message),
{
    ScanResult::Error(path, message)
}

/// Scans content that is already in memory.
pub fn scan_content(db: &SignatureDatabase, path: String, content: &[u8]) -> (r: ScanResult)
    requires
        db.wf(),
    ensures
        r == scan_spec(db@, path, Ok(content@)),
{
    let mut scan = FileScan::open(path);
    scan.feed(content);
    proof {
        assert(Seq::<u8>::empty() + content@ =~= content@);
    }
    scan.finish(db)
}

/// A file is reported infected exactly when it was read whole and its digest
/// is in the database; clean when it was read whole and its digest is not;
/// an error exactly when it could not be read.
pub proof fn lemma_scan_classification(db: Set<Seq<u8>>, path: String, file: Result<Seq<u8>, String>)
    ensures
        scan_spec(db, path, file) is Infected <==> (file is Ok && db.contains(
            sha256_of(file->Ok_0),
        )),
        scan_spec(db, path, file) is Clean <==> (file is Ok && !db.contains(
            sha256_of(file->Ok_0),
        )),
        scan_spec(db, path, file) is Error <==> file is Err,
        scan_spec(db, path, file).spec_path() == path,
{
}

/// Two scans of one file whose content stayed the same agree: a verdict is a
/// function of the database, the path and the content alone.
pub proof fn lemma_scan_idempotent(
    db: Set<Seq<u8>>,
    path: String,
    first: Result<Seq<u8>, String>,
    second: Result<Seq<u8>, String>,
)
    requires
        first == second,
    ensures
        scan_spec(db, path, first) == scan_spec(db, path, second),
{
}

} // verus!
