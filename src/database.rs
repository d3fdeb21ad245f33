use vstd::prelude::*;
use std::collections::HashMap;
use vstd::string::StringSliceAdditionalSpecFns;
use crate::digest::DIGEST_LEN;
use crate::hex::{
    decode_digest, decode_hex, is_hex_digest, lemma_decode_eq_iff_normalized,
    lemma_normalized_digest, normalize,
};

verus! {

broadcast use vstd::std_specs::hash::group_hash_axioms;

/// Bucket of a digest: its first three bytes, read as one number.
pub open spec fn bucket_key(d: Seq<u8>) -> u64 {
    (d[0] * 65536 + d[1] * 256 + d[2]) as u64
}

fn key_of(d: &[u8]) -> (r: u64)
    requires
        d@.len() >= 3,
    ensures
        r == bucket_key(d@),
{
    (d[0] as u64) * 65536 + (d[1] as u64) * 256 + (d[2] as u64)
}

/// Whether two byte slices hold the same bytes.
pub fn same_bytes(a: &[u8], b: &[u8]) -> (r: bool)
    ensures
        r == (a@ == b@),
{
    if a.len() != b.len() {
        return false;
    }
    let mut i: usize = 0;
    while i < a.len()
        invariant
            a@.len() == b@.len(),
            i <= a@.len(),
            forall|j: int| 0 <= j < i ==> a@[j] == b@[j],
        decreases a@.len() - i,
    {
        if a[i] != b[i] {
            return false;
        }
        i = i + 1;
    }
    assert(a@ =~= b@);
    true
}

/// The lines of a text, split at each newline byte. A text of n newlines has
/// n + 1 lines; the last one is empty when the text ends with a newline.
pub open spec fn split_lines(s: Seq<u8>) -> Seq<Seq<u8>>
    decreases s.len(),
{
    if s.len() == 0 {
        seq![Seq::<u8>::empty()]
    } else {
        let p = split_lines(s.drop_last());
        if s.last() == 10 {
            p.push(Seq::<u8>::empty())
        } else {
            p.update(p.len() - 1, p.last().push(s.last()))
        }
    }
}

proof fn lemma_split_lines_len(s: Seq<u8>)
    ensures
        split_lines(s).len() >= 1,
    decreases s.len(),
{
    if s.len() > 0 {
        lemma_split_lines_len(s.drop_last());
    }
}

/// The lines of a prefix, but for its last, are lines of the whole text.
proof fn lemma_split_lines_prefix(s: Seq<u8>, m: int)
    requires
        0 <= m <= s.len(),
    ensures
        split_lines(s.take(m)).len() <= split_lines(s).len(),
        forall|k: int|
            0 <= k < split_lines(s.take(m)).len() - 1 ==> split_lines(s)[k] == split_lines(
                s.take(m),
            )[k],
    decreases s.len(),
{
    if s.len() == m {
        assert(s.take(m) =~= s);
    } else {
        let t = s.drop_last();
        assert(t.take(m) =~= s.take(m));
        lemma_split_lines_prefix(t, m);
        lemma_split_lines_len(t);
    }
}

/// A line without its trailing carriage return, if it has one.
pub open spec fn strip_cr(l: Seq<u8>) -> Seq<u8> {
    if l.len() > 0 && l.last() == 13 {
        l.drop_last()
    } else {
        l
    }
}

pub open spec fn is_blank(l: Seq<u8>) -> bool {
    strip_cr(l).len() == 0
}

/// A line of a signature source is blank or holds one hexadecimal digest.
pub open spec fn line_ok(l: Seq<u8>) -> bool {
    is_blank(l) || is_hex_digest(strip_cr(l))
}

/// The digests that a sequence of well-formed lines lists.
pub open spec fn line_digests(lines: Seq<Seq<u8>>) -> Set<Seq<u8>>
    decreases lines.len(),
{
    if lines.len() == 0 {
        Set::empty()
    } else {
        let rest = line_digests(lines.drop_last());
        if is_blank(lines.last()) {
            rest
        } else {
            rest.insert(decode_hex(strip_cr(lines.last())))
        }
    }
}

proof fn lemma_line_digests_member(lines: Seq<Seq<u8>>, d: Seq<u8>)
    ensures
        line_digests(lines).contains(d) <==> exists|i: int|
            0 <= i < lines.len() && !is_blank(#[trigger] lines[i]) && decode_hex(strip_cr(lines[i]))
                == d,
    decreases lines.len(),
{
    if lines.len() > 0 {
        let rest = lines.drop_last();
        lemma_line_digests_member(rest, d);
        if line_digests(rest).contains(d) {
            let i = choose|i: int|
                0 <= i < rest.len() && !is_blank(#[trigger] rest[i]) && decode_hex(strip_cr(rest[i]))
                    == d;
            assert(lines[i] == rest[i]);
        }
        if exists|i: int|
            0 <= i < lines.len() && !is_blank(#[trigger] lines[i]) && decode_hex(strip_cr(lines[i]))
                == d {
            let i = choose|i: int|
                0 <= i < lines.len() && !is_blank(#[trigger] lines[i]) && decode_hex(strip_cr(lines[i]))
                    == d;
            if i < lines.len() - 1 {
                assert(rest[i] == lines[i]);
            }
        }
    }
}

/// A hash is listed in the digests of a well-formed signature source exactly
/// when, lowercased, it equals some non-blank line of the source, lowercased
/// and without its carriage return. This is what `lookup` answers on a
/// database that `load` built from that source.
pub proof fn lemma_lookup_iff_listed(source: Seq<u8>, h: Seq<u8>)
    requires
        forall|i: int|
            0 <= i < split_lines(source).len() ==> line_ok(#[trigger] split_lines(source)[i]),
    ensures
        (is_hex_digest(h) && line_digests(split_lines(source)).contains(decode_hex(h))) <==> exists|
            i: int,
        |
            0 <= i < split_lines(source).len() && !is_blank(#[trigger] split_lines(source)[i])
                && normalize(strip_cr(split_lines(source)[i])) == normalize(h),
{
    let lines = split_lines(source);
    lemma_line_digests_member(lines, decode_hex(h));
    if is_hex_digest(h) && line_digests(lines).contains(decode_hex(h)) {
        let i = choose|i: int|
            0 <= i < lines.len() && !is_blank(#[trigger] lines[i]) && decode_hex(strip_cr(lines[i]))
                == decode_hex(h);
        assert(line_ok(lines[i]));
        lemma_decode_eq_iff_normalized(strip_cr(lines[i]), h);
    }
    if exists|i: int|
        0 <= i < lines.len() && !is_blank(#[trigger] lines[i]) && normalize(strip_cr(lines[i]))
            == normalize(h) {
        let i = choose|i: int|
            0 <= i < lines.len() && !is_blank(#[trigger] lines[i]) && normalize(strip_cr(lines[i]))
                == normalize(h);
        assert(line_ok(lines[i]));
        lemma_normalized_digest(h, strip_cr(lines[i]));
        lemma_decode_eq_iff_normalized(strip_cr(lines[i]), h);
    }
}

/// `i` is the first line that is neither blank nor a digest.
pub open spec fn first_bad_line(lines: Seq<Seq<u8>>, i: int) -> bool {
    &&& 0 <= i < lines.len()
    &&& !line_ok(lines[i])
    &&& forall|j: int| 0 <= j < i ==> line_ok(lines[j])
}

/// Why a signature source could not be turned into a database.
#[derive(Debug, Clone)]
pub enum LoadError {
    /// The source could not be read; the message says why.
    Unreadable(String),
    /// The line at this (zero-based) index is neither blank nor a digest.
    Malformed { line_index: usize },
}

/// The immutable set of known-malicious SHA-256 digests, kept as raw bytes
/// in buckets keyed by their leading bytes. Its view is the set of digests.
pub struct SignatureDatabase {
    buckets: HashMap<u64, Vec<Vec<u8>>>,
}

impl View for SignatureDatabase {
    type V = Set<Seq<u8>>;

    closed spec fn view(&self) -> Set<Seq<u8>> {
        Set::new(|d: Seq<u8>| d.len() == DIGEST_LEN && self.holds(d))
    }
}

impl SignatureDatabase {
    spec fn holds(&self, d: Seq<u8>) -> bool {
        &&& self.buckets@.contains_key(bucket_key(d))
        &&& exists|i: int|
            0 <= i < self.buckets@[bucket_key(d)]@.len() && (
            #[trigger] self.buckets@[bucket_key(d)]@[i])@ == d
    }

    /// Every stored digest is 32 bytes long and sits in its own bucket.
    pub closed spec fn wf(&self) -> bool {
        forall|k: u64, i: int|
            #![trigger self.buckets@[k]@[i]]
            self.buckets@.contains_key(k) && 0 <= i < self.buckets@[k]@.len() ==> {
                &&& self.buckets@[k]@[i]@.len() == DIGEST_LEN
                &&& bucket_key(self.buckets@[k]@[i]@) == k
            }
    }

    /// A database that holds no digest.
    pub fn empty() -> (r: SignatureDatabase)
        ensures
            r.wf(),
            r@ == Set::<Seq<u8>>::empty(),
    {
        let r = SignatureDatabase { buckets: HashMap::new() };
        assert(r@ =~= Set::<Seq<u8>>::empty());
        r
    }

    /// Adds one digest.
    pub fn insert(&mut self, d: Vec<u8>)
        requires
            old(self).wf(),
            d@.len() == DIGEST_LEN,
        ensures
            final(self).wf(),
            final(self)@ == old(self)@.insert(d@),
    {
        let ghost dv = d@;
        let ghost dvec = d;
        let ghost before = self.buckets@;
        let k = key_of(d.as_slice());
        let mut bucket = match self.buckets.remove(&k) {
            Some(b) => b,
            None => Vec::new(),
        };
        let ghost prior = bucket@;
        assert(before.contains_key(k) ==> prior == before[k]@);
        assert(!before.contains_key(k) ==> prior.len() == 0);
        bucket.push(d);
        self.buckets.insert(k, bucket);
        assert(self.buckets@ == before.insert(k, self.buckets@[k]));
        assert(self.buckets@[k]@ == prior.push(dvec));
        assert forall|x: Seq<u8>| #[trigger] self@.contains(x) == old(self)@.insert(dv).contains(x) by {
            if x.len() == DIGEST_LEN {
                if bucket_key(x) != k {
                    assert(self.buckets@[bucket_key(x)] == before[bucket_key(x)]);
                    assert(self.holds(x) == old(self).holds(x));
                }
                if bucket_key(x) == k {
                    if old(self).holds(x) {
                        let i = choose|i: int|
                            0 <= i < before[k]@.len() && (#[trigger] before[k]@[i])@ == x;
                        assert(self.buckets@[k]@[i] == prior[i]);
                    }
                    if x == dv {
                        assert(self.buckets@[k]@[prior.len() as int]@ == x);
                    }
                    if self.holds(x) && x != dv {
                        let i = choose|i: int|
                            0 <= i < self.buckets@[k]@.len() && (
                            #[trigger] self.buckets@[k]@[i])@ == x;
                        assert(i < prior.len());
                        assert(before[k]@[i]@ == x);
                    }
                }
            }
        }
        assert(self@ =~= old(self)@.insert(dv));
    }

    /// Adds the digest of one source line `src[lo..hi]`; false when the line
    /// is malformed.
    fn add_line(&mut self, src: &[u8], lo: usize, hi: usize) -> (r: bool)
        requires
            old(self).wf(),
            lo <= hi <= src@.len(),
        ensures
            final(self).wf(),
            r == line_ok(src@.subrange(lo as int, hi as int)),
            r && is_blank(src@.subrange(lo as int, hi as int)) ==> final(self)@ == old(self)@,
            r && !is_blank(src@.subrange(lo as int, hi as int)) ==> final(self)@ == old(self)@.insert(
                decode_hex(strip_cr(src@.subrange(lo as int, hi as int))),
            ),
    {
        let ghost l = src@.subrange(lo as int, hi as int);
        let mut end = hi;
        if end > lo && src[end - 1] == 13 {
            end = end - 1;
        }
        assert(strip_cr(l) =~= src@.subrange(lo as int, end as int));
        if end == lo {
            return true;
        }
        match decode_digest(src, lo, end) {
            Some(d) => {
                self.insert(d);
                true
            },
            None => false,
        }
    }

    /// Builds the database from a signature source: one hexadecimal SHA-256
    /// digest per line, in either case, blank lines ignored. Fails on the first
    /// line that is neither blank nor a digest.
    pub fn load(source: &str) -> (r: Result<SignatureDatabase, LoadError>)
        ensures
            match r {
                Ok(db) => {
                    &&& db.wf()
                    &&& forall|i: int|
                        0 <= i < split_lines(source.spec_bytes()).len() ==> line_ok(
                            #[trigger] split_lines(source.spec_bytes())[i],
                        )
                    &&& db@ == line_digests(split_lines(source.spec_bytes()))
                },
                Err(LoadError::Malformed { line_index }) => first_bad_line(
                    split_lines(source.spec_bytes()),
                    line_index as int,
                ),
                Err(LoadError::Unreadable(_)) => false,
            },
    {
        let src = source.as_bytes();
        let mut db = SignatureDatabase::empty();
        let mut start: usize = 0;
        let mut line_no: usize = 0;
        let mut i: usize = 0;
        let ghost mut done: Seq<Seq<u8>> = Seq::empty();
        assert(src@.take(0) =~= Seq::<u8>::empty());
        assert(src@.subrange(0, 0) =~= Seq::<u8>::empty());
        assert(done.push(Seq::<u8>::empty()) =~= seq![Seq::<u8>::empty()]);
        while i < src.len()
            invariant
                src@ == source.spec_bytes(),
                start <= i <= src@.len(),
                line_no == done.len(),
                line_no <= i,
                split_lines(src@.take(i as int)) == done.push(src@.subrange(start as int, i as int)),
                forall|j: int| 0 <= j < done.len() ==> line_ok(#[trigger] done[j]),
                db.wf(),
                db@ == line_digests(done),
            decreases src@.len() - i,
        {
            let ghost cur = src@.subrange(start as int, i as int);
            assert(src@.take(i + 1).drop_last() =~= src@.take(i as int));
            assert(src@.take(i + 1).last() == src@[i as int]);
            if src[i] == 10 {
                if !db.add_line(src, start, i) {
                    proof {
                        lemma_split_lines_prefix(src@, i + 1);
                        let p = done.push(cur).push(Seq::<u8>::empty());
                        assert(split_lines(src@.take(i + 1)) == p);
                        assert(p[done.len() as int] == cur);
                        assert forall|j: int| 0 <= j < done.len() implies line_ok(
                            split_lines(src@)[j],
                        ) by {
                            assert(p[j] == done[j]);
                        }
                    }
                    return Err(LoadError::Malformed { line_index: line_no });
                }
                proof {
                    assert(done.push(cur).drop_last() =~= done);
                    done = done.push(cur);
                    assert(src@.subrange(i + 1, i + 1) =~= Seq::<u8>::empty());
                }
                start = i + 1;
                line_no = line_no + 1;
            } else {
                assert(src@.subrange(start as int, i + 1) =~= cur.push(src@[i as int]));
                assert(done.push(cur).update(done.len() as int, cur.push(src@[i as int])) =~= done.push(
                    cur.push(src@[i as int]),
                ));
            }
            i = i + 1;
        }
        let ghost last = src@.subrange(start as int, i as int);
        assert(src@.take(i as int) =~= src@);
        if !db.add_line(src, start, i) {
            assert(done.push(last)[done.len() as int] == last);
            return Err(LoadError::Malformed { line_index: line_no });
        }
        proof {
            assert(done.push(last).drop_last() =~= done);
            let all = done.push(last);
            assert forall|j: int| 0 <= j < all.len() implies line_ok(#[trigger] all[j]) by {
                if j < done.len() {
                    assert(all[j] == done[j]);
                }
            }
        }
        Ok(db)
    }

    /// Whether the database lists the digest that `hash` spells in hexadecimal,
    /// in either case. Anything but 64 hexadecimal digits is never listed.
    pub fn lookup(&self, hash: &str) -> (r: bool)
        requires
            self.wf(),
        ensures
            r == (is_hex_digest(hash.spec_bytes()) && self@.contains(decode_hex(hash.spec_bytes()))),
    {
        let b = hash.as_bytes();
        assert(b@.subrange(0, b@.len() as int) =~= b@);
        match decode_digest(b, 0, b.len()) {
            Some(d) => self.contains_digest(d.as_slice()),
            None => false,
        }
    }

    /// Whether the database holds exactly these digest bytes.
    pub fn contains_digest(&self, d: &[u8]) -> (r: bool)
        requires
            self.wf(),
        ensures
            r == self@.contains(d@),
    {
        if d.len() != DIGEST_LEN {
            return false;
        }
        let k = key_of(d);
        match self.buckets.get(&k) {
            None => false,
            Some(bucket) => {
                let mut i: usize = 0;
                while i < bucket.len()
                    invariant
                        self.buckets@.contains_key(k),
                        *bucket == self.buckets@[k],
                        k == bucket_key(d@),
                        d@.len() == DIGEST_LEN,
                        i <= bucket@.len(),
                        forall|j: int| 0 <= j < i ==> (#[trigger] bucket@[j])@ != d@,
                    decreases bucket@.len() - i,
                {
                    if same_bytes(bucket[i].as_slice(), d) {
                        assert(self.holds(d@));
                        return true;
                    }
                    i = i + 1;
                }
                false
            },
        }
    }
}

} // verus!
