use crate::error::Error;
use memmem::{Searcher, TwoWaySearcher};
use vstd::prelude::*;
use vstd::slice::slice_to_vec;

verus! {

/// The most bytes a request head may take before its blank line.
pub const MAX_HEAD_LENGTH: usize = 8192;

/// The blank line that ends a head: CR LF CR LF.
pub open spec fn boundary() -> Seq<u8> {
    seq![13u8, 10u8, 13u8, 10u8]
}

/// `needle` occurs in `hay` starting at `i`.
pub open spec fn occurs(hay: Seq<u8>, needle: Seq<u8>, i: int) -> bool {
    0 <= i && i + needle.len() <= hay.len() && hay.subrange(i, i + needle.len()) == needle
}

/// `i` is where `needle` first occurs in `hay`.
pub open spec fn first_occurrence(hay: Seq<u8>, needle: Seq<u8>, i: int) -> bool {
    occurs(hay, needle, i) && forall|j: int| 0 <= j < i ==> !occurs(hay, needle, j)
}

/// Where the head ends in `s`: just past the first blank line, if there is one.
pub open spec fn head_end(s: Seq<u8>) -> Option<int> {
    if exists|i: int| occurs(s, boundary(), i) {
        Some((choose|i: int| first_occurrence(s, boundary(), i)) + 4)
    } else {
        None
    }
}

/// Relies on `memmem::TwoWaySearcher::search_in`: the index of the first
/// occurrence of a non-empty needle, or `None` when it does not occur.
#[verifier::external_body]
fn search(hay: &[u8], needle: &[u8]) -> (r: Option<usize>)
    requires
        needle@.len() > 0,
    ensures
        r matches Some(i) ==> first_occurrence(hay@, needle@, i as int),
        r is None ==> forall|j: int| !occurs(hay@, needle@, j),
{
    TwoWaySearcher::new(needle).search_in(hay)
}

proof fn lemma_first_unique(s: Seq<u8>, n: Seq<u8>, i: int, j: int)
    requires
        first_occurrence(s, n, i),
        first_occurrence(s, n, j),
    ensures
        i == j,
{
}

proof fn lemma_first_exists(s: Seq<u8>, n: Seq<u8>, i: int)
    requires
        occurs(s, n, i),
    ensures
        exists|j: int| first_occurrence(s, n, j),
    decreases i,
{
    if exists|j: int| 0 <= j < i && occurs(s, n, j) {
        let j = choose|j: int| 0 <= j < i && occurs(s, n, j);
        lemma_first_exists(s, n, j);
    } else {
        assert(first_occurrence(s, n, i));
    }
}

/// Where a head end is found, it lies just past the first blank line.
pub proof fn lemma_head_end_first(s: Seq<u8>)
    requires
        head_end(s) is Some,
    ensures
        first_occurrence(s, boundary(), head_end(s)->0 - 4),
        4 <= head_end(s)->0 <= s.len(),
{
    let i = choose|i: int| occurs(s, boundary(), i);
    lemma_first_exists(s, boundary(), i);
}

proof fn lemma_head_end_at(s: Seq<u8>, i: int)
    requires
        first_occurrence(s, boundary(), i),
    ensures
        head_end(s) == Some(i + 4),
{
    lemma_first_exists(s, boundary(), i);
    let c = choose|c: int| first_occurrence(s, boundary(), c);
    lemma_first_unique(s, boundary(), i, c);
}

/// Finds the end of the head in `s`: just past its first blank line.
pub fn find_head_end(s: &[u8]) -> (r: Option<usize>)
    ensures
        r matches Some(e) ==> head_end(s@) == Some(e as int) && e <= s@.len(),
        r is None ==> head_end(s@) is None,
{
    let n = s.len();
    let needle: [u8; 4] = [13u8, 10u8, 13u8, 10u8];
    assert(needle@ =~= boundary());
    match search(s, needle.as_slice()) {
        Some(i) => {
            proof {
                lemma_head_end_at(s@, i as int);
            }
            Some(i + 4)
        },
        None => None,
    }
}

/// Bytes of a head that is still being read.
#[derive(Debug)]
pub struct HeadScanner {
    buf: Vec<u8>,
}

/// What a scanner step gives: more bytes are needed, or the head is complete.
#[derive(Debug)]
pub enum Scan {
    /// No blank line yet: read more and hand the bytes to the scanner.
    Pending(HeadScanner),
    /// The head, through its blank line, and the bytes read past it.
    Complete { head: Vec<u8>, rest: Vec<u8> },
}

/// The outcome of scanning the bytes `all` gathered so far.
pub open spec fn scanned(all: Seq<u8>, r: Result<Scan, Error>) -> bool {
    match head_end(all) {
        Some(e) => r matches Ok(Scan::Complete { head, rest }) && head@ == all.subrange(0, e)
            && rest@ == all.subrange(e, all.len() as int),
        None => if all.len() >= MAX_HEAD_LENGTH {
            r == Err::<Scan, Error>(Error::HeadersTooLong)
        } else {
            r matches Ok(Scan::Pending(sc)) && sc@ == all
        },
    }
}

impl View for HeadScanner {
    type V = Seq<u8>;

    closed spec fn view(&self) -> Seq<u8> {
        self.buf@
    }
}

impl HeadScanner {
    /// A pending scanner holds less than the limit and no blank line.
    pub open spec fn wf(&self) -> bool {
        self@.len() < MAX_HEAD_LENGTH && head_end(self@) is None
    }

    /// Starts a head from the bytes carried over from the previous request,
    /// which may already hold all of it.
    pub fn start(carry: Option<Vec<u8>>) -> (r: Result<Scan, Error>)
        ensures
            scanned(
                match carry {
                    Some(c) => c@,
                    None => Seq::empty(),
                },
                r,
            ),
            r matches Ok(Scan::Pending(sc)) ==> sc.wf(),
    {
        let buf = match carry {
            Some(c) => c,
            None => Vec::new(),
        };
        Self::scan(buf)
    }

    fn scan(buf: Vec<u8>) -> (r: Result<Scan, Error>)
        ensures
            scanned(buf@, r),
            r matches Ok(Scan::Pending(sc)) ==> sc.wf(),
    {
        match find_head_end(buf.as_slice()) {
            Some(e) => {
                let mut head = buf;
                let rest = head.split_off(e);
                Ok(Scan::Complete { head, rest })
            },
            None => {
                if buf.len() >= MAX_HEAD_LENGTH {
                    Err(Error::HeadersTooLong)
                } else {
                    Ok(Scan::Pending(HeadScanner { buf }))
                }
            },
        }
    }

    /// Takes the bytes of one read. An empty read means that the peer closed
    /// the stream: before any byte of the head that is a clean close, after
    /// some it is a partial head.
    pub fn receive(self, bytes: &[u8]) -> (r: Result<Scan, Error>)
        ensures
            bytes@.len() == 0 && self@.len() == 0 ==> r == Err::<Scan, Error>(Error::ClosedByClient),
            bytes@.len() == 0 && self@.len() > 0 ==> r == Err::<Scan, Error>(Error::PartialHead),
            bytes@.len() > 0 ==> scanned(self@ + bytes@, r),
            r matches Ok(Scan::Pending(sc)) ==> sc.wf(),
    {
        if bytes.len() == 0 {
            if self.buf.len() == 0 {
                return Err(Error::ClosedByClient);
            } else {
                return Err(Error::PartialHead);
            }
        }
        let mut buf = self.buf;
        let mut more = slice_to_vec(bytes);
        buf.append(&mut more);
        Self::scan(buf)
    }

    /// The bytes gathered so far.
    pub fn buffered(&self) -> (r: usize)
        ensures
            r == self@.len(),
    {
        self.buf.len()
    }
}

/// A head block (ending at its first blank line) followed by any bytes at all
/// is split right after that blank line: the head comes back whole and the
/// bytes after it come back unchanged.
pub proof fn lemma_head_split_keeps_rest(head: Seq<u8>, extra: Seq<u8>)
    requires
        head_end(head) == Some(head.len() as int),
    ensures
        head_end(head + extra) == Some(head.len() as int),
        (head + extra).subrange(0, head.len() as int) == head,
        (head + extra).subrange(head.len() as int, (head + extra).len() as int) == extra,
{
    let s = head + extra;
    lemma_head_end_first(head);
    let i = head.len() - 4;
    assert forall|j: int| 0 <= j < i implies !occurs(s, boundary(), j) by {
        assert(j + 4 <= head.len());
        assert(!occurs(head, boundary(), j));
        assert(s.subrange(j, j + 4) =~= head.subrange(j, j + 4));
    }
    assert(s.subrange(i, i + 4) =~= head.subrange(i, i + 4));
    lemma_head_end_at(s, i);
    assert(s.subrange(0, head.len() as int) =~= head);
    assert(s.subrange(head.len() as int, s.len() as int) =~= extra);
}

} // verus!
