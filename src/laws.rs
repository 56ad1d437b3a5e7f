use crate::bytes::lower;
use crate::conn::{finalized, fixed_step, raw_values, Conn};
use crate::headers::{header_get, sorted_names};
use crate::names::{chunked, content_length, transfer_encoding};
use crate::request_body::RequestBodyState;
use crate::text::decimal;
use vstd::prelude::*;

verus! {

/// The total of a sequence of read sizes.
pub open spec fn total(reads: Seq<nat>) -> nat
    decreases reads.len(),
{
    if reads.len() == 0 {
        0
    } else {
        reads[0] + total(reads.drop_first())
    }
}

/// Successive fixed-length reads of the given sizes: the body bytes taken in
/// all, and the state after the last.
pub open spec fn fixed_run(s: RequestBodyState, reads: Seq<nat>) -> (nat, RequestBodyState)
    decreases reads.len(),
{
    if reads.len() == 0 {
        (0, s)
    } else {
        let (k, s1) = fixed_step(s, reads[0]);
        let (t, s2) = fixed_run(s1, reads.drop_first());
        (k + t, s2)
    }
}

proof fn lemma_end_stays(reads: Seq<nat>)
    ensures
        fixed_run(RequestBodyState::End, reads) == (0nat, RequestBodyState::End),
    decreases reads.len(),
{
    if reads.len() > 0 {
        lemma_end_stays(reads.drop_first());
    }
}

/// A body of `total_length` bytes, of which `current_index` are read, gives
/// exactly the bytes still owed over reads that offer at least that many,
/// and is then at its end.
pub proof fn lemma_fixed_length_reads_exactly(current_index: u64, total_length: u64, reads: Seq<nat>)
    requires
        current_index <= total_length,
        reads.len() > 0,
        total(reads) >= total_length - current_index,
    ensures
        fixed_run(RequestBodyState::FixedLength { current_index, total_length }, reads) == (
            (total_length - current_index) as nat,
            RequestBodyState::End,
        ),
    decreases reads.len(),
{
    let s = RequestBodyState::FixedLength { current_index, total_length };
    let owed = (total_length - current_index) as nat;
    let n = reads[0];
    if n >= owed {
        lemma_end_stays(reads.drop_first());
    } else {
        let rest = reads.drop_first();
        assert(rest.len() > 0) by {
            if rest.len() == 0 {
                assert(total(rest) == 0);
            }
        }
        lemma_fixed_length_reads_exactly((current_index + n) as u64, total_length, rest);
    }
}

/// Without framing headers set beforehand, a finalized response carries
/// `Content-Length` (and no `Transfer-Encoding`) exactly when its body's
/// length is known, and `Transfer-Encoding: chunked` (and no
/// `Content-Length`) exactly when it is not.
pub proof fn lemma_one_framing_header(
    old: Seq<crate::headers::EntryView>,
    new: Seq<crate::headers::EntryView>,
    len: Option<nat>,
    d: Seq<u8>,
)
    requires
        finalized(old, new, len, d),
        header_get(old, transfer_encoding()) is None,
        header_get(old, content_length()) is None,
    ensures
        len matches Some(n) ==> header_get(new, content_length()) == Some(seq![decimal(n)])
            && header_get(new, transfer_encoding()) is None,
        len is None ==> header_get(new, transfer_encoding()) == Some(seq![chunked()])
            && header_get(new, content_length()) is None,
{
}

/// Response headers are held, and so written, in lexicographic order of
/// their names, whatever order they were set in.
pub proof fn lemma_response_headers_sorted(c: Conn)
    requires
        c.wf(),
    ensures
        sorted_names(c@.response_headers),
{
}

/// Swapping two neighbouring header lines whose names differ (ignoring ASCII
/// case) changes the values of no header: the framing read from them, and so
/// the refusal of `Content-Length` beside chunked coding, does not depend on
/// the order of the lines.
pub proof fn lemma_header_order_irrelevant(raw: Seq<(Seq<u8>, Seq<u8>)>, i: int, key: Seq<u8>)
    requires
        0 <= i,
        i + 1 < raw.len(),
        lower(raw[i].0) != lower(raw[i + 1].0),
    ensures
        raw_values(raw.update(i, raw[i + 1]).update(i + 1, raw[i]), key) == raw_values(raw, key),
    decreases raw.len(),
{
    let sw = raw.update(i, raw[i + 1]).update(i + 1, raw[i]);
    if i + 2 < raw.len() {
        lemma_header_order_irrelevant(raw.drop_last(), i, key);
        assert(sw.drop_last() =~= raw.drop_last().update(i, raw[i + 1]).update(i + 1, raw[i]));
        assert(sw.last() == raw.last());
    } else {
        reveal_with_fuel(raw_values, 3);
        let base = raw.drop_last().drop_last();
        assert(sw.drop_last().drop_last() =~= base);
        assert(sw.drop_last().last() == raw.last());
        assert(sw.last() == raw.drop_last().last());
        assert(raw.drop_last().drop_last() =~= base);
    }
}

} // verus!
