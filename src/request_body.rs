use crate::bytes::trim;
use crate::chunked::ChunkState;
use crate::error::Error;
use vstd::prelude::*;

verus! {

/// How much of the request body has been read, and how it is framed.
#[derive(Debug, Clone, Copy, PartialEq, Eq, Structural)]
pub enum RequestBodyState {
    /// Framing not yet decided: no body byte has been asked for.
    Start,
    /// A body of `total_length` bytes, of which `current_index` are read.
    FixedLength { current_index: u64, total_length: u64 },
    /// A chunked body, standing at `chunk` in the chunk grammar.
    Chunked { chunk: ChunkState },
    /// The body is read, or there is none.
    End,
}

/// An ASCII decimal digit.
pub open spec fn is_digit(b: u8) -> bool {
    48 <= b <= 57
}

/// The number that a string of decimal digits writes.
pub open spec fn digits_value(s: Seq<u8>) -> nat
    decreases s.len(),
{
    if s.len() == 0 {
        0
    } else {
        digits_value(s.drop_last()) * 10 + (s.last() - 48) as nat
    }
}

/// The digits of a length: what follows an optional `+`.
pub open spec fn unsigned_digits(t: Seq<u8>) -> Seq<u8> {
    if t.len() > 0 && t[0] == 43 {
        t.drop_first()
    } else {
        t
    }
}

/// The value of a `Content-Length` field: optional whitespace around an
/// optional `+` and one or more decimal digits, within `u64`.
pub open spec fn content_length_value(v: Seq<u8>) -> Option<u64> {
    let d = unsigned_digits(trim(v));
    if d.len() > 0 && (forall|i: int| 0 <= i < d.len() ==> is_digit(#[trigger] d[i]))
        && digits_value(d) <= u64::MAX {
        Some(digits_value(d) as u64)
    } else {
        None
    }
}

proof fn lemma_digits_value_step(s: Seq<u8>, i: int)
    requires
        0 <= i < s.len(),
    ensures
        digits_value(s.subrange(0, i + 1)) == digits_value(s.subrange(0, i)) * 10 + (s[i] - 48) as nat,
{
    assert(s.subrange(0, i + 1).drop_last() =~= s.subrange(0, i));
}

proof fn lemma_digits_value_grows(s: Seq<u8>, i: int)
    requires
        0 <= i <= s.len(),
        forall|k: int| 0 <= k < s.len() ==> is_digit(#[trigger] s[k]),
    ensures
        digits_value(s.subrange(0, i)) <= digits_value(s),
    decreases s.len() - i,
{
    if i < s.len() {
        lemma_digits_value_step(s, i);
        lemma_digits_value_grows(s, i + 1);
    } else {
        assert(s.subrange(0, i) =~= s);
    }
}

/// Reads the value of a `Content-Length` field.
pub fn parse_content_length(v: &[u8]) -> (r: Option<u64>)
    ensures
        r == content_length_value(v@),
{
    let (a, b) = crate::bytes::trim_bounds(v, 0, v.len());
    assert(v@.subrange(0, v@.len() as int) =~= v@);
    let ghost t = v@.subrange(a as int, b as int);
    let mut i: usize = a;
    if i < b && v[i] == 43 {
        i += 1;
    }
    let start = i;
    let ghost d = v@.subrange(start as int, b as int);
    assert(d =~= unsigned_digits(t));
    assert(t == trim(v@));
    if start == b {
        return None;
    }
    let mut value: u64 = 0;
    while i < b
        invariant
            start <= i <= b <= v.len(),
            d == v@.subrange(start as int, b as int),
            d == unsigned_digits(trim(v@)),
            forall|k: int| 0 <= k < i - start ==> is_digit(#[trigger] d[k]),
            value as nat == digits_value(d.subrange(0, i - start)),
        decreases b - i,
    {
        let c = v[i];
        if c < 48 || c > 57 {
            assert(!is_digit(d[i - start]));
            return None;
        }
        proof {
            lemma_digits_value_step(d, i - start);
        }
        let digit = (c - 48) as u64;
        if value > (u64::MAX - digit) / 10 {
            proof {
                assert(value as nat * 10 + digit as nat > u64::MAX) by (nonlinear_arith)
                    requires
                        value > (u64::MAX - digit) / 10,
                        digit <= 9,
                ;
                if forall|k: int| 0 <= k < d.len() ==> is_digit(#[trigger] d[k]) {
                    lemma_digits_value_grows(d, i - start + 1);
                }
            }
            return None;
        }
        value = value * 10 + digit;
        i += 1;
    }
    assert(d.subrange(0, d.len() as int) =~= d);
    Some(value)
}

} // verus!
