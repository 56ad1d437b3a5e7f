use crate::body::{chunk_frame, chunk_frames, chunked, crlf, last_chunk};
use crate::error::Error;
use crate::text::{hex, hex_digit};
use vstd::prelude::*;

verus! {

/// Where a chunked body decoder stands in the chunk grammar.
#[derive(Debug, Clone, Copy, PartialEq, Eq, Structural)]
pub enum ChunkState {
    /// Reading the hexadecimal size of the next chunk; `any` once a digit is read.
    Size { value: u64, any: bool },
    /// Skipping a chunk extension, up to the end of the size line.
    SizeExt { value: u64 },
    /// The size line's CR is read; its LF is due.
    SizeLf { value: u64 },
    /// Inside a chunk's data, with `remaining` bytes to go (never zero).
    Data { remaining: u64 },
    /// After a chunk's data; its CR is due.
    DataCr,
    /// After a chunk's data and CR; its LF is due.
    DataLf,
    /// At the start of a trailer line, after the last chunk.
    TrailerStart,
    /// Inside a trailer line.
    Trailer,
    /// A trailer line's CR is read; its LF is due.
    TrailerLf,
    /// The CR of the empty line that ends the body is read; its LF is due.
    EndLf,
    /// The body has ended.
    Done,
}

/// The state in which a chunked body starts.
pub open spec fn chunk_start() -> ChunkState {
    ChunkState::Size { value: 0, any: false }
}

/// The value of a hexadecimal digit, in either case.
pub open spec fn hex_value(b: u8) -> Option<u64> {
    if 48 <= b <= 57 {
        Some((b - 48) as u64)
    } else if 65 <= b <= 70 {
        Some((b - 55) as u64)
    } else if 97 <= b <= 102 {
        Some((b - 87) as u64)
    } else {
        None
    }
}

/// One byte through the chunk grammar: the next state and the body byte it
/// yields, if any; `None` where the byte breaks the grammar.
pub open spec fn chunk_step(s: ChunkState, b: u8) -> Option<(ChunkState, Option<u8>)> {
    match s {
        ChunkState::Size { value, any } => match hex_value(b) {
            Some(d) => if value > (u64::MAX - d) / 16 {
                None
            } else {
                Some((ChunkState::Size { value: (value * 16 + d) as u64, any: true }, None))
            },
            None => if any && b == 13 {
                Some((ChunkState::SizeLf { value }, None))
            } else if any && b == 59 {
                Some((ChunkState::SizeExt { value }, None))
            } else {
                None
            },
        },
        ChunkState::SizeExt { value } => if b == 13 {
            Some((ChunkState::SizeLf { value }, None))
        } else {
            Some((ChunkState::SizeExt { value }, None))
        },
        ChunkState::SizeLf { value } => if b != 10 {
            None
        } else if value == 0 {
            Some((ChunkState::TrailerStart, None))
        } else {
            Some((ChunkState::Data { remaining: value }, None))
        },
        ChunkState::Data { remaining } => if remaining <= 1 {
            Some((ChunkState::DataCr, Some(b)))
        } else {
            Some((ChunkState::Data { remaining: (remaining - 1) as u64 }, Some(b)))
        },
        ChunkState::DataCr => if b == 13 {
            Some((ChunkState::DataLf, None))
        } else {
            None
        },
        ChunkState::DataLf => if b == 10 {
            Some((chunk_start(), None))
        } else {
            None
        },
        ChunkState::TrailerStart => if b == 13 {
            Some((ChunkState::EndLf, None))
        } else {
            Some((ChunkState::Trailer, None))
        },
        ChunkState::Trailer => if b == 13 {
            Some((ChunkState::TrailerLf, None))
        } else {
            Some((ChunkState::Trailer, None))
        },
        ChunkState::TrailerLf => if b == 10 {
            Some((ChunkState::TrailerStart, None))
        } else {
            None
        },
        ChunkState::EndLf => if b == 10 {
            Some((ChunkState::Done, None))
        } else {
            None
        },
        ChunkState::Done => Some((ChunkState::Done, None)),
    }
}

/// The bytes an optional byte stands for.
pub open spec fn opt_byte(o: Option<u8>) -> Seq<u8> {
    match o {
        Some(b) => seq![b],
        None => Seq::empty(),
    }
}

/// Bytes through the chunk grammar from `s`: the state reached and the body
/// bytes yielded; `None` where they break the grammar. Bytes after the end of
/// the body change nothing.
pub open spec fn chunk_run(s: ChunkState, bs: Seq<u8>) -> Option<(ChunkState, Seq<u8>)>
    decreases bs.len(),
{
    if bs.len() == 0 || s == ChunkState::Done {
        Some((s, Seq::empty()))
    } else {
        match chunk_step(s, bs[0]) {
            None => None,
            Some((s1, o)) => match chunk_run(s1, bs.drop_first()) {
                None => None,
                Some((s2, out)) => Some((s2, opt_byte(o) + out)),
            },
        }
    }
}

/// Runs `bs` after a run that gave `r`.
pub open spec fn chunk_then(r: Option<(ChunkState, Seq<u8>)>, bs: Seq<u8>) -> Option<(ChunkState, Seq<u8>)> {
    match r {
        None => None,
        Some((s1, o1)) => match chunk_run(s1, bs) {
            None => None,
            Some((s2, o2)) => Some((s2, o1 + o2)),
        },
    }
}

/// The data of the chunks, one after another.
pub open spec fn concat(chunks: Seq<Seq<u8>>) -> Seq<u8>
    decreases chunks.len(),
{
    if chunks.len() == 0 {
        Seq::empty()
    } else {
        concat(chunks.drop_last()) + chunks.last()
    }
}

pub proof fn lemma_run_append(s: ChunkState, a: Seq<u8>, b: Seq<u8>)
    ensures
        chunk_run(s, a + b) == chunk_then(chunk_run(s, a), b),
    decreases a.len(),
{
    if a.len() == 0 {
        assert(a + b =~= b);
        if let Some((s2, o2)) = chunk_run(s, b) {
            assert(Seq::<u8>::empty() + o2 =~= o2);
        }
    } else if s == ChunkState::Done {
        lemma_run_done(b);
        assert(Seq::<u8>::empty() + Seq::<u8>::empty() =~= Seq::<u8>::empty());
    } else {
        assert((a + b).drop_first() =~= a.drop_first() + b);
        assert((a + b)[0] == a[0]);
        match chunk_step(s, a[0]) {
            None => {},
            Some((s1, o)) => {
                lemma_run_append(s1, a.drop_first(), b);
                match chunk_run(s1, a.drop_first()) {
                    None => {},
                    Some((s2, o2)) => {
                        match chunk_run(s2, b) {
                            None => {},
                            Some((s3, o3)) => {
                                assert(opt_byte(o) + (o2 + o3) =~= (opt_byte(o) + o2) + o3);
                            },
                        }
                    },
                }
            },
        }
    }
}

proof fn lemma_run_done(b: Seq<u8>)
    ensures
        chunk_run(ChunkState::Done, b) == Some((ChunkState::Done, Seq::<u8>::empty())),
{
}

proof fn lemma_hex_value(d: nat)
    requires
        d < 16,
    ensures
        hex_value(hex_digit(d)) == Some(d as u64),
{
}

proof fn lemma_hex_len(n: nat)
    ensures
        hex(n).len() > 0,
    decreases n,
{
    if n >= 16 {
        lemma_hex_len(n / 16);
    }
}

/// The hexadecimal notation of a size reads back as that size.
proof fn lemma_run_hex(n: nat)
    requires
        n <= u64::MAX,
    ensures
        chunk_run(chunk_start(), hex(n)) == Some((ChunkState::Size { value: n as u64, any: true }, Seq::<u8>::empty())),
    decreases n,
{
    reveal_with_fuel(chunk_run, 2);
    if n < 16 {
        lemma_hex_value(n);
        assert(hex(n).drop_first() =~= Seq::<u8>::empty());
        assert((0u64 * 16 + n) as u64 == n as u64);
    } else {
        let p = n / 16;
        let d = n % 16;
        lemma_run_hex(p);
        lemma_hex_value(d);
        assert(hex(n) == hex(p).push(hex_digit(d)));
        assert(hex(p).push(hex_digit(d)) =~= hex(p) + seq![hex_digit(d)]);
        lemma_run_append(chunk_start(), hex(p), seq![hex_digit(d)]);
        let s = ChunkState::Size { value: p as u64, any: true };
        assert(p * 16 + d == n);
        assert(p <= (u64::MAX - d) / 16) by (nonlinear_arith)
            requires
                p * 16 + d <= u64::MAX,
                d < 16,
        ;
        assert(seq![hex_digit(d)].drop_first() =~= Seq::<u8>::empty());
        assert(Seq::<u8>::empty() + Seq::<u8>::empty() =~= Seq::<u8>::empty());
    }
}

/// A chunk's data passes through unchanged.
proof fn lemma_run_data(data: Seq<u8>)
    requires
        0 < data.len() <= u64::MAX,
    ensures
        chunk_run(ChunkState::Data { remaining: data.len() as u64 }, data) == Some((ChunkState::DataCr, data)),
    decreases data.len(),
{
    let s = ChunkState::Data { remaining: data.len() as u64 };
    reveal_with_fuel(chunk_run, 2);
    if data.len() == 1 {
        assert(data.drop_first() =~= Seq::<u8>::empty());
        assert(seq![data[0]] + Seq::<u8>::empty() =~= data);
    } else {
        lemma_run_data(data.drop_first());
        assert(seq![data[0]] + data.drop_first() =~= data);
    }
}

/// One frame of a chunked body decodes to the chunk's data.
proof fn lemma_run_frame(data: Seq<u8>)
    requires
        data.len() <= u64::MAX,
    ensures
        chunk_run(chunk_start(), chunk_frame(data)) == Some((chunk_start(), data)),
{
    if data.len() == 0 {
        assert(data =~= Seq::<u8>::empty());
        return;
    }
    let n = data.len();
    let h = hex(n);
    lemma_run_hex(n);
    lemma_hex_len(n);
    let sz = ChunkState::Size { value: n as u64, any: true };
    // the size line's CR LF
    assert(crlf().drop_first().drop_first() =~= Seq::<u8>::empty());
    assert(chunk_run(sz, crlf()) == Some((ChunkState::Data { remaining: n as u64 }, Seq::<u8>::empty()))) by {
        reveal_with_fuel(chunk_run, 3);
        assert(crlf()[0] == 13u8);
        assert(crlf().drop_first()[0] == 10u8);
        assert(Seq::<u8>::empty() + Seq::<u8>::empty() =~= Seq::<u8>::empty());
    }
    lemma_run_data(data);
    assert(chunk_run(ChunkState::DataCr, crlf()) == Some((chunk_start(), Seq::<u8>::empty()))) by {
        reveal_with_fuel(chunk_run, 3);
        assert(crlf()[0] == 13u8);
        assert(crlf().drop_first()[0] == 10u8);
        assert(Seq::<u8>::empty() + Seq::<u8>::empty() =~= Seq::<u8>::empty());
    }
    let f = h + crlf() + data + crlf();
    lemma_run_append(chunk_start(), h, crlf());
    lemma_run_append(chunk_start(), h + crlf(), data);
    lemma_run_append(chunk_start(), h + crlf() + data, crlf());
    assert(Seq::<u8>::empty() + Seq::<u8>::empty() =~= Seq::<u8>::empty());
    assert(Seq::<u8>::empty() + data =~= data);
    assert(data + Seq::<u8>::empty() =~= data);
}

proof fn lemma_run_frames(chunks: Seq<Seq<u8>>)
    requires
        forall|i: int| 0 <= i < chunks.len() ==> (#[trigger] chunks[i]).len() <= u64::MAX,
    ensures
        chunk_run(chunk_start(), chunk_frames(chunks)) == Some((chunk_start(), concat(chunks))),
    decreases chunks.len(),
{
    if chunks.len() == 0 {
        return;
    }
    let init = chunks.drop_last();
    lemma_run_frames(init);
    lemma_run_frame(chunks.last());
    lemma_run_append(chunk_start(), chunk_frames(init), chunk_frame(chunks.last()));
}

/// A chunked body made of any chunks decodes, chunk after chunk, to their
/// data one after another, and ends there: the bytes that follow are left
/// alone.
pub proof fn lemma_chunked_round_trip(chunks: Seq<Seq<u8>>, after: Seq<u8>)
    requires
        forall|i: int| 0 <= i < chunks.len() ==> (#[trigger] chunks[i]).len() <= u64::MAX,
    ensures
        chunk_run(chunk_start(), chunked(chunks) + after) == Some((ChunkState::Done, concat(chunks))),
{
    lemma_run_frames(chunks);
    let e = last_chunk();
    assert(chunk_run(chunk_start(), e) == Some((ChunkState::Done, Seq::<u8>::empty()))) by {
        reveal_with_fuel(chunk_run, 6);
        let e1 = e.drop_first();
        let e2 = e1.drop_first();
        let e3 = e2.drop_first();
        let e4 = e3.drop_first();
        assert(e[0] == 48u8 && e1[0] == 13u8 && e2[0] == 10u8 && e3[0] == 13u8 && e4[0] == 10u8);
        assert(e4.drop_first() =~= Seq::<u8>::empty());
        lemma_hex_value(0);
        assert(Seq::<u8>::empty() + Seq::<u8>::empty() =~= Seq::<u8>::empty());
    }
    lemma_run_append(chunk_start(), chunk_frames(chunks), e);
    lemma_run_append(chunk_start(), chunked(chunks), after);
    lemma_run_done(after);
    assert(concat(chunks) + Seq::<u8>::empty() =~= concat(chunks));
}

/// The value of a hexadecimal digit, in either case.
fn hex_digit_value(b: u8) -> (r: Option<u64>)
    ensures
        r == hex_value(b),
{
    if 48 <= b && b <= 57 {
        Some((b - 48) as u64)
    } else if 65 <= b && b <= 70 {
        Some((b - 55) as u64)
    } else if 97 <= b && b <= 102 {
        Some((b - 87) as u64)
    } else {
        None
    }
}

/// One byte through the chunk grammar.
pub fn step_chunk(s: ChunkState, b: u8) -> (r: Option<(ChunkState, Option<u8>)>)
    ensures
        r == chunk_step(s, b),
{
    match s {
        ChunkState::Size { value, any } => match hex_digit_value(b) {
            Some(d) => if value > (u64::MAX - d) / 16 {
                None
            } else {
                Some((ChunkState::Size { value: value * 16 + d, any: true }, None))
            },
            None => if any && b == 13 {
                Some((ChunkState::SizeLf { value }, None))
            } else if any && b == 59 {
                Some((ChunkState::SizeExt { value }, None))
            } else {
                None
            },
        },
        ChunkState::SizeExt { value } => if b == 13 {
            Some((ChunkState::SizeLf { value }, None))
        } else {
            Some((ChunkState::SizeExt { value }, None))
        },
        ChunkState::SizeLf { value } => if b != 10 {
            None
        } else if value == 0 {
            Some((ChunkState::TrailerStart, None))
        } else {
            Some((ChunkState::Data { remaining: value }, None))
        },
        ChunkState::Data { remaining } => if remaining <= 1 {
            Some((ChunkState::DataCr, Some(b)))
        } else {
            Some((ChunkState::Data { remaining: remaining - 1 }, Some(b)))
        },
        ChunkState::DataCr => if b == 13 {
            Some((ChunkState::DataLf, None))
        } else {
            None
        },
        ChunkState::DataLf => if b == 10 {
            Some((ChunkState::Size { value: 0, any: false }, None))
        } else {
            None
        },
        ChunkState::TrailerStart => if b == 13 {
            Some((ChunkState::EndLf, None))
        } else {
            Some((ChunkState::Trailer, None))
        },
        ChunkState::Trailer => if b == 13 {
            Some((ChunkState::TrailerLf, None))
        } else {
            Some((ChunkState::Trailer, None))
        },
        ChunkState::TrailerLf => if b == 10 {
            Some((ChunkState::TrailerStart, None))
        } else {
            None
        },
        ChunkState::EndLf => if b == 10 {
            Some((ChunkState::Done, None))
        } else {
            None
        },
        ChunkState::Done => Some((ChunkState::Done, None)),
    }
}

/// The outcome of decoding `input` from state `s`: the grammar breaks, or
/// the state reached, the body bytes, and how many input bytes the body
/// used (all of them, unless the body ended before).
pub open spec fn decoded(s: ChunkState, input: Seq<u8>, r: Result<(ChunkState, Vec<u8>, usize), Error>) -> bool {
    match r {
        Ok((s2, out, used)) => {
            &&& chunk_run(s, input) == Some((s2, out@))
            &&& chunk_run(s, input.subrange(0, used as int)) == Some((s2, out@))
            &&& used <= input.len()
            &&& used < input.len() ==> s2 == ChunkState::Done
        },
        Err(e) => e == Error::MalformedChunk && chunk_run(s, input) is None,
    }
}

/// Decodes chunked body bytes from state `s`, stopping where the body ends.
pub fn decode_chunks(s: ChunkState, input: &[u8]) -> (r: Result<(ChunkState, Vec<u8>, usize), Error>)
    ensures
        decoded(s, input@, r),
{
    let mut cur = s;
    let mut out: Vec<u8> = Vec::new();
    let mut i: usize = 0;
    assert(input@.subrange(0, 0) =~= Seq::<u8>::empty());
    while i < input.len() && cur != ChunkState::Done
        invariant
            i <= input.len(),
            chunk_run(s, input@.subrange(0, i as int)) == Some((cur, out@)),
        decreases input.len() - i,
    {
        let b = input[i];
        proof {
            assert(input@.subrange(0, i + 1) =~= input@.subrange(0, i as int) + seq![b]);
            lemma_run_append(s, input@.subrange(0, i as int), seq![b]);
            reveal_with_fuel(chunk_run, 2);
            assert(seq![b].drop_first() =~= Seq::<u8>::empty());
            assert(input@ =~= input@.subrange(0, i as int) + input@.subrange(i as int, input@.len() as int));
            lemma_run_append(s, input@.subrange(0, i as int), input@.subrange(i as int, input@.len() as int));
            assert(input@.subrange(i as int, input@.len() as int)[0] == b);
        }
        match step_chunk(cur, b) {
            None => {
                return Err(Error::MalformedChunk);
            },
            Some((next, o)) => {
                let ghost before = out@;
                match o {
                    Some(x) => out.push(x),
                    None => {},
                }
                proof {
                    assert(out@ =~= before + opt_byte(o));
                    assert(opt_byte(o) + Seq::<u8>::empty() =~= opt_byte(o));
                }
                cur = next;
            },
        }
        i += 1;
    }
    proof {
        assert(input@ =~= input@.subrange(0, i as int) + input@.subrange(i as int, input@.len() as int));
        lemma_run_append(s, input@.subrange(0, i as int), input@.subrange(i as int, input@.len() as int));
        if i < input.len() {
            lemma_run_done(input@.subrange(i as int, input@.len() as int));
        } else {
            assert(input@.subrange(i as int, input@.len() as int) =~= Seq::<u8>::empty());
        }
        assert(out@ + Seq::<u8>::empty() =~= out@);
    }
    Ok((cur, out, i))
}

} // verus!
