use vstd::prelude::*;

verus! {

/// The ASCII lower-case form of a byte; other bytes are unchanged.
pub open spec fn lower_byte(b: u8) -> u8 {
    if 65 <= b <= 90 {
        (b + 32) as u8
    } else {
        b
    }
}

/// The ASCII lower-case form of a byte string.
pub open spec fn lower(s: Seq<u8>) -> Seq<u8> {
    s.map_values(|b: u8| lower_byte(b))
}

/// Optional whitespace: space or horizontal tab.
pub open spec fn is_ows(b: u8) -> bool {
    b == 32 || b == 9
}

/// Strict lexicographic order on byte strings.
pub open spec fn lex_lt(a: Seq<u8>, b: Seq<u8>) -> bool
    decreases a.len(),
{
    if a.len() == 0 {
        b.len() > 0
    } else if b.len() == 0 {
        false
    } else if a[0] != b[0] {
        a[0] < b[0]
    } else {
        lex_lt(a.drop_first(), b.drop_first())
    }
}

/// `needle` occurs in `hay` at `k`, ignoring ASCII case.
pub open spec fn occurs_at(hay: Seq<u8>, needle: Seq<u8>, k: int) -> bool {
    0 <= k && k + needle.len() <= hay.len() && lower(hay.subrange(k, k + needle.len()))
        == lower(needle)
}

/// The string with leading optional whitespace removed.
pub open spec fn trim_start(s: Seq<u8>) -> Seq<u8>
    decreases s.len(),
{
    if s.len() > 0 && is_ows(s[0]) {
        trim_start(s.drop_first())
    } else {
        s
    }
}

/// The string with trailing optional whitespace removed.
pub open spec fn trim_end(s: Seq<u8>) -> Seq<u8>
    decreases s.len(),
{
    if s.len() > 0 && is_ows(s.last()) {
        trim_end(s.drop_last())
    } else {
        s
    }
}

/// The string with optional whitespace removed at both ends.
pub open spec fn trim(s: Seq<u8>) -> Seq<u8> {
    trim_end(trim_start(s))
}

/// How many bytes come before the first comma (the whole length if none).
pub open spec fn comma_index(v: Seq<u8>) -> nat
    decreases v.len(),
{
    if v.len() == 0 || v[0] == 44 {
        0
    } else {
        1 + comma_index(v.drop_first())
    }
}

/// Some comma-separated element of `v`, once trimmed, equals `t` up to ASCII case.
pub open spec fn has_token(v: Seq<u8>, t: Seq<u8>) -> bool
    decreases v.len(),
{
    let c = comma_index(v) as int;
    lower(trim(v.subrange(0, c))) == lower(t) || (c < v.len() && has_token(
        v.subrange(c + 1, v.len() as int),
        t,
    ))
}

proof fn lemma_comma_index_is(v: Seq<u8>, c: int)
    requires
        0 <= c <= v.len(),
        c < v.len() ==> v[c] == 44,
        forall|k: int| 0 <= k < c ==> v[k] != 44,
    ensures
        comma_index(v) == c,
    decreases v.len(),
{
    if c > 0 {
        let d = v.drop_first();
        assert forall|k: int| 0 <= k < c - 1 implies d[k] != 44 by {
            assert(d[k] == v[k + 1]);
        }
        lemma_comma_index_is(d, c - 1);
    }
}

pub proof fn lemma_lex_lt_irreflexive(a: Seq<u8>)
    ensures
        !lex_lt(a, a),
    decreases a.len(),
{
    if a.len() > 0 {
        lemma_lex_lt_irreflexive(a.drop_first());
    }
}

pub proof fn lemma_lex_lt_transitive(a: Seq<u8>, b: Seq<u8>, c: Seq<u8>)
    requires
        lex_lt(a, b),
        lex_lt(b, c),
    ensures
        lex_lt(a, c),
    decreases a.len(),
{
    if a.len() > 0 && b.len() > 0 && c.len() > 0 {
        if a[0] == b[0] && b[0] == c[0] {
            lemma_lex_lt_transitive(a.drop_first(), b.drop_first(), c.drop_first());
        }
    }
}

pub proof fn lemma_lex_lt_total(a: Seq<u8>, b: Seq<u8>)
    ensures
        lex_lt(a, b) || lex_lt(b, a) || a == b,
    decreases a.len(),
{
    if a.len() > 0 && b.len() > 0 && a[0] == b[0] {
        lemma_lex_lt_total(a.drop_first(), b.drop_first());
        if a.drop_first() == b.drop_first() {
            assert(a =~= seq![a[0]] + a.drop_first());
            assert(b =~= seq![b[0]] + b.drop_first());
        }
    } else if a.len() == 0 && b.len() == 0 {
        assert(a =~= b);
    }
}

proof fn lemma_lex_lt_skip(a: Seq<u8>, b: Seq<u8>, i: int)
    requires
        0 <= i <= a.len(),
        i <= b.len(),
        a.subrange(0, i) == b.subrange(0, i),
    ensures
        lex_lt(a, b) == lex_lt(a.subrange(i, a.len() as int), b.subrange(i, b.len() as int)),
    decreases i,
{
    if i > 0 {
        assert(a[0] == a.subrange(0, i)[0]);
        assert(b[0] == b.subrange(0, i)[0]);
        assert(a.drop_first().subrange(0, i - 1) =~= a.subrange(0, i).drop_first());
        assert(b.drop_first().subrange(0, i - 1) =~= b.subrange(0, i).drop_first());
        lemma_lex_lt_skip(a.drop_first(), b.drop_first(), i - 1);
        assert(a.drop_first().subrange(i - 1, a.len() - 1) =~= a.subrange(i, a.len() as int));
        assert(b.drop_first().subrange(i - 1, b.len() - 1) =~= b.subrange(i, b.len() as int));
    } else {
        assert(a.subrange(0, a.len() as int) =~= a);
        assert(b.subrange(0, b.len() as int) =~= b);
    }
}

/// Compares two byte strings lexicographically: `-1`, `0` or `1` as `a` comes
/// before, equals, or comes after `b`.
pub fn compare(a: &[u8], b: &[u8]) -> (r: i8)
    ensures
        -1 <= r <= 1,
        r == -1 <==> lex_lt(a@, b@),
        r == 0 <==> a@ == b@,
        r == 1 <==> lex_lt(b@, a@),
{
    let mut i: usize = 0;
    while i < a.len() && i < b.len() && a[i] == b[i]
        invariant
            i <= a.len(),
            i <= b.len(),
            a@.subrange(0, i as int) == b@.subrange(0, i as int),
        decreases a.len() - i,
    {
        assert(a@.subrange(0, i + 1) =~= a@.subrange(0, i as int).push(a[i as int]));
        assert(b@.subrange(0, i + 1) =~= b@.subrange(0, i as int).push(b[i as int]));
        i += 1;
    }
    proof {
        lemma_lex_lt_skip(a@, b@, i as int);
        lemma_lex_lt_skip(b@, a@, i as int);
        lemma_lex_lt_irreflexive(a@);
        lemma_lex_lt_total(a@, b@);
        let ra = a@.subrange(i as int, a@.len() as int);
        let rb = b@.subrange(i as int, b@.len() as int);
        if i < a.len() && i < b.len() {
            assert(ra[0] == a[i as int] && rb[0] == b[i as int]);
        }
        if i == a.len() && i == b.len() {
            assert(a@ =~= a@.subrange(0, i as int));
            assert(b@ =~= b@.subrange(0, i as int));
        }
        if a@ == b@ {
            lemma_lex_lt_irreflexive(a@);
        }
        if lex_lt(a@, b@) && lex_lt(b@, a@) {
            lemma_lex_lt_transitive(a@, b@, a@);
        }
    }
    if i < a.len() && i < b.len() {
        if a[i] < b[i] {
            -1
        } else {
            1
        }
    } else if i < a.len() {
        1
    } else if i < b.len() {
        -1
    } else {
        0
    }
}

/// The ASCII lower-case form of a byte.
pub fn to_lower_byte(b: u8) -> (r: u8)
    ensures
        r == lower_byte(b),
{
    if 65 <= b && b <= 90 {
        b + 32
    } else {
        b
    }
}

/// The ASCII lower-case form of a byte string.
pub fn to_lower(s: &[u8]) -> (r: Vec<u8>)
    ensures
        r@ == lower(s@),
{
    let mut r: Vec<u8> = Vec::new();
    let mut i: usize = 0;
    while i < s.len()
        invariant
            i <= s.len(),
            r@ == lower(s@.subrange(0, i as int)),
        decreases s.len() - i,
    {
        r.push(to_lower_byte(s[i]));
        i += 1;
        assert(r@ =~= lower(s@.subrange(0, i as int)));
    }
    assert(s@.subrange(0, i as int) =~= s@);
    r
}

/// Whether `a[from..to]` equals `b` up to ASCII case.
pub fn eq_ignore_case_at(a: &[u8], from: usize, to: usize, b: &[u8]) -> (r: bool)
    requires
        from <= to <= a.len(),
    ensures
        r == (lower(a@.subrange(from as int, to as int)) == lower(b@)),
{
    if to - from != b.len() {
        proof {
            if lower(a@.subrange(from as int, to as int)) == lower(b@) {
                assert(lower(a@.subrange(from as int, to as int)).len() == lower(b@).len());
            }
        }
        return false;
    }
    let mut i: usize = 0;
    while i < b.len()
        invariant
            i <= b.len(),
            to - from == b.len(),
            from <= to <= a.len(),
            forall|k: int| 0 <= k < i ==> lower_byte(a[from + k]) == lower_byte(b[k]),
        decreases b.len() - i,
    {
        if to_lower_byte(a[from + i]) != to_lower_byte(b[i]) {
            proof {
                let l = lower(a@.subrange(from as int, to as int));
                if l == lower(b@) {
                    assert(l[i as int] == lower(b@)[i as int]);
                }
            }
            return false;
        }
        i += 1;
    }
    assert(lower(a@.subrange(from as int, to as int)) =~= lower(b@));
    true
}

/// Whether `needle` occurs in `hay`, ignoring ASCII case.
pub fn contains_ignore_case(hay: &[u8], needle: &[u8]) -> (r: bool)
    ensures
        r == exists|k: int| occurs_at(hay@, needle@, k),
{
    if needle.len() > hay.len() {
        return false;
    }
    let mut k: usize = 0;
    loop
        invariant
            needle.len() <= hay.len(),
            k <= hay.len() - needle.len(),
            forall|j: int| 0 <= j < k ==> !occurs_at(hay@, needle@, j),
        decreases hay.len() - needle.len() - k,
    {
        if eq_ignore_case_at(hay, k, k + needle.len(), needle) {
            assert(occurs_at(hay@, needle@, k as int));
            return true;
        }
        if k == hay.len() - needle.len() {
            return false;
        }
        k += 1;
    }
}

/// The bounds of `s[from..to]` once optional whitespace is trimmed at both ends.
pub fn trim_bounds(s: &[u8], from: usize, to: usize) -> (r: (usize, usize))
    requires
        from <= to <= s.len(),
    ensures
        from <= r.0 <= r.1 <= to,
        s@.subrange(r.0 as int, r.1 as int) == trim(s@.subrange(from as int, to as int)),
{
    let ghost seg = s@.subrange(from as int, to as int);
    let mut a: usize = from;
    while a < to && (s[a] == 32 || s[a] == 9)
        invariant
            from <= a <= to <= s.len(),
            trim_start(seg) == trim_start(s@.subrange(a as int, to as int)),
        decreases to - a,
    {
        assert(s@.subrange(a as int, to as int).drop_first() =~= s@.subrange(a + 1, to as int));
        a += 1;
    }
    let mut b: usize = to;
    while b > a && (s[b - 1] == 32 || s[b - 1] == 9)
        invariant
            from <= a <= b <= to <= s.len(),
            trim(seg) == trim_end(s@.subrange(a as int, b as int)),
        decreases b,
    {
        assert(s@.subrange(a as int, b as int).drop_last() =~= s@.subrange(a as int, b - 1));
        b -= 1;
    }
    (a, b)
}

/// Whether some comma-separated element of `v`, trimmed of optional
/// whitespace, equals `t` up to ASCII case.
pub fn contains_token(v: &[u8], t: &[u8]) -> (r: bool)
    ensures
        r == has_token(v@, t@),
{
    let mut pos: usize = 0;
    assert(v@.subrange(0, v.len() as int) =~= v@);
    loop
        invariant
            pos <= v.len(),
            has_token(v@, t@) == has_token(v@.subrange(pos as int, v.len() as int), t@),
        decreases v.len() - pos,
    {
        let ghost rest = v@.subrange(pos as int, v.len() as int);
        let mut c: usize = pos;
        while c < v.len() && v[c] != 44
            invariant
                pos <= c <= v.len(),
                forall|k: int| pos <= k < c ==> v[k] != 44,
            decreases v.len() - c,
        {
            c += 1;
        }
        proof {
            lemma_comma_index_is(rest, c - pos);
            assert(rest.subrange(0, c - pos) =~= v@.subrange(pos as int, c as int));
        }
        let (a, b) = trim_bounds(v, pos, c);
        if eq_ignore_case_at(v, a, b, t) {
            return true;
        }
        if c == v.len() {
            return false;
        }
        assert(rest.subrange(c - pos + 1, rest.len() as int) =~= v@.subrange(
            c + 1,
            v.len() as int,
        ));
        pos = c + 1;
    }
}

} // verus!
