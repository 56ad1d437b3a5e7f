use crate::bytes::{compare, contains_ignore_case, contains_token, has_token, occurs_at, lemma_lex_lt_irreflexive, lemma_lex_lt_transitive, lex_lt, lower, to_lower};
use vstd::prelude::*;
use vstd::slice::slice_to_vec;

verus! {

/// One header name, in ASCII lower case, with its values in insertion order.
#[derive(Debug)]
pub struct HeaderEntry {
    name: Vec<u8>,
    values: Vec<Vec<u8>>,
}

/// A header collection: names compare without regard to ASCII case, each name
/// holds one or more values, and the names are kept in lexicographic order.
#[derive(Debug)]
pub struct Headers {
    entries: Vec<HeaderEntry>,
}

/// A header name and its values, as plain byte strings.
pub type EntryView = (Seq<u8>, Seq<Seq<u8>>);

/// A list of byte strings as plain values.
pub open spec fn strings_view(v: Vec<Vec<u8>>) -> Seq<Seq<u8>> {
    v@.map_values(|b: Vec<u8>| b@)
}

pub closed spec fn entry_view(e: HeaderEntry) -> EntryView {
    (e.name@, strings_view(e.values))
}

/// Names strictly increase, so each occurs once.
pub open spec fn sorted_names(v: Seq<EntryView>) -> bool {
    forall|i: int, j: int| 0 <= i < j < v.len() ==> lex_lt(#[trigger] v[i].0, #[trigger] v[j].0)
}

/// The values stored under `key` (a lower-case name), if any.
pub open spec fn values_of(v: Seq<EntryView>, key: Seq<u8>) -> Option<Seq<Seq<u8>>> {
    if exists|i: int| 0 <= i < v.len() && v[i].0 == key {
        Some(v[choose|i: int| 0 <= i < v.len() && v[i].0 == key].1)
    } else {
        None
    }
}

/// Some value contains `needle`, compared without regard to ASCII case.
pub open spec fn some_value_contains(vals: Option<Seq<Seq<u8>>>, needle: Seq<u8>) -> bool {
    vals is Some && exists|j: int, k: int|
        0 <= j < vals->0.len() && #[trigger] occurs_at(vals->0[j], needle, k)
}

/// Some value lists `token` among its comma-separated elements.
pub open spec fn some_value_has_token(vals: Option<Seq<Seq<u8>>>, token: Seq<u8>) -> bool {
    vals is Some && exists|j: int| 0 <= j < vals->0.len() && #[trigger] has_token(vals->0[j], token)
}

pub proof fn lemma_values_of_at(v: Seq<EntryView>, key: Seq<u8>, i: int)
    requires
        sorted_names(v),
        0 <= i < v.len(),
        v[i].0 == key,
    ensures
        values_of(v, key) == Some(v[i].1),
{
    let j = choose|j: int| 0 <= j < v.len() && v[j].0 == key;
    lemma_lex_lt_irreflexive(key);
    if j < i {
        assert(lex_lt(v[j].0, v[i].0));
    } else if j > i {
        assert(lex_lt(v[i].0, v[j].0));
    }
}

/// A copy of a list of byte strings.
fn copy_values(vals: &Vec<Vec<u8>>) -> (r: Vec<Vec<u8>>)
    ensures
        strings_view(r) == strings_view(*vals),
{
    let mut r: Vec<Vec<u8>> = Vec::new();
    let mut i: usize = 0;
    while i < vals.len()
        invariant
            i <= vals.len(),
            strings_view(r) == strings_view(*vals).subrange(0, i as int),
        decreases vals.len() - i,
    {
        let b = slice_to_vec(vals[i].as_slice());
        assert(b@ == strings_view(*vals)[i as int]);
        let ghost prev = strings_view(r);
        r.push(b);
        assert(strings_view(r) =~= prev.push(b@));
        i += 1;
        assert(strings_view(r) =~= strings_view(*vals).subrange(0, i as int));
    }
    assert(strings_view(*vals).subrange(0, i as int) =~= strings_view(*vals));
    r
}

/// The wire form of one header name with each of its values:
/// `name: value` and CRLF for each value, in order.
pub open spec fn value_lines(name: Seq<u8>, vals: Seq<Seq<u8>>) -> Seq<u8>
    decreases vals.len(),
{
    if vals.len() == 0 {
        Seq::empty()
    } else {
        value_lines(name, vals.drop_last()) + name + seq![58u8, 32u8] + vals.last() + seq![
            13u8,
            10u8,
        ]
    }
}

/// The wire form of a header collection, one line per value, in the order of
/// its entries.
pub open spec fn header_lines(v: Seq<EntryView>) -> Seq<u8>
    decreases v.len(),
{
    if v.len() == 0 {
        Seq::empty()
    } else {
        header_lines(v.drop_last()) + value_lines(v.last().0, v.last().1)
    }
}

/// Sorted names, stored in lower case, each with at least one value.
pub open spec fn headers_wf(v: Seq<EntryView>) -> bool {
    &&& sorted_names(v)
    &&& forall|i: int| 0 <= i < v.len() ==> lower(#[trigger] v[i].0) == v[i].0
    &&& forall|i: int| 0 <= i < v.len() ==> (#[trigger] v[i].1).len() > 0
}

/// The values under a name, matched without regard to ASCII case.
pub open spec fn header_get(v: Seq<EntryView>, name: Seq<u8>) -> Option<Seq<Seq<u8>>> {
    values_of(v, lower(name))
}

impl View for Headers {
    type V = Seq<EntryView>;

    closed spec fn view(&self) -> Seq<EntryView> {
        self.entries@.map_values(|e: HeaderEntry| entry_view(e))
    }
}

impl Headers {
    /// The collection's invariant: sorted names, stored in lower case, each
    /// with at least one value.
    pub open spec fn wf(&self) -> bool {
        headers_wf(self@)
    }

    /// The values under a name, matched without regard to ASCII case.
    pub open spec fn spec_get(&self, name: Seq<u8>) -> Option<Seq<Seq<u8>>> {
        header_get(self@, name)
    }

    /// An empty collection.
    pub fn new() -> (r: Headers)
        ensures
            r.wf(),
            r@.len() == 0,
    {
        let r = Headers { entries: Vec::new() };
        assert(r@ =~= Seq::<EntryView>::empty());
        r
    }

    /// How many distinct names are stored.
    pub fn len(&self) -> (r: usize)
        ensures
            r == self@.len(),
    {
        self.entries.len()
    }

    /// The name at a position of the sorted order.
    pub fn name_at(&self, i: usize) -> (r: &Vec<u8>)
        requires
            i < self@.len(),
        ensures
            r@ == self@[i as int].0,
    {
        &self.entries[i].name
    }

    /// The values at a position of the sorted order.
    pub fn values_at(&self, i: usize) -> (r: &Vec<Vec<u8>>)
        requires
            i < self@.len(),
        ensures
            strings_view(*r) == self@[i as int].1,
    {
        &self.entries[i].values
    }

    /// The first position whose name does not sort before `key`.
    fn position(&self, key: &[u8]) -> (r: (usize, bool))
        requires
            self.wf(),
        ensures
            r.0 <= self@.len(),
            forall|i: int| 0 <= i < r.0 ==> lex_lt(#[trigger] self@[i].0, key@),
            r.1 ==> r.0 < self@.len() && self@[r.0 as int].0 == key@,
            !r.1 ==> r.0 < self@.len() ==> lex_lt(key@, self@[r.0 as int].0),
    {
        let mut i: usize = 0;
        while i < self.entries.len()
            invariant
                self.wf(),
                i <= self@.len(),
                forall|k: int| 0 <= k < i ==> lex_lt(#[trigger] self@[k].0, key@),
            decreases self@.len() - i,
        {
            let c = compare(self.entries[i].name.as_slice(), key);
            assert(self@[i as int] == entry_view(self.entries@[i as int]));
            if c == 0 {
                return (i, true);
            }
            if c == 1 {
                return (i, false);
            }
            i += 1;
        }
        (i, false)
    }

    /// Where `name` is stored, if it is.
    pub fn find(&self, name: &[u8]) -> (r: Option<usize>)
        requires
            self.wf(),
        ensures
            r matches Some(i) ==> i < self@.len() && self@[i as int].0 == lower(name@),
            r is None <==> self.spec_get(name@) is None,
            r matches Some(i) ==> self.spec_get(name@) == Some(self@[i as int].1),
    {
        let key = to_lower(name);
        let (p, found) = self.position(key.as_slice());
        proof {
            if found {
                lemma_values_of_at(self@, key@, p as int);
            } else {
                assert forall|i: int| 0 <= i < self@.len() implies self@[i].0 != key@ by {
                    lemma_lex_lt_irreflexive(key@);
                    if i >= p {
                        if i > p {
                            lemma_lex_lt_transitive(key@, self@[p as int].0, self@[i].0);
                        }
                    }
                }
            }
        }
        if found {
            Some(p)
        } else {
            None
        }
    }

    /// The values under `name`, matched without regard to ASCII case.
    pub fn get(&self, name: &[u8]) -> (r: Option<&Vec<Vec<u8>>>)
        requires
            self.wf(),
        ensures
            r is Some <==> self.spec_get(name@) is Some,
            r matches Some(v) ==> Some(strings_view(*v)) == self.spec_get(name@),
    {
        match self.find(name) {
            Some(i) => Some(&self.entries[i].values),
            None => None,
        }
    }

    /// Whether `name` is present.
    pub fn has(&self, name: &[u8]) -> (r: bool)
        requires
            self.wf(),
        ensures
            r == self.spec_get(name@) is Some,
    {
        self.find(name).is_some()
    }

    /// Puts `entry` at position `p`, either replacing the entry of the same
    /// name there or shifting the later ones.
    fn place(&mut self, p: usize, replace: bool, entry: HeaderEntry)
        requires
            old(self).wf(),
            p <= old(self)@.len(),
            lower(entry.name@) == entry.name@,
            entry.values@.len() > 0,
            forall|i: int| 0 <= i < p ==> lex_lt(#[trigger] old(self)@[i].0, entry.name@),
            replace ==> p < old(self)@.len() && old(self)@[p as int].0 == entry.name@,
            !replace ==> p < old(self)@.len() ==> lex_lt(entry.name@, old(self)@[p as int].0),
        ensures
            final(self).wf(),
            final(self).spec_get(entry.name@) == Some(entry_view(entry).1),
            forall|k: Seq<u8>|
                k != entry.name@ ==> #[trigger] values_of(final(self)@, k) == values_of(
                    old(self)@,
                    k,
                ),
    {
        let ghost ov = old(self)@;
        let ghost ev = entry_view(entry);
        if replace {
            self.entries.remove(p);
        }
        self.entries.insert(p, entry);
        let ghost nv = self@;
        proof {
            if replace {
                assert(nv =~= ov.update(p as int, ev));
            } else {
                assert(nv =~= ov.insert(p as int, ev));
            }
            assert forall|i: int, j: int| 0 <= i < j < nv.len() implies lex_lt(
                #[trigger] nv[i].0,
                #[trigger] nv[j].0,
            ) by {
                if !replace && p < ov.len() && j > p as int && j - 1 > p as int {
                    lemma_lex_lt_transitive(ev.0, ov[p as int].0, ov[j - 1].0);
                }
                if replace && p + 1 < ov.len() && j > p as int {
                    if j > p + 0 {
                        assert(lex_lt(ov[p as int].0, ov[j].0));
                    }
                }
            }
            assert(lower(ev.0) == ev.0);
            assert forall|i: int| 0 <= i < nv.len() implies lower(#[trigger] nv[i].0) == nv[i].0 by {
            }
            assert forall|i: int| 0 <= i < nv.len() implies (#[trigger] nv[i].1).len() > 0 by {
            }
            lemma_values_of_at(nv, ev.0, p as int);
            assert(lower(entry.name@) == entry.name@);
            assert forall|k: Seq<u8>| k != ev.0 implies #[trigger] values_of(nv, k) == values_of(
                ov,
                k,
            ) by {
                if exists|i: int| 0 <= i < ov.len() && ov[i].0 == k {
                    let i = choose|i: int| 0 <= i < ov.len() && ov[i].0 == k;
                    lemma_values_of_at(ov, k, i);
                    if replace || i < p {
                        lemma_values_of_at(nv, k, i);
                    } else {
                        lemma_values_of_at(nv, k, i + 1);
                    }
                } else {
                    assert forall|i: int| 0 <= i < nv.len() implies nv[i].0 != k by {
                        if i != p {
                            if replace || i < p {
                                assert(nv[i] == ov[i]);
                            } else {
                                assert(nv[i] == ov[i - 1]);
                            }
                        }
                    }
                }
            }
        }
    }

    /// Sets `name` to the single value `value`, replacing what it held.
    pub fn insert(&mut self, name: &[u8], value: &[u8])
        requires
            old(self).wf(),
        ensures
            final(self).wf(),
            final(self).spec_get(name@) == Some(seq![value@]),
            forall|k: Seq<u8>|
                k != lower(name@) ==> #[trigger] values_of(final(self)@, k) == values_of(
                    old(self)@,
                    k,
                ),
    {
        let key = to_lower(name);
        proof {
            assert(lower(key@) =~= key@);
        }
        let (p, found) = self.position(key.as_slice());
        let mut values: Vec<Vec<u8>> = Vec::new();
        values.push(slice_to_vec(value));
        let entry = HeaderEntry { name: key, values };
        assert(strings_view(entry.values) =~= seq![value@]);
        self.place(p, found, entry);
    }

    /// Adds `value` after the values that `name` already holds.
    pub fn append(&mut self, name: &[u8], value: &[u8])
        requires
            old(self).wf(),
        ensures
            final(self).wf(),
            final(self).spec_get(name@) == Some(
                match old(self).spec_get(name@) {
                    Some(vals) => vals.push(value@),
                    None => seq![value@],
                },
            ),
            forall|k: Seq<u8>|
                k != lower(name@) ==> #[trigger] values_of(final(self)@, k) == values_of(
                    old(self)@,
                    k,
                ),
    {
        let key = to_lower(name);
        proof {
            assert(lower(key@) =~= key@);
        }
        let (p, found) = self.position(key.as_slice());
        let mut values: Vec<Vec<u8>> = Vec::new();
        if found {
            proof {
                lemma_values_of_at(self@, key@, p as int);
                assert(self@[p as int] == entry_view(self.entries@[p as int]));
            }
            values = copy_values(&self.entries[p].values);
        } else {
            assert(strings_view(values) =~= Seq::<Seq<u8>>::empty());
            assert forall|i: int| 0 <= i < self@.len() implies self@[i].0 != key@ by {
                lemma_lex_lt_irreflexive(key@);
                if i > p {
                    lemma_lex_lt_transitive(key@, self@[p as int].0, self@[i].0);
                }
            }
        }
        let ghost before = strings_view(values);
        let b = slice_to_vec(value);
        values.push(b);
        assert(strings_view(values) =~= before.push(value@));
        let entry = HeaderEntry { name: key, values };
        self.place(p, found, entry);
    }

    /// Whether some value under `name` contains `needle`, both compared
    /// without regard to ASCII case.
    pub fn contains_ignore_ascii_case(&self, name: &[u8], needle: &[u8]) -> (r: bool)
        requires
            self.wf(),
        ensures
            r == some_value_contains(self.spec_get(name@), needle@),
    {
        match self.get(name) {
            None => false,
            Some(vals) => {
                let mut j: usize = 0;
                while j < vals.len()
                    invariant
                        j <= vals.len(),
                        Some(strings_view(*vals)) == self.spec_get(name@),
                        forall|i: int, k: int|
                            0 <= i < j ==> !#[trigger] occurs_at(strings_view(*vals)[i], needle@, k),
                    decreases vals.len() - j,
                {
                    if contains_ignore_case(vals[j].as_slice(), needle) {
                        proof {
                            let sv = strings_view(*vals);
                            assert(sv[j as int] == vals@[j as int]@);
                            let k = choose|k: int| occurs_at(vals@[j as int]@, needle@, k);
                            assert(sv.len() == vals@.len());
                            assert(occurs_at(sv[j as int], needle@, k));
                            let o = Some(sv);
                            assert(o->0 == sv);
                            assert(occurs_at(o->0[j as int], needle@, k));
                            assert(some_value_contains(o, needle@));
                        }
                        return true;
                    }
                    assert(strings_view(*vals)[j as int] == vals@[j as int]@);
                    j += 1;
                }
                assert(!some_value_contains(Some(strings_view(*vals)), needle@));
                false
            },
        }
    }

    /// Whether some value under `name` lists `token` among its
    /// comma-separated elements, compared without regard to ASCII case.
    pub fn contains_token(&self, name: &[u8], token: &[u8]) -> (r: bool)
        requires
            self.wf(),
        ensures
            r == some_value_has_token(self.spec_get(name@), token@),
    {
        match self.get(name) {
            None => {
                assert(!some_value_has_token(self.spec_get(name@), token@));
                false
            },
            Some(vals) => {
                let mut j: usize = 0;
                while j < vals.len()
                    invariant
                        j <= vals.len(),
                        Some(strings_view(*vals)) == self.spec_get(name@),
                        forall|i: int|
                            0 <= i < j ==> !has_token(#[trigger] strings_view(*vals)[i], token@),
                    decreases vals.len() - j,
                {
                    assert(strings_view(*vals)[j as int] == vals@[j as int]@);
                    if contains_token(vals[j].as_slice(), token) {
                        assert(strings_view(*vals).len() == vals@.len());
                        assert(has_token(strings_view(*vals)[j as int], token@));
                        let ghost sv = strings_view(*vals);
                        assert(exists|jj: int| 0 <= jj < sv.len() && #[trigger] has_token(sv[jj], token@));
                        assert(some_value_has_token(Some(sv), token@)) by {
                            let o = Some(sv);
                            assert(o->0 == sv);
                            assert(o is Some);
                            assert(has_token(o->0[j as int], token@));
                            assert(0 <= j < o->0.len());
                        }
                        return true;
                    }
                    j += 1;
                }
                assert(!some_value_has_token(Some(strings_view(*vals)), token@));
                false
            },
        }
    }

    /// Appends the wire form of every header: each value on its own
    /// `name: value` line, names in the collection's order.
    pub fn write_lines(&self, out: &mut Vec<u8>)
        ensures
            final(out)@ == old(out)@ + header_lines(self@),
    {
        let ghost start = out@;
        let mut i: usize = 0;
        while i < self.entries.len()
            invariant
                i <= self@.len(),
                out@ == start + header_lines(self@.subrange(0, i as int)),
            decreases self@.len() - i,
        {
            let e = &self.entries[i];
            assert(self@[i as int] == entry_view(self.entries@[i as int]));
            let ghost mid = out@;
            let mut j: usize = 0;
            while j < e.values.len()
                invariant
                    j <= e.values@.len(),
                    out@ == mid + value_lines(e.name@, strings_view(e.values).subrange(0, j as int)),
                decreases e.values@.len() - j,
            {
                let ghost before = out@;
                out.extend_from_slice(e.name.as_slice());
                out.push(58u8);
                out.push(32u8);
                out.extend_from_slice(e.values[j].as_slice());
                out.push(13u8);
                out.push(10u8);
                proof {
                    let sv = strings_view(e.values);
                    assert(sv.subrange(0, j + 1).drop_last() =~= sv.subrange(0, j as int));
                    assert(sv[j as int] == e.values@[j as int]@);
                    assert(out@ =~= before + e.name@ + seq![58u8, 32u8] + sv[j as int] + seq![13u8, 10u8]);
                }
                j += 1;
            }
            proof {
                assert(strings_view(e.values).subrange(0, j as int) =~= strings_view(e.values));
                assert(self@.subrange(0, i + 1).drop_last() =~= self@.subrange(0, i as int));
            }
            i += 1;
        }
        assert(self@.subrange(0, i as int) =~= self@);
    }
}

} // verus!
