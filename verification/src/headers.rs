//! The header map of a request: from case-folded name to value.

use vstd::prelude::*;
use crate::octets::{lower, same, to_lower};

verus! {

/// What a map of headers answers for `name`: the value stored under the
/// case-folded name, if there is one.
pub open spec fn lookup(m: Map<Seq<u8>, Seq<u8>>, name: Seq<u8>) -> Option<Seq<u8>> {
    if m.contains_key(lower(name)) {
        Some(m[lower(name)])
    } else {
        None
    }
}

/// Names that differ only in the case of ASCII letters are one key.
pub proof fn lemma_lookup_ignores_case(m: Map<Seq<u8>, Seq<u8>>, a: Seq<u8>, b: Seq<u8>)
    requires
        lower(a) == lower(b),
    ensures
        lookup(m, a) == lookup(m, b),
{
}

/// After storing a value under a name, every spelling of that name finds
/// it, and every other name finds what it found before.
pub proof fn lemma_lookup_after_insert(
    m: Map<Seq<u8>, Seq<u8>>,
    name: Seq<u8>,
    value: Seq<u8>,
    other: Seq<u8>,
)
    ensures
        lower(other) == lower(name) ==> lookup(m.insert(lower(name), value), other) == Some(
            value,
        ),
        lower(other) != lower(name) ==> lookup(m.insert(lower(name), value), other) == lookup(
            m,
            other,
        ),
{
}

/// The map after storing each entry in turn, its value under its
/// case-folded name, on top of `base`.
pub open spec fn stored(base: Map<Seq<u8>, Seq<u8>>, entries: Seq<(Seq<u8>, Seq<u8>)>) -> Map<
    Seq<u8>,
    Seq<u8>,
>
    decreases entries.len(),
{
    if entries.len() == 0 {
        base
    } else {
        stored(base.insert(lower(entries[0].0), entries[0].1), entries.skip(1))
    }
}

/// A name that none of the entries has, in any spelling, finds what it
/// found before they were stored.
pub proof fn lemma_absent_name_keeps_its_value(
    base: Map<Seq<u8>, Seq<u8>>,
    entries: Seq<(Seq<u8>, Seq<u8>)>,
    name: Seq<u8>,
)
    requires
        forall|j: int| 0 <= j < entries.len() ==> lower(#[trigger] entries[j].0) != lower(name),
    ensures
        lookup(stored(base, entries), name) == lookup(base, name),
    decreases entries.len(),
{
    if entries.len() > 0 {
        let rest = entries.skip(1);
        lemma_absent_name_keeps_its_value(
            base.insert(lower(entries[0].0), entries[0].1),
            rest,
            name,
        );
    }
}

/// Of several entries with one name, in whatever spelling, the last one
/// wins: the name finds the value of its last occurrence.
pub proof fn lemma_last_occurrence_wins(
    base: Map<Seq<u8>, Seq<u8>>,
    entries: Seq<(Seq<u8>, Seq<u8>)>,
    i: int,
    name: Seq<u8>,
)
    requires
        0 <= i < entries.len(),
        lower(entries[i].0) == lower(name),
        forall|j: int| i < j < entries.len() ==> lower(#[trigger] entries[j].0) != lower(name),
    ensures
        lookup(stored(base, entries), name) == Some(entries[i].1),
    decreases entries.len(),
{
    let rest = entries.skip(1);
    let next = base.insert(lower(entries[0].0), entries[0].1);
    if i == 0 {
        lemma_absent_name_keeps_its_value(next, rest, name);
    } else {
        lemma_last_occurrence_wins(next, rest, i - 1, name);
    }
}

type Entry = (Vec<u8>, Vec<u8>);

spec fn names_distinct(es: Seq<Entry>) -> bool {
    forall|i: int, j: int| 0 <= i < j < es.len() ==> es[i].0@ != es[j].0@
}

spec fn names_folded(es: Seq<Entry>) -> bool {
    forall|i: int| 0 <= i < es.len() ==> lower(#[trigger] es[i].0@) == es[i].0@
}

spec fn has_name(es: Seq<Entry>, k: Seq<u8>) -> bool {
    exists|i: int| 0 <= i < es.len() && es[i].0@ == k
}

spec fn index_of_name(es: Seq<Entry>, k: Seq<u8>) -> int {
    choose|i: int| 0 <= i < es.len() && es[i].0@ == k
}

spec fn entries_map(es: Seq<Entry>) -> Map<Seq<u8>, Seq<u8>> {
    Map::new(|k: Seq<u8>| has_name(es, k), |k: Seq<u8>| es[index_of_name(es, k)].1@)
}

proof fn lemma_entry_found(es: Seq<Entry>, i: int)
    requires
        names_distinct(es),
        0 <= i < es.len(),
    ensures
        has_name(es, es[i].0@),
        index_of_name(es, es[i].0@) == i,
        entries_map(es).contains_key(es[i].0@),
        entries_map(es)[es[i].0@] == es[i].1@,
{
}

proof fn lemma_replace(es: Seq<Entry>, i: int, e: Entry)
    requires
        names_distinct(es),
        0 <= i < es.len(),
        e.0@ == es[i].0@,
    ensures
        names_distinct(es.update(i, e)),
        entries_map(es.update(i, e)) == entries_map(es).insert(e.0@, e.1@),
{
    let es2 = es.update(i, e);
    let m2 = entries_map(es2);
    let m = entries_map(es).insert(e.0@, e.1@);
    assert forall|k: Seq<u8>| m2.contains_key(k) <==> m.contains_key(k) by {
        if has_name(es, k) {
            let j = index_of_name(es, k);
            assert(es2[j].0@ == k);
        }
    }
}

proof fn lemma_append(es: Seq<Entry>, e: Entry)
    requires
        names_distinct(es),
        !has_name(es, e.0@),
    ensures
        names_distinct(es.push(e)),
        entries_map(es.push(e)) == entries_map(es).insert(e.0@, e.1@),
{
    let es2 = es.push(e);
    let m2 = entries_map(es2);
    let m = entries_map(es).insert(e.0@, e.1@);
    assert forall|k: Seq<u8>| m2.contains_key(k) <==> m.contains_key(k) by {
        if has_name(es, k) {
            let j = index_of_name(es, k);
            assert(es2[j].0@ == k);
        }
        if k == e.0@ {
            assert(es2[es.len() as int].0@ == k);
        }
    }
}

proof fn lemma_count(es: Seq<Entry>)
    requires
        names_distinct(es),
    ensures
        entries_map(es).dom().finite(),
        entries_map(es).dom().len() == es.len(),
    decreases es.len(),
{
    if es.len() == 0 {
        assert(entries_map(es).dom() =~= Set::<Seq<u8>>::empty());
    } else {
        let init = es.drop_last();
        let last = es.last();
        lemma_count(init);
        lemma_append(init, last);
        assert(init.push(last) =~= es);
    }
}

proof fn lemma_same_views(es: Seq<Entry>, es2: Seq<Entry>)
    requires
        names_distinct(es),
        names_folded(es),
        es.len() == es2.len(),
        forall|i: int| 0 <= i < es.len() ==> es2[i].0@ == es[i].0@ && es2[i].1@ == es[i].1@,
    ensures
        names_distinct(es2),
        names_folded(es2),
        entries_map(es2) == entries_map(es),
{
}

/// The headers of a request. Names are kept with their ASCII letters made
/// small, each name once; the view is the map from name to value.
#[derive(Debug)]
pub struct Headers {
    entries: Vec<(Vec<u8>, Vec<u8>)>,
}

impl View for Headers {
    type V = Map<Seq<u8>, Seq<u8>>;

    closed spec fn view(&self) -> Map<Seq<u8>, Seq<u8>> {
        entries_map(self.entries@)
    }
}

impl Clone for Headers {
    fn clone(&self) -> (r: Headers)
        ensures
            r@ == self@,
    {
        proof {
            use_type_invariant(self);
        }
        let mut entries: Vec<(Vec<u8>, Vec<u8>)> = Vec::new();
        let mut i: usize = 0;
        while i < self.entries.len()
            invariant
                i <= self.entries@.len(),
                entries@.len() == i,
                forall|j: int|
                    0 <= j < i ==> entries@[j].0@ == self.entries@[j].0@ && entries@[j].1@
                        == self.entries@[j].1@,
            decreases self.entries@.len() - i,
        {
            entries.push((self.entries[i].0.clone(), self.entries[i].1.clone()));
            i = i + 1;
        }
        proof {
            lemma_same_views(self.entries@, entries@);
        }
        Headers { entries }
    }
}

impl PartialEq for Headers {
    /// Whether both hold the same values under the same names, in
    /// whatever order they were stored.
    fn eq(&self, other: &Headers) -> (r: bool) {
        let forth = self.within(other);
        let back = other.within(self);
        proof {
            if forth && back {
                assert(self@ =~= other@);
            }
        }
        forth && back
    }
}

impl vstd::std_specs::cmp::PartialEqSpecImpl for Headers {
    open spec fn obeys_eq_spec() -> bool {
        true
    }

    open spec fn eq_spec(&self, other: &Headers) -> bool {
        self@ == other@
    }
}

impl Eq for Headers {}

impl Headers {
    #[verifier::type_invariant]
    spec fn well_formed(self) -> bool {
        names_distinct(self.entries@) && names_folded(self.entries@)
    }

    /// Whether every name of `self` has the same value in `other`.
    spec fn within_spec(&self, other: &Headers) -> bool {
        forall|k: Seq<u8>|
            #![trigger self@.contains_key(k)]
            self@.contains_key(k) ==> other@.contains_key(k) && other@[k] == self@[k]
    }

    fn within(&self, other: &Headers) -> (r: bool)
        ensures
            r == self.within_spec(other),
    {
        proof {
            use_type_invariant(self);
            use_type_invariant(other);
        }
        let mut i: usize = 0;
        while i < self.entries.len()
            invariant
                i <= self.entries@.len(),
                names_distinct(self.entries@),
                names_distinct(other.entries@),
                forall|j: int|
                    0 <= j < i ==> other@.contains_key(#[trigger] self.entries@[j].0@)
                        && other@[self.entries@[j].0@] == self.entries@[j].1@,
            decreases self.entries@.len() - i,
        {
            let j = other.position(self.entries[i].0.as_slice());
            let ghost k = self.entries@[i as int].0@;
            assert(self@.contains_key(k) && self@[k] == self.entries@[i as int].1@);
            if j >= other.entries.len() {
                return false;
            }
            if !same(other.entries[j].1.as_slice(), self.entries[i].1.as_slice()) {
                return false;
            }
            i = i + 1;
        }
        true
    }

    /// No headers.
    pub fn new() -> (h: Headers)
        ensures
            h@ == Map::<Seq<u8>, Seq<u8>>::empty(),
    {
        Headers { entries: Vec::new() }
    }

    /// The number of names that have a value.
    pub fn len(&self) -> (n: usize)
        ensures
            self@.dom().finite(),
            n == self@.dom().len(),
    {
        proof {
            use_type_invariant(self);
            lemma_count(self.entries@);
        }
        self.entries.len()
    }

    /// Whether no name has a value.
    pub fn is_empty(&self) -> (b: bool)
        ensures
            b == (self@ == Map::<Seq<u8>, Seq<u8>>::empty()),
    {
        proof {
            use_type_invariant(self);
            if self.entries@.len() > 0 {
                lemma_entry_found(self.entries@, 0);
            } else {
                assert(self@ =~= Map::<Seq<u8>, Seq<u8>>::empty());
            }
        }
        self.entries.len() == 0
    }

    /// Whether `name` has a value, whatever the case of its letters.
    pub fn contains(&self, name: &[u8]) -> (b: bool)
        ensures
            b == lookup(self@, name@).is_some(),
    {
        self.get(name).is_some()
    }

    /// Where the entry named `key` stands, or the number of entries.
    fn position(&self, key: &[u8]) -> (i: usize)
        ensures
            i <= self.entries@.len(),
            i < self.entries@.len() ==> self.entries@[i as int].0@ == key@,
            i == self.entries@.len() ==> !has_name(self.entries@, key@),
    {
        let mut i: usize = 0;
        while i < self.entries.len()
            invariant
                i <= self.entries@.len(),
                forall|j: int| 0 <= j < i ==> self.entries@[j].0@ != key@,
            decreases self.entries@.len() - i,
        {
            if same(self.entries[i].0.as_slice(), key) {
                return i;
            }
            i = i + 1;
        }
        i
    }

    /// Stores `value` under `name`, whatever the case of its letters; a
    /// value that was stored under the name before is replaced.
    pub fn insert(&mut self, name: &[u8], value: &[u8])
        ensures
            final(self)@ == old(self)@.insert(lower(name@), value@),
    {
        proof {
            use_type_invariant(&*self);
        }
        let key = to_lower(name);
        proof {
            crate::octets::lemma_lower_idempotent(name@);
        }
        let i = self.position(key.as_slice());
        let entry = (key, vstd::slice::slice_to_vec(value));
        let mut entries: Vec<(Vec<u8>, Vec<u8>)> = Vec::new();
        std::mem::swap(&mut entries, &mut self.entries);
        let ghost before = entries@;
        if i < entries.len() {
            proof {
                lemma_replace(before, i as int, entry);
            }
            entries[i] = entry;
        } else {
            proof {
                lemma_append(before, entry);
            }
            entries.push(entry);
        }
        self.entries = entries;
    }

    /// The value stored under `name`, whatever the case of its letters.
    pub fn get(&self, name: &[u8]) -> (r: Option<&Vec<u8>>)
        ensures
            match r {
                Some(v) => lookup(self@, name@) == Some(v@),
                None => lookup(self@, name@).is_none(),
            },
    {
        proof {
            use_type_invariant(self);
        }
        let key = to_lower(name);
        let i = self.position(key.as_slice());
        if i < self.entries.len() {
            Some(&self.entries[i].1)
        } else {
            None
        }
    }
}

} // verus!
