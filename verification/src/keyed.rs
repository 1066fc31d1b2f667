//! A small map from text keys to values that keeps the order in which the
//! keys came.

use crate::text::{find_name, index_of, lemma_index_of, lemma_index_of_at, string_views};
use vstd::prelude::*;

verus! {

/// No element stands twice in `s`.
pub open spec fn distinct<T>(s: Seq<T>) -> bool {
    forall|i: int, j: int| 0 <= i < j < s.len() ==> s[i] != s[j]
}

/// The map that sends each key to the value at the key's first position.
pub open spec fn assoc<V>(keys: Seq<Seq<char>>, values: Seq<V>) -> Map<Seq<char>, V> {
    Map::new(|k: Seq<char>| keys.contains(k), |k: Seq<char>| values[index_of(keys, k)])
}

/// Values by key, in the order of insertion. `keys` and `values` run in
/// parallel.
#[derive(Debug)]
pub struct Keyed<V> {
    pub keys: Vec<String>,
    pub values: Vec<V>,
}

/// A key that is new comes behind the others and leaves them as they are.
pub proof fn lemma_assoc_push<V>(keys: Seq<Seq<char>>, values: Seq<V>, k: Seq<char>, v: V)
    requires
        keys.len() == values.len(),
        !keys.contains(k),
    ensures
        assoc(keys.push(k), values.push(v)) == assoc(keys, values).insert(k, v),
        distinct(keys) ==> distinct(keys.push(k)),
{
    let keys2 = keys.push(k);
    let values2 = values.push(v);
    assert forall|x: Seq<char>| #[trigger] keys2.contains(x) <==> keys.contains(x) || x == k by {
        if keys.contains(x) {
            let i = choose|i: int| 0 <= i < keys.len() && keys[i] == x;
            assert(keys2[i] == x);
        }
        if x == k {
            assert(keys2[keys.len() as int] == x);
        }
    }
    assert forall|x: Seq<char>| keys.contains(x) implies index_of(keys2, x) == index_of(keys, x) by {
        lemma_index_of(keys, x);
        let i = index_of(keys, x);
        assert forall|j: int| 0 <= j < i implies keys2[j] != x by {
            assert(keys2[j] == keys[j]);
        }
        assert(keys2[i] == keys[i]);
        lemma_index_of_at(keys2, x, i);
    }
    assert(index_of(keys2, k) == keys.len()) by {
        assert forall|j: int| 0 <= j < keys.len() implies keys2[j] != k by {
            assert(keys.contains(keys[j]));
        }
        lemma_index_of_at(keys2, k, keys.len() as int);
    }
    assert forall|x: Seq<char>| keys2.contains(x) implies #[trigger] assoc(keys2, values2)[x]
        == assoc(keys, values).insert(k, v)[x] by {
        if x != k {
            lemma_index_of(keys, x);
            assert(values2[index_of(keys, x)] == values[index_of(keys, x)]);
        }
    }
    assert(assoc(keys2, values2) =~= assoc(keys, values).insert(k, v));
    if distinct(keys) {
        assert forall|i: int, j: int| 0 <= i < j < keys2.len() implies keys2[i] != keys2[j] by {
            assert(keys.contains(keys[i]));
        }
    }
}

/// A new value at the position of a key changes the map at that key alone.
pub proof fn lemma_assoc_update<V>(keys: Seq<Seq<char>>, values: Seq<V>, i: int, v: V)
    requires
        keys.len() == values.len(),
        0 <= i < keys.len(),
        index_of(keys, keys[i]) == i,
    ensures
        assoc(keys, values.update(i, v)) == assoc(keys, values).insert(keys[i], v),
{
    let k = keys[i];
    assert(keys.contains(k));
    assert forall|x: Seq<char>| keys.contains(x) && x != k implies index_of(keys, x) != i by {
        lemma_index_of(keys, x);
    }
    assert forall|x: Seq<char>| keys.contains(x) implies 0 <= index_of(keys, x) < keys.len() by {
        lemma_index_of(keys, x);
    }
    assert(assoc(keys, values.update(i, v)) =~= assoc(keys, values).insert(k, v));
}

/// Where no key stands twice, each key is at its first position.
pub proof fn lemma_distinct_index<T>(s: Seq<T>, i: int)
    requires
        distinct(s),
        0 <= i < s.len(),
    ensures
        index_of(s, s[i]) == i,
{
    lemma_index_of_at(s, s[i], i);
}

/// A value that can take in another of its kind, as the aggregates of this
/// crate do.
pub trait Aggregate: Sized {
    /// The value as plain data.
    type Plain;

    /// The value as plain data.
    spec fn plain(&self) -> Self::Plain;

    /// Whether the value is valid.
    spec fn valid(plain: Self::Plain) -> bool;

    /// Two values taken together.
    spec fn combined(a: Self::Plain, b: Self::Plain) -> Self::Plain;

    /// A copy of the value.
    fn copy(&self) -> (r: Self)
        ensures
            r.plain() == self.plain(),
    ;

    /// Takes `other` into the value.
    fn absorb(&mut self, other: &Self)
        requires
            Self::valid(old(self).plain()),
            Self::valid(other.plain()),
        ensures
            Self::valid(final(self).plain()),
            final(self).plain() == Self::combined(old(self).plain(), other.plain()),
    ;
}

/// The plain data of the values of a map.
pub open spec fn plain_map<A: Aggregate>(m: Map<Seq<char>, A>) -> Map<Seq<char>, A::Plain> {
    m.map_values(|e: A| e.plain())
}

/// Two maps taken together: a key of both has the two values combined, a key
/// of one has the value it has there.
pub open spec fn combined_map<A: Aggregate>(
    a: Map<Seq<char>, A::Plain>,
    b: Map<Seq<char>, A::Plain>,
) -> Map<Seq<char>, A::Plain> {
    Map::new(
        |k: Seq<char>| a.dom().contains(k) || b.dom().contains(k),
        |k: Seq<char>|
            if a.dom().contains(k) && b.dom().contains(k) {
                A::combined(a[k], b[k])
            } else if a.dom().contains(k) {
                a[k]
            } else {
                b[k]
            },
    )
}

/// The map is well formed and each of its values is valid.
pub open spec fn all_valid<A: Aggregate>(m: Keyed<A>) -> bool {
    &&& m.well_formed()
    &&& forall|i: int| 0 <= i < m.values.len() ==> A::valid((#[trigger] m.values@[i]).plain())
}

/// Takes the values of `from` into `into`, key by key.
pub fn merge_keyed<A: Aggregate>(into: &mut Keyed<A>, from: &Keyed<A>)
    requires
        all_valid(*old(into)),
        all_valid(*from),
    ensures
        all_valid(*final(into)),
        plain_map(final(into).map()) == combined_map::<A>(
            plain_map(old(into).map()),
            plain_map(from.map()),
        ),
        final(into).keys@.len() >= old(into).keys@.len(),
        final(into).keys@.take(old(into).keys@.len() as int) == old(into).keys@,
{
    let ghost start = plain_map(into.map());
    let ghost fkeys = string_views(from.keys@);
    let ghost fvals = from.values@;
    let mut j: usize = 0;
    proof {
        assert(assoc(fkeys.take(0), fvals.take(0)) =~= Map::<Seq<char>, A>::empty());
        assert(plain_map(into.map()) =~= combined_map::<A>(
            start,
            plain_map(assoc(fkeys.take(0), fvals.take(0))),
        ));
        assert(into.keys@.take(into.keys@.len() as int) =~= into.keys@);
    }
    while j < from.keys.len()
        invariant
            j <= from.keys.len(),
            all_valid(*from),
            all_valid(*into),
            fkeys == string_views(from.keys@),
            fvals == from.values@,
            plain_map(into.map()) == combined_map::<A>(
                start,
                plain_map(assoc(fkeys.take(j as int), fvals.take(j as int))),
            ),
            into.keys@.len() >= old(into).keys@.len(),
            into.keys@.take(old(into).keys@.len() as int) == old(into).keys@,
        decreases from.keys.len() - j,
    {
        let ghost k = from.keys@[j as int]@;
        let ghost seen = assoc(fkeys.take(j as int), fvals.take(j as int));
        let ghost now = into.map();
        proof {
            assert(!fkeys.take(j as int).contains(k)) by {
                if fkeys.take(j as int).contains(k) {
                    let x = choose|x: int| 0 <= x < j && fkeys.take(j as int)[x] == k;
                    assert(fkeys[x] == fkeys[j as int]);
                }
            }
            lemma_assoc_push(fkeys.take(j as int), fvals.take(j as int), k, fvals[j as int]);
            assert(fkeys.take(j as int).push(k) =~= fkeys.take(j + 1));
            assert(fvals.take(j as int).push(fvals[j as int]) =~= fvals.take(j + 1));
            assert(!seen.dom().contains(k));
            assert(!plain_map(seen).dom().contains(k));
            assert(plain_map(now).dom().contains(k) <==> start.dom().contains(k));
            assert(plain_map(seen.insert(k, fvals[j as int])) =~= plain_map(seen).insert(
                k,
                fvals[j as int].plain(),
            ));
        }
        match into.find(from.keys[j].as_str()) {
            Some(i) => {
                let ghost before = into.values@;
                into.values[i].absorb(&from.values[j]);
                proof {
                    let e = into.values@[i as int];
                    assert(into.values@ =~= before.update(i as int, e));
                    lemma_assoc_update(string_views(into.keys@), before, i as int, e);
                    assert(now.dom().contains(k));
                    assert(plain_map(now)[k] == now[k].plain());
                    assert(start.dom().contains(k));
                    assert(start[k] == before[i as int].plain());
                    assert(into.map() == now.insert(k, e));
                    assert(plain_map(into.map()) =~= plain_map(now).insert(k, e.plain()));
                    assert(plain_map(into.map()) =~= combined_map::<A>(
                        start,
                        plain_map(seen.insert(k, fvals[j as int])),
                    ));
                }
            },
            None => {
                let entry = from.values[j].copy();
                let key = from.keys[j].clone();
                let ghost keys_before = into.keys@;
                into.push_new(key, entry);
                proof {
                    assert(into.map() == now.insert(k, entry));
                    assert(plain_map(into.map()) =~= plain_map(now).insert(k, entry.plain()));
                    assert(!start.dom().contains(k));
                    assert(plain_map(into.map()) =~= combined_map::<A>(
                        start,
                        plain_map(seen.insert(k, fvals[j as int])),
                    ));
                    assert(into.keys@.take(old(into).keys@.len() as int) =~= keys_before.take(
                        old(into).keys@.len() as int,
                    ));
                }
            },
        }
        j += 1;
    }
    proof {
        assert(fkeys.take(from.keys.len() as int) =~= fkeys);
        assert(fvals.take(from.keys.len() as int) =~= fvals);
    }
}

impl<V> Keyed<V> {
    /// The keys and values run in parallel, and no key stands twice.
    pub open spec fn well_formed(&self) -> bool {
        &&& self.keys.len() == self.values.len()
        &&& distinct(string_views(self.keys@))
    }

    /// The map that the keys and values stand for.
    pub open spec fn map(&self) -> Map<Seq<char>, V> {
        assoc(string_views(self.keys@), self.values@)
    }

    /// The position of `key`, or the number of keys where it is absent.
    pub open spec fn position(&self, key: Seq<char>) -> int {
        index_of(string_views(self.keys@), key)
    }

    /// An empty map.
    pub fn new() -> (r: Self)
        ensures
            r.well_formed(),
            r.keys.len() == 0,
            r.map() == Map::<Seq<char>, V>::empty(),
    {
        let r = Keyed { keys: Vec::new(), values: Vec::new() };
        assert(r.map() =~= Map::<Seq<char>, V>::empty());
        r
    }

    /// The number of keys.
    pub fn len(&self) -> (n: usize)
        ensures
            n == self.keys.len(),
    {
        self.keys.len()
    }

    /// The position of `key`, if it is present.
    pub fn find(&self, key: &str) -> (r: Option<usize>)
        requires
            self.keys.len() == self.values.len(),
        ensures
            match r {
                Some(i) => i < self.keys.len() && i == self.position(key@) && self.keys@[i as int]@
                    == key@ && self.map().dom().contains(key@) && self.map()[key@]
                    == self.values@[i as int],
                None => !self.map().dom().contains(key@) && self.position(key@)
                    == self.keys.len(),
            },
    {
        let i = find_name(&self.keys, key);
        proof {
            lemma_index_of(string_views(self.keys@), key@);
        }
        if i < self.keys.len() {
            Some(i)
        } else {
            None
        }
    }

    /// Adds a key that is not yet present, with its value.
    pub fn push_new(&mut self, key: String, value: V)
        requires
            old(self).well_formed(),
            !old(self).map().dom().contains(key@),
        ensures
            final(self).well_formed(),
            final(self).map() == old(self).map().insert(key@, value),
            final(self).keys@ == old(self).keys@.push(key),
            final(self).values@ == old(self).values@.push(value),
    {
        proof {
            lemma_assoc_push(string_views(self.keys@), self.values@, key@, value);
            assert(string_views(self.keys@.push(key)) =~= string_views(self.keys@).push(key@));
        }
        self.keys.push(key);
        self.values.push(value);
    }
}

} // verus!
