//! The parameter mapping: string keys to string values, keys unique, later
//! writes to a key overwriting earlier ones.
//!
//! The mapping is stored as a vector of pairs so that every operation has an
//! exact specification; its abstract value is the [`Map`] of [`map_of`].

use vstd::prelude::*;
use vstd::string::StrSliceExecFns;

verus! {

/// No two pairs share a key.
pub open spec fn distinct_keys(pairs: Seq<(Seq<char>, Seq<char>)>) -> bool {
    forall|i: int, j: int| 0 <= i < j < pairs.len() ==> pairs[i].0 != pairs[j].0
}

/// The mapping that a pair sequence denotes: pairs applied left to right,
/// a later pair overwriting an earlier one with the same key.
pub open spec fn map_of(pairs: Seq<(Seq<char>, Seq<char>)>) -> Map<Seq<char>, Seq<char>>
    decreases pairs.len(),
{
    if pairs.len() == 0 {
        Map::empty()
    } else {
        map_of(pairs.drop_last()).insert(pairs.last().0, pairs.last().1)
    }
}

/// Writing `(k, v)`: the value is replaced in place where the key is already
/// present, and the pair appended where it is not.
pub open spec fn upsert(
    pairs: Seq<(Seq<char>, Seq<char>)>,
    k: Seq<char>,
    v: Seq<char>,
) -> Seq<(Seq<char>, Seq<char>)>
    decreases pairs.len(),
{
    if pairs.len() == 0 {
        seq![(k, v)]
    } else if pairs[0].0 == k {
        seq![(k, v)] + pairs.drop_first()
    } else {
        seq![pairs[0]] + upsert(pairs.drop_first(), k, v)
    }
}

/// An unordered mapping from string keys to string values, keys unique.
pub struct SearchParams {
    pairs: Vec<(String, String)>,
}

impl View for SearchParams {
    type V = Seq<(Seq<char>, Seq<char>)>;

    closed spec fn view(&self) -> Seq<(Seq<char>, Seq<char>)> {
        Seq::new(self.pairs@.len(), |i: int| (self.pairs@[i].0@, self.pairs@[i].1@))
    }
}

impl SearchParams {
    /// The stored pairs carry pairwise distinct keys.
    pub open spec fn wf(&self) -> bool {
        distinct_keys(self@)
    }

    /// The mapping this value denotes.
    pub open spec fn as_map(&self) -> Map<Seq<char>, Seq<char>> {
        map_of(self@)
    }

    /// The empty mapping.
    pub fn new() -> (r: SearchParams)
        ensures
            r@ == Seq::<(Seq<char>, Seq<char>)>::empty(),
            r.wf(),
    {
        let r = SearchParams { pairs: Vec::new() };
        proof {
            assert(r@ =~= Seq::<(Seq<char>, Seq<char>)>::empty());
        }
        r
    }

    /// The number of keys in the mapping.
    pub fn len(&self) -> (n: usize)
        ensures
            n == self@.len(),
    {
        self.pairs.len()
    }

    /// Whether the mapping holds no keys at all.
    pub fn is_empty(&self) -> (r: bool)
        ensures
            r == (self@.len() == 0),
    {
        self.pairs.len() == 0
    }

    /// The key of the pair at `i` in the stored order.
    pub fn key_at(&self, i: usize) -> (k: &String)
        requires
            i < self@.len(),
        ensures
            k@ == self@[i as int].0,
    {
        &self.pairs[i].0
    }

    /// The value of the pair at `i` in the stored order.
    pub fn value_at(&self, i: usize) -> (v: &String)
        requires
            i < self@.len(),
        ensures
            v@ == self@[i as int].1,
    {
        &self.pairs[i].1
    }

    /// The position of `key` among the stored pairs, or their number where
    /// no pair holds it.
    fn find_key(&self, key: &str) -> (r: usize)
        ensures
            r <= self@.len(),
            forall|t: int| 0 <= t < r ==> self@[t].0 != key@,
            r < self@.len() ==> self@[r as int].0 == key@,
    {
        let mut j: usize = 0;
        while j < self.pairs.len()
            invariant
                j <= self@.len(),
                forall|t: int| 0 <= t < j ==> self@[t].0 != key@,
            decreases self@.len() - j,
        {
            if str_eq(self.pairs[j].0.as_str(), key) {
                return j;
            }
            j = j + 1;
        }
        j
    }

    /// Writes `key = value` into the mapping, overwriting any earlier value
    /// of `key` in place.
    pub fn insert(&mut self, key: String, value: String)
        ensures
            final(self)@ == upsert(old(self)@, key@, value@),
            old(self).wf() ==> final(self).wf(),
    {
        let ghost pairs0 = self@;
        let j = self.find_key(key.as_str());
        if j < self.pairs.len() {
            self.pairs[j] = (key, value);
            proof {
                assert(self@ =~= pairs0.update(j as int, (key@, value@)));
                lemma_upsert_found(pairs0, self@, key@, value@, j as int);
            }
        } else {
            self.pairs.push((key, value));
            proof {
                lemma_upsert_missing(pairs0, key@, value@);
                assert(self@ =~= pairs0.push((key@, value@)));
            }
        }
        proof {
            if distinct_keys(pairs0) {
                lemma_upsert_distinct(pairs0, key@, value@);
            }
        }
    }

    /// Looks a key up: the value under `key` in the mapping, or `None` where
    /// the mapping holds no such key.
    pub fn get(&self, key: &str) -> (r: Option<&String>)
        requires
            self.wf(),
        ensures
            match r {
                Some(v) => self.as_map().contains_key(key@) && v@ == self.as_map()[key@],
                None => !self.as_map().contains_key(key@),
            },
    {
        let j = self.find_key(key);
        if j < self.pairs.len() {
            proof {
                lemma_map_of_found(self@, j as int);
            }
            Some(&self.pairs[j].1)
        } else {
            proof {
                lemma_map_of_missing(self@, key@);
            }
            None
        }
    }
}

/// Whether two strings hold the same characters.
fn str_eq(a: &str, b: &str) -> (r: bool)
    ensures
        r == (a@ == b@),
{
    let n = a.unicode_len();
    if n != b.unicode_len() {
        return false;
    }
    let mut i: usize = 0;
    while i < n
        invariant
            n == a@.len(),
            n == b@.len(),
            i <= n,
            forall|t: int| 0 <= t < i ==> a@[t] == b@[t],
        decreases n - i,
    {
        if a.get_char(i) != b.get_char(i) {
            return false;
        }
        i = i + 1;
    }
    proof {
        assert(a@ =~= b@);
    }
    true
}

/// A pair whose key is absent is appended by [`upsert`].
proof fn lemma_upsert_missing(pairs: Seq<(Seq<char>, Seq<char>)>, k: Seq<char>, v: Seq<char>)
    requires
        forall|t: int| 0 <= t < pairs.len() ==> pairs[t].0 != k,
    ensures
        upsert(pairs, k, v) == pairs.push((k, v)),
    decreases pairs.len(),
{
    if pairs.len() == 0 {
        assert(upsert(pairs, k, v) =~= pairs.push((k, v)));
    } else {
        lemma_upsert_missing(pairs.drop_first(), k, v);
        assert(upsert(pairs, k, v) =~= pairs.push((k, v)));
    }
}

/// A pair whose key stands at `j`, and nowhere earlier, is replaced there by
/// [`upsert`].
proof fn lemma_upsert_found(
    pairs: Seq<(Seq<char>, Seq<char>)>,
    updated: Seq<(Seq<char>, Seq<char>)>,
    k: Seq<char>,
    v: Seq<char>,
    j: int,
)
    requires
        0 <= j < pairs.len(),
        pairs[j].0 == k,
        forall|t: int| 0 <= t < j ==> pairs[t].0 != k,
        updated == pairs.update(j, (k, v)),
    ensures
        updated == upsert(pairs, k, v),
    decreases j,
{
    if j == 0 {
        assert(updated =~= seq![(k, v)] + pairs.drop_first());
    } else {
        lemma_upsert_found(
            pairs.drop_first(),
            pairs.drop_first().update(j - 1, (k, v)),
            k,
            v,
            j - 1,
        );
        assert(updated.drop_first() =~= pairs.drop_first().update(j - 1, (k, v)));
        assert(updated =~= seq![pairs[0]] + updated.drop_first());
    }
}

/// [`upsert`] keeps keys pairwise distinct.
proof fn lemma_upsert_distinct(pairs: Seq<(Seq<char>, Seq<char>)>, k: Seq<char>, v: Seq<char>)
    requires
        distinct_keys(pairs),
    ensures
        distinct_keys(upsert(pairs, k, v)),
    decreases pairs.len(),
{
    if pairs.len() == 0 {
    } else if pairs[0].0 == k {
        let u = upsert(pairs, k, v);
        assert forall|i: int, j: int| 0 <= i < j < u.len() implies u[i].0 != u[j].0 by {
            assert(u[j] == pairs.drop_first()[j - 1]);
            assert(pairs.drop_first()[j - 1] == pairs[j]);
            if i > 0 {
                assert(u[i] == pairs[i]);
            }
        }
    } else {
        lemma_upsert_distinct(pairs.drop_first(), k, v);
        let u = upsert(pairs, k, v);
        let ur = upsert(pairs.drop_first(), k, v);
        assert forall|i: int, j: int| 0 <= i < j < u.len() implies u[i].0 != u[j].0 by {
            if i == 0 {
                assert(u[j] == ur[j - 1]);
                lemma_upsert_keys(pairs.drop_first(), k, v, j - 1);
            } else {
                assert(u[i] == ur[i - 1]);
                assert(u[j] == ur[j - 1]);
            }
        }
    }
}

/// Every key of `upsert(pairs, k, v)` is `k` or a key of `pairs`.
proof fn lemma_upsert_keys(
    pairs: Seq<(Seq<char>, Seq<char>)>,
    k: Seq<char>,
    v: Seq<char>,
    i: int,
)
    requires
        0 <= i < upsert(pairs, k, v).len(),
    ensures
        upsert(pairs, k, v)[i].0 == k || (exists|t: int|
            0 <= t < pairs.len() && pairs[t].0 == upsert(pairs, k, v)[i].0),
    decreases pairs.len(),
{
    if pairs.len() == 0 {
    } else if pairs[0].0 == k {
        if i > 0 {
            assert(upsert(pairs, k, v)[i] == pairs[i]);
        }
    } else {
        if i > 0 {
            lemma_upsert_keys(pairs.drop_first(), k, v, i - 1);
            assert(upsert(pairs, k, v)[i] == upsert(pairs.drop_first(), k, v)[i - 1]);
            if upsert(pairs.drop_first(), k, v)[i - 1].0 != k {
                let t = choose|t: int|
                    0 <= t < pairs.drop_first().len() && pairs.drop_first()[t].0 == upsert(
                        pairs.drop_first(),
                        k,
                        v,
                    )[i - 1].0;
                assert(pairs[t + 1].0 == upsert(pairs, k, v)[i].0);
            }
        }
    }
}

/// With distinct keys, writing a pair moves [`map_of`] by one map insert.
pub proof fn lemma_upsert_map(pairs: Seq<(Seq<char>, Seq<char>)>, k: Seq<char>, v: Seq<char>)
    requires
        distinct_keys(pairs),
    ensures
        map_of(upsert(pairs, k, v)) == map_of(pairs).insert(k, v),
    decreases pairs.len(),
{
    if exists|t: int| 0 <= t < pairs.len() && pairs[t].0 == k {
        let j = choose|t: int| 0 <= t < pairs.len() && pairs[t].0 == k;
        assert(forall|t: int| 0 <= t < pairs.len() && t != j ==> pairs[t].0 != k);
        assert(forall|t: int| 0 <= t < j ==> pairs[t].0 != k);
        lemma_upsert_found(pairs, pairs.update(j, (k, v)), k, v, j);
        lemma_map_of_update(pairs, j, k, v);
    } else {
        assert(forall|t: int| 0 <= t < pairs.len() ==> pairs[t].0 != k);
        lemma_upsert_missing(pairs, k, v);
        assert(pairs.push((k, v)).drop_last() =~= pairs);
        assert(pairs.push((k, v)).last() == (k, v));
    }
}

/// With distinct keys, replacing the pair at `j` replaces one map entry.
proof fn lemma_map_of_update(
    pairs: Seq<(Seq<char>, Seq<char>)>,
    j: int,
    k: Seq<char>,
    v: Seq<char>,
)
    requires
        distinct_keys(pairs),
        0 <= j < pairs.len(),
        pairs[j].0 == k,
    ensures
        map_of(pairs.update(j, (k, v))) == map_of(pairs).insert(k, v),
    decreases pairs.len(),
{
    let u = pairs.update(j, (k, v));
    if j == pairs.len() - 1 {
        assert(u.drop_last() =~= pairs.drop_last());
        assert(u.last() == (k, v));
        assert(map_of(u) =~= map_of(pairs).insert(k, v));
    } else {
        assert(u.drop_last() =~= pairs.drop_last().update(j, (k, v)));
        assert(u.last() == pairs.last());
        lemma_map_of_update(pairs.drop_last(), j, k, v);
        assert(pairs.last().0 != k) by {
            assert(pairs[j].0 == k);
        }
        assert(map_of(u) =~= map_of(pairs).insert(k, v)) by {
            assert(map_of(u) == map_of(pairs.drop_last()).insert(k, v).insert(
                pairs.last().0,
                pairs.last().1,
            ));
        }
    }
}

/// With distinct keys, the pair at `j` gives its key's map entry.
proof fn lemma_map_of_found(pairs: Seq<(Seq<char>, Seq<char>)>, j: int)
    requires
        distinct_keys(pairs),
        0 <= j < pairs.len(),
    ensures
        map_of(pairs).contains_key(pairs[j].0),
        map_of(pairs)[pairs[j].0] == pairs[j].1,
    decreases pairs.len(),
{
    if j == pairs.len() - 1 {
    } else {
        lemma_map_of_found(pairs.drop_last(), j);
        assert(pairs.last().0 != pairs[j].0);
    }
}

/// A key on no pair is not in the map.
proof fn lemma_map_of_missing(pairs: Seq<(Seq<char>, Seq<char>)>, k: Seq<char>)
    requires
        forall|t: int| 0 <= t < pairs.len() ==> pairs[t].0 != k,
    ensures
        !map_of(pairs).contains_key(k),
    decreases pairs.len(),
{
    if pairs.len() == 0 {
    } else {
        lemma_map_of_missing(pairs.drop_last(), k);
    }
}

} // verus!
