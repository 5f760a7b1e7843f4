//! The tags of an instance: texts by key, in the order of the keys.

use vstd::prelude::*;

use crate::text::{
    before, lemma_precedes_irreflexive, lemma_precedes_total, lemma_precedes_transitive, precedes,
    same,
};

verus! {

/// The keys and values of a list of entries.
pub open spec fn pair_views(entries: Seq<(String, String)>) -> Seq<(Seq<char>, Seq<char>)> {
    entries.map_values(|e: (String, String)| (e.0@, e.1@))
}

/// Whether the keys strictly ascend in dictionary order.
pub open spec fn ascending(pairs: Seq<(Seq<char>, Seq<char>)>) -> bool {
    forall|i: int, j: int|
        0 <= i < j < pairs.len() ==> precedes((#[trigger] pairs[i]).0, (#[trigger] pairs[j]).0)
}

/// The value that stands with `key`.
pub open spec fn find(pairs: Seq<(Seq<char>, Seq<char>)>, key: Seq<char>) -> Option<Seq<char>>
    decreases pairs.len(),
{
    if pairs.len() == 0 {
        None
    } else if pairs[0].0 == key {
        Some(pairs[0].1)
    } else {
        find(pairs.drop_first(), key)
    }
}

/// The values by key.
pub open spec fn as_map(pairs: Seq<(Seq<char>, Seq<char>)>) -> Map<Seq<char>, Seq<char>> {
    Map::new(|k: Seq<char>| find(pairs, k) is Some, |k: Seq<char>| find(pairs, k)->0)
}

proof fn lemma_find_none(pairs: Seq<(Seq<char>, Seq<char>)>, key: Seq<char>)
    requires
        forall|i: int| 0 <= i < pairs.len() ==> (#[trigger] pairs[i]).0 != key,
    ensures
        find(pairs, key) is None,
    decreases pairs.len(),
{
    if pairs.len() > 0 {
        let rest = pairs.drop_first();
        assert forall|i: int| 0 <= i < rest.len() implies (#[trigger] rest[i]).0 != key by {
            assert(rest[i] == pairs[i + 1]);
        }
        lemma_find_none(rest, key);
    }
}

proof fn lemma_find_at(pairs: Seq<(Seq<char>, Seq<char>)>, i: int)
    requires
        ascending(pairs),
        0 <= i < pairs.len(),
    ensures
        find(pairs, pairs[i].0) == Some(pairs[i].1),
    decreases pairs.len(),
{
    if i > 0 {
        let rest = pairs.drop_first();
        assert(precedes(pairs[0].0, pairs[i].0));
        lemma_precedes_irreflexive(pairs[i].0);
        assert forall|a: int, b: int| 0 <= a < b < rest.len() implies precedes(
            (#[trigger] rest[a]).0,
            (#[trigger] rest[b]).0,
        ) by {
            assert(rest[a] == pairs[a + 1] && rest[b] == pairs[b + 1]);
        }
        assert(rest[i - 1] == pairs[i]);
        lemma_find_at(rest, i - 1);
    }
}

/// Tags by key.
#[derive(Debug)]
pub struct Tags {
    entries: Vec<(String, String)>,
}

impl View for Tags {
    type V = Map<Seq<char>, Seq<char>>;

    open spec fn view(&self) -> Map<Seq<char>, Seq<char>> {
        as_map(self.pairs())
    }
}

impl Tags {
    #[verifier::type_invariant]
    closed spec fn valid(self) -> bool {
        ascending(pair_views(self.entries@))
    }

    /// Keys and values, in the order of the keys.
    pub closed spec fn pairs(self) -> Seq<(Seq<char>, Seq<char>)> {
        pair_views(self.entries@)
    }

    /// No tags.
    pub fn new() -> (r: Tags)
        ensures
            r.pairs().len() == 0,
            r@ == Map::<Seq<char>, Seq<char>>::empty(),
    {
        let r = Tags { entries: Vec::new() };
        assert(r@ =~= Map::<Seq<char>, Seq<char>>::empty());
        r
    }

    /// The tags with `value` at `key`, in place of what stood there.
    pub fn with(self, key: String, value: String) -> (r: Tags)
        ensures
            r@ == self@.insert(key@, value@),
            ascending(r.pairs()),
    {
        proof {
            use_type_invariant(&self);
        }
        let mut entries: Vec<(String, String)> = self.entries;
        let ghost old_pairs = pair_views(entries@);
        let ghost new_pair = (key@, value@);
        let n: usize = entries.len();
        let mut k: usize = 0;
        while k < n && before(entries[k].0.as_str(), key.as_str())
            invariant
                n == entries@.len(),
                k <= n,
                old_pairs == pair_views(entries@),
                forall|i: int| 0 <= i < k ==> precedes((#[trigger] old_pairs[i]).0, key@),
            decreases n - k,
        {
            assert(old_pairs[k as int].0 == entries@[k as int].0@);
            k += 1;
        }
        proof {
            if k < n {
                assert(old_pairs[k as int].0 == entries@[k as int].0@);
                assert(!precedes(old_pairs[k as int].0, key@));
            }
        }
        if k < n && same(entries[k].0.as_str(), key.as_str()) {
            entries.set(k, (key, value));
            proof {
                let new_pairs = pair_views(entries@);
                assert(new_pairs =~= old_pairs.update(k as int, new_pair));
                lemma_replaced(old_pairs, new_pair, k as int);
            }
        } else {
            entries.insert(k, (key, value));
            proof {
                let new_pairs = pair_views(entries@);
                assert(new_pairs =~= old_pairs.insert(k as int, new_pair));
                lemma_put_in(old_pairs, new_pair, k as int);
            }
        }
        Tags { entries }
    }

    /// The tags of a list of keys and values; of those with one key the last
    /// counts.
    pub fn from_pairs(pairs: &Vec<(String, String)>) -> (r: Tags)
        ensures
            r@ == collected(pair_views(pairs@)),
            ascending(r.pairs()),
    {
        let n: usize = pairs.len();
        let mut r: Tags = Tags::new();
        let mut i: usize = 0;
        let ghost all = pair_views(pairs@);
        assert(all.take(0) =~= Seq::empty());
        while i < n
            invariant
                n == pairs@.len(),
                i <= n,
                all == pair_views(pairs@),
                ascending(r.pairs()),
                r@ == collected(all.take(i as int)),
            decreases n - i,
        {
            proof {
                assert(all.take(i + 1).drop_last() =~= all.take(i as int));
                assert(all.take(i + 1).last() == (pairs@[i as int].0@, pairs@[i as int].1@));
            }
            r = r.with(pairs[i].0.clone(), pairs[i].1.clone());
            i += 1;
        }
        assert(all.take(n as int) =~= all);
        r
    }

    /// The value at `key`.
    pub fn get(&self, key: &str) -> (r: Option<&String>)
        ensures
            r is Some == self@.contains_key(key@),
            r matches Some(v) ==> v@ == self@[key@],
    {
        proof {
            use_type_invariant(self);
        }
        let n: usize = self.entries.len();
        let mut i: usize = 0;
        let ghost pairs = self.pairs();
        while i < n
            invariant
                n == self.entries@.len(),
                i <= n,
                pairs == pair_views(self.entries@),
                pairs == self.pairs(),
                ascending(pairs),
                forall|j: int| 0 <= j < i ==> (#[trigger] pairs[j]).0 != key@,
            decreases n - i,
        {
            assert(pairs[i as int] == (self.entries@[i as int].0@, self.entries@[i as int].1@));
            if same(self.entries[i].0.as_str(), key) {
                proof {
                    lemma_find_at(pairs, i as int);
                }
                return Some(&self.entries[i].1);
            }
            i += 1;
        }
        proof {
            lemma_find_none(pairs, key@);
        }
        None
    }

    /// Whether there is a value at `key`.
    pub fn contains_key(&self, key: &str) -> (r: bool)
        ensures
            r == self@.contains_key(key@),
    {
        self.get(key).is_some()
    }

    /// The number of tags.
    pub fn len(&self) -> (r: usize)
        ensures
            r == self.pairs().len(),
            ascending(self.pairs()),
    {
        proof {
            use_type_invariant(self);
        }
        self.entries.len()
    }

    /// Key and value at a position in the order of the keys.
    pub fn entry(&self, i: usize) -> (r: (&str, &str))
        requires
            i < self.pairs().len(),
        ensures
            (r.0@, r.1@) == self.pairs()[i as int],
    {
        (self.entries[i].0.as_str(), self.entries[i].1.as_str())
    }
}

/// The values by key of a list of keys and values, the last of each key.
pub open spec fn collected(pairs: Seq<(Seq<char>, Seq<char>)>) -> Map<Seq<char>, Seq<char>>
    decreases pairs.len(),
{
    if pairs.len() == 0 {
        Map::empty()
    } else {
        collected(pairs.drop_last()).insert(pairs.last().0, pairs.last().1)
    }
}

proof fn lemma_replaced(pairs: Seq<(Seq<char>, Seq<char>)>, p: (Seq<char>, Seq<char>), k: int)
    requires
        ascending(pairs),
        0 <= k < pairs.len(),
        pairs[k].0 == p.0,
    ensures
        ascending(pairs.update(k, p)),
        as_map(pairs.update(k, p)) == as_map(pairs).insert(p.0, p.1),
{
    let new_pairs = pairs.update(k, p);
    assert forall|i: int, j: int| 0 <= i < j < new_pairs.len() implies precedes(
        (#[trigger] new_pairs[i]).0,
        (#[trigger] new_pairs[j]).0,
    ) by {
        assert(new_pairs[i].0 == pairs[i].0 && new_pairs[j].0 == pairs[j].0);
    }
    assert forall|q: Seq<char>| #[trigger] find(new_pairs, q) == (if q == p.0 {
        Some(p.1)
    } else {
        find(pairs, q)
    }) by {
        if q == p.0 {
            lemma_find_at(new_pairs, k);
        } else {
            if exists|i: int| 0 <= i < pairs.len() && (#[trigger] pairs[i]).0 == q {
                let i = choose|i: int| 0 <= i < pairs.len() && (#[trigger] pairs[i]).0 == q;
                lemma_find_at(pairs, i);
                lemma_find_at(new_pairs, i);
                assert(new_pairs[i] == pairs[i]);
            } else {
                assert forall|i: int| 0 <= i < new_pairs.len() implies (#[trigger] new_pairs[i]).0
                    != q by {
                    assert(pairs[i].0 != q);
                }
                lemma_find_none(pairs, q);
                lemma_find_none(new_pairs, q);
            }
        }
    }
    assert(as_map(new_pairs) =~= as_map(pairs).insert(p.0, p.1));
}

proof fn lemma_put_in(pairs: Seq<(Seq<char>, Seq<char>)>, p: (Seq<char>, Seq<char>), k: int)
    requires
        ascending(pairs),
        0 <= k <= pairs.len(),
        forall|i: int| 0 <= i < k ==> precedes((#[trigger] pairs[i]).0, p.0),
        k < pairs.len() ==> !precedes(pairs[k].0, p.0) && pairs[k].0 != p.0,
    ensures
        ascending(pairs.insert(k, p)),
        as_map(pairs.insert(k, p)) == as_map(pairs).insert(p.0, p.1),
{
    let new_pairs = pairs.insert(k, p);
    assert forall|i: int| k <= i < pairs.len() implies precedes(p.0, (#[trigger] pairs[i]).0) by {
        lemma_precedes_total(pairs[k].0, p.0);
        if i > k {
            assert(precedes(pairs[k].0, pairs[i].0));
            lemma_precedes_transitive(p.0, pairs[k].0, pairs[i].0);
        }
    }
    assert forall|i: int, j: int| 0 <= i < j < new_pairs.len() implies precedes(
        (#[trigger] new_pairs[i]).0,
        (#[trigger] new_pairs[j]).0,
    ) by {
        let a = if i < k {
            i
        } else {
            i - 1
        };
        let b = if j < k {
            j
        } else {
            j - 1
        };
        if i != k {
            assert(new_pairs[i] == pairs[a]);
        }
        if j != k {
            assert(new_pairs[j] == pairs[b]);
        }
    }
    assert forall|q: Seq<char>| #[trigger] find(new_pairs, q) == (if q == p.0 {
        Some(p.1)
    } else {
        find(pairs, q)
    }) by {
        if q == p.0 {
            lemma_find_at(new_pairs, k);
        } else {
            if exists|i: int| 0 <= i < pairs.len() && (#[trigger] pairs[i]).0 == q {
                let i = choose|i: int| 0 <= i < pairs.len() && (#[trigger] pairs[i]).0 == q;
                let j = if i < k {
                    i
                } else {
                    i + 1
                };
                assert(new_pairs[j] == pairs[i]);
                lemma_find_at(pairs, i);
                lemma_find_at(new_pairs, j);
            } else {
                assert forall|i: int| 0 <= i < new_pairs.len() implies (#[trigger] new_pairs[i]).0
                    != q by {
                    let a = if i < k {
                        i
                    } else {
                        i - 1
                    };
                    if i != k {
                        assert(new_pairs[i] == pairs[a]);
                    }
                }
                lemma_find_none(pairs, q);
                lemma_find_none(new_pairs, q);
            }
        }
    }
    assert(as_map(new_pairs) =~= as_map(pairs).insert(p.0, p.1));
}

} // verus!
