//! The store of synset nodes, keyed by identifier.

use crate::hierarchy::SynsetNodeView;
use crate::synset::SynsetNode;
use vstd::prelude::*;

verus! {

/// The map that the first `n` pairs of `entries` make, a later pair standing
/// over an earlier one with the same key.
spec fn pairs_map(entries: Seq<(String, SynsetNode)>, n: int) -> Map<
    Seq<char>,
    SynsetNodeView,
>
    decreases n,
{
    if n <= 0 || n > entries.len() {
        Map::empty()
    } else {
        pairs_map(entries, n - 1).insert(entries[n - 1].0@, entries[n - 1].1@)
    }
}

/// Whether no key comes twice in `entries`.
spec fn distinct_keys(entries: Seq<(String, SynsetNode)>) -> bool {
    forall|i: int, j: int|
        0 <= i < j < entries.len() ==> (#[trigger] entries[i]).0@ != (#[trigger] entries[j]).0@
}

/// The map of the first `n` pairs looks at nothing behind them.
proof fn lemma_pairs_map_prefix(a: Seq<(String, SynsetNode)>, b: Seq<(String, SynsetNode)>, n: int)
    requires
        0 <= n <= a.len(),
        n <= b.len(),
        forall|i: int| 0 <= i < n ==> a[i] == b[i],
    ensures
        pairs_map(a, n) == pairs_map(b, n),
    decreases n,
{
    if n > 0 {
        lemma_pairs_map_prefix(a, b, n - 1);
    }
}

/// The keys of the map are the keys of the pairs, and there are finitely
/// many.
proof fn lemma_pairs_map_dom(entries: Seq<(String, SynsetNode)>, n: int)
    requires
        0 <= n <= entries.len(),
    ensures
        pairs_map(entries, n).dom().finite(),
        forall|k: Seq<char>|
            pairs_map(entries, n).dom().contains(k) <==> exists|i: int|
                0 <= i < n && (#[trigger] entries[i]).0@ == k,
    decreases n,
{
    if n > 0 {
        lemma_pairs_map_dom(entries, n - 1);
        let before = pairs_map(entries, n - 1);
        let key = entries[n - 1].0@;
        assert forall|k: Seq<char>|
            pairs_map(entries, n).dom().contains(k) <==> exists|i: int|
                0 <= i < n && (#[trigger] entries[i]).0@ == k by {
            if k == key {
                assert(entries[n - 1].0@ == k);
            } else if before.dom().contains(k) {
                let i = choose|i: int| 0 <= i < n - 1 && (#[trigger] entries[i]).0@ == k;
                assert(0 <= i < n && entries[i].0@ == k);
            }
        }
    }
}

/// Where no key comes twice, each pair's node is found under its key, and
/// the map holds as many keys as there are pairs.
proof fn lemma_pairs_map_distinct(entries: Seq<(String, SynsetNode)>, n: int)
    requires
        0 <= n <= entries.len(),
        distinct_keys(entries),
    ensures
        pairs_map(entries, n).len() == n,
        forall|i: int|
            0 <= i < n ==> pairs_map(entries, n).dom().contains((#[trigger] entries[i]).0@)
                && pairs_map(entries, n)[entries[i].0@] == entries[i].1@,
    decreases n,
{
    if n > 0 {
        lemma_pairs_map_distinct(entries, n - 1);
        lemma_pairs_map_dom(entries, n - 1);
        let before = pairs_map(entries, n - 1);
        let key = entries[n - 1].0@;
        if before.dom().contains(key) {
            let i = choose|i: int| 0 <= i < n - 1 && (#[trigger] entries[i]).0@ == key;
            assert(entries[i].0@ != entries[n - 1].0@);
        }
        assert(pairs_map(entries, n).dom() =~= before.dom().insert(key));
        assert forall|i: int| 0 <= i < n implies pairs_map(entries, n).dom().contains(
            (#[trigger] entries[i]).0@,
        ) && pairs_map(entries, n)[entries[i].0@] == entries[i].1@ by {
            if i < n - 1 {
                assert(entries[i].0@ != entries[n - 1].0@);
            }
        }
    }
}

/// Putting another node under the key of pair `i` changes the map as an
/// insertion under that key does.
proof fn lemma_pairs_map_update(
    entries: Seq<(String, SynsetNode)>,
    n: int,
    i: int,
    pair: (String, SynsetNode),
)
    requires
        0 <= i < entries.len(),
        0 <= n <= entries.len(),
        distinct_keys(entries),
        pair.0@ == entries[i].0@,
    ensures
        pairs_map(entries.update(i, pair), n) == if i < n {
            pairs_map(entries, n).insert(pair.0@, pair.1@)
        } else {
            pairs_map(entries, n)
        },
    decreases n,
{
    let changed = entries.update(i, pair);
    if n > 0 {
        lemma_pairs_map_update(entries, n - 1, i, pair);
        if i == n - 1 {
            assert(pairs_map(changed, n) =~= pairs_map(entries, n).insert(pair.0@, pair.1@));
        } else if i < n - 1 {
            assert(entries[i].0@ != entries[n - 1].0@);
            assert(pairs_map(changed, n) =~= pairs_map(entries, n).insert(pair.0@, pair.1@));
        }
    }
}

/// Synset nodes by identifier.
#[derive(Debug, Clone)]
pub struct SynsetMap {
    entries: Vec<(String, SynsetNode)>,
}

impl View for SynsetMap {
    type V = Map<Seq<char>, SynsetNodeView>;

    closed spec fn view(&self) -> Map<Seq<char>, SynsetNodeView> {
        pairs_map(self.entries@, self.entries@.len() as int)
    }
}

impl SynsetMap {
    /// Whether the store is well formed: no key stands in it twice. Every
    /// store that this module hands out is.
    pub closed spec fn wf(&self) -> bool {
        distinct_keys(self.entries@)
    }

    /// An empty store.
    pub fn new() -> (r: SynsetMap)
        ensures
            r.wf(),
            r@ == Map::<Seq<char>, SynsetNodeView>::empty(),
    {
        SynsetMap { entries: Vec::new() }
    }

    /// Number of nodes.
    pub fn len(&self) -> (r: usize)
        requires
            self.wf(),
        ensures
            r == self@.len(),
            self@.dom().finite(),
    {
        proof {
            lemma_pairs_map_distinct(self.entries@, self.entries@.len() as int);
            lemma_pairs_map_dom(self.entries@, self.entries@.len() as int);
        }
        self.entries.len()
    }

    /// Whether the store holds no node.
    pub fn is_empty(&self) -> (r: bool)
        requires
            self.wf(),
        ensures
            r == (self@.len() == 0),
            self@.dom().finite(),
    {
        self.len() == 0
    }

    /// Position of `key` among the entries.
    fn position(&self, key: &String) -> (r: Option<usize>)
        ensures
            match r {
                Some(i) => i < self.entries@.len() && self.entries@[i as int].0@ == key@,
                None => forall|i: int|
                    0 <= i < self.entries@.len() ==> (#[trigger] self.entries@[i]).0@ != key@,
            },
    {
        let mut i: usize = 0;
        while i < self.entries.len()
            invariant
                i <= self.entries@.len(),
                forall|k: int| 0 <= k < i ==> (#[trigger] self.entries@[k]).0@ != key@,
            decreases self.entries@.len() - i,
        {
            if self.entries[i].0 == *key {
                return Some(i);
            }
            i += 1;
        }
        None
    }

    /// The node under `key`, if there is one.
    pub fn get(&self, key: &str) -> (r: Option<&SynsetNode>)
        requires
            self.wf(),
        ensures
            match r {
                Some(node) => self@.dom().contains(key@) && node@ == self@[key@],
                None => !self@.dom().contains(key@),
            },
    {
        let owned = key.to_owned();
        proof {
            lemma_pairs_map_distinct(self.entries@, self.entries@.len() as int);
            lemma_pairs_map_dom(self.entries@, self.entries@.len() as int);
        }
        match self.position(&owned) {
            Some(i) => Some(&self.entries[i].1),
            None => None,
        }
    }

    /// Whether a node stands under `key`.
    pub fn contains_key(&self, key: &str) -> (r: bool)
        requires
            self.wf(),
        ensures
            r == self@.dom().contains(key@),
    {
        self.get(key).is_some()
    }

    /// The keys with their nodes, each key once, in no order that callers can
    /// rely on.
    pub fn entries(&self) -> (r: &[(String, SynsetNode)])
        requires
            self.wf(),
        ensures
            r@.len() == self@.len(),
            forall|i: int|
                0 <= i < r@.len() ==> self@.dom().contains((#[trigger] r@[i]).0@) && self@[r@[i].0@]
                    == r@[i].1@,
            forall|i: int, j: int|
                0 <= i < j < r@.len() ==> (#[trigger] r@[i]).0@ != (#[trigger] r@[j]).0@,
    {
        proof {
            lemma_pairs_map_distinct(self.entries@, self.entries@.len() as int);
        }
        self.entries.as_slice()
    }

    /// Puts `node` under `key`. A node that stood there before is replaced.
    pub fn insert(&mut self, key: String, node: SynsetNode)
        requires
            old(self).wf(),
        ensures
            final(self).wf(),
            final(self)@ == old(self)@.insert(key@, node@),
    {
        let ghost before = self.entries@;
        let ghost n = before.len() as int;
        match self.position(&key) {
            Some(i) => {
                proof {
                    lemma_pairs_map_update(before, n, i as int, (key, node));
                }
                self.entries.set(i, (key, node));
            },
            None => {
                self.entries.push((key, node));
                proof {
                    lemma_pairs_map_prefix(before, self.entries@, n);
                }
            },
        }
    }
}

} // verus!
