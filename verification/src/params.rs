//! A deployment's parameter map: key/value pairs of strings, stored sorted by
//! key so that rendering and command construction are canonical in the map's
//! contents, independent of insertion order.

use vstd::prelude::*;
use vstd::map::*;
use vstd::multiset::Multiset;
use crate::text::{
    lex_le, lex_lt, str_le, str_lt, lemma_lex_le_refl, lemma_lex_le_total, lemma_lex_le_antisym,
    lemma_lex_le_trans, join_with, lemma_join_with_push,
};

verus! {

/// The views of a sequence of string pairs.
pub open spec fn pair_views(s: Seq<(String, String)>) -> Seq<(Seq<char>, Seq<char>)> {
    s.map_values(|p: (String, String)| (p.0@, p.1@))
}

/// The finite map described by a sequence of key/value entries; a later entry
/// for the same key wins.
pub open spec fn map_of(s: Seq<(Seq<char>, Seq<char>)>) -> Map<Seq<char>, Seq<char>>
    decreases s.len(),
{
    if s.len() == 0 {
        Map::empty()
    } else {
        map_of(s.drop_last()).insert(s.last().0, s.last().1)
    }
}

/// No two entries share a key.
pub open spec fn unique_keys(s: Seq<(Seq<char>, Seq<char>)>) -> bool {
    forall|i: int, j: int| 0 <= i < j < s.len() ==> s[i].0 != s[j].0
}

/// Entries are in strictly increasing key order.
pub open spec fn sorted_keys(s: Seq<(Seq<char>, Seq<char>)>) -> bool {
    forall|i: int, j: int| 0 <= i < j < s.len() ==> lex_lt(s[i].0, s[j].0)
}

pub proof fn lemma_sorted_implies_unique(s: Seq<(Seq<char>, Seq<char>)>)
    requires
        sorted_keys(s),
    ensures
        unique_keys(s),
{
    assert forall|i: int, j: int| 0 <= i < j < s.len() implies s[i].0 != s[j].0 by {
        assert(lex_lt(s[i].0, s[j].0));
    }
}

/// A key is in the map exactly when some entry carries it.
pub proof fn lemma_map_of_contains(s: Seq<(Seq<char>, Seq<char>)>, k: Seq<char>)
    ensures
        map_of(s).contains_key(k) <==> (exists|i: int| 0 <= i < s.len() && s[i].0 == k),
    decreases s.len(),
{
    if s.len() > 0 {
        lemma_map_of_contains(s.drop_last(), k);
        if map_of(s).contains_key(k) {
            if k == s.last().0 {
                assert(s[s.len() - 1].0 == k);
            } else {
                let i: int = choose|i: int|
                    0 <= i < s.drop_last().len() && s.drop_last()[i].0 == k;
                assert(s[i].0 == k);
            }
        }
        if exists|i: int| 0 <= i < s.len() && s[i].0 == k {
            let i: int = choose|i: int| 0 <= i < s.len() && s[i].0 == k;
            if i < s.len() - 1 {
                assert(s.drop_last()[i].0 == k);
            }
        }
    }
}

/// With unique keys, each entry's value is the map's value at its key.
pub proof fn lemma_map_of_index(s: Seq<(Seq<char>, Seq<char>)>, i: int)
    requires
        unique_keys(s),
        0 <= i < s.len(),
    ensures
        map_of(s).contains_key(s[i].0),
        map_of(s)[s[i].0] == s[i].1,
    decreases s.len(),
{
    if i < s.len() - 1 {
        let dl = s.drop_last();
        assert(dl[i] == s[i]);
        assert forall|x: int, y: int| 0 <= x < y < dl.len() implies dl[x].0 != dl[y].0 by {
            assert(dl[x] == s[x]);
            assert(dl[y] == s[y]);
        }
        lemma_map_of_index(dl, i);
        assert(s[i].0 != s[s.len() - 1].0);
    }
}

/// Inserting an entry with a fresh key at any position inserts its binding.
pub proof fn lemma_map_of_insert_at(
    s: Seq<(Seq<char>, Seq<char>)>,
    i: int,
    k: Seq<char>,
    v: Seq<char>,
)
    requires
        unique_keys(s),
        0 <= i <= s.len(),
        forall|j: int| 0 <= j < s.len() ==> s[j].0 != k,
    ensures
        map_of(s.insert(i, (k, v))) == map_of(s).insert(k, v),
{
    let t = s.insert(i, (k, v));
    s.insert_ensures(i, (k, v));
    assert forall|x: int, y: int| 0 <= x < y < t.len() implies t[x].0 != t[y].0 by {
        if y < i {
            assert(t[x] == s[x] && t[y] == s[y]);
        } else if x < i && y == i {
            assert(t[x] == s[x] && t[y] == (k, v));
        } else if x < i && y > i {
            assert(t[x] == s[x] && t[y] == s[y - 1]);
        } else if x == i {
            assert(t[x] == (k, v) && t[y] == s[y - 1]);
        } else {
            assert(t[x] == s[x - 1] && t[y] == s[y - 1]);
        }
    }
    assert_maps_equal!(map_of(t), map_of(s).insert(k, v), key => {
        lemma_map_of_contains(t, key);
        lemma_map_of_contains(s, key);
        if key == k {
            assert(t[i].0 == k);
            lemma_map_of_index(t, i);
        } else {
            if exists|j: int| 0 <= j < s.len() && s[j].0 == key {
                let j: int = choose|j: int| 0 <= j < s.len() && s[j].0 == key;
                lemma_map_of_index(s, j);
                let jt: int = if j < i { j } else { j + 1 };
                assert(t[jt] == s[j]);
                lemma_map_of_index(t, jt);
            } else {
                if map_of(t).contains_key(key) {
                    let j: int = choose|j: int| 0 <= j < t.len() && t[j].0 == key;
                    if j < i {
                        assert(s[j].0 == key);
                    } else if j > i {
                        assert(s[j - 1].0 == key);
                    }
                    assert(false);
                }
            }
        }
    });
}

/// Replacing the value of an entry inserts the new binding for its key.
pub proof fn lemma_map_of_update_at(s: Seq<(Seq<char>, Seq<char>)>, i: int, v: Seq<char>)
    requires
        unique_keys(s),
        0 <= i < s.len(),
    ensures
        map_of(s.update(i, (s[i].0, v))) == map_of(s).insert(s[i].0, v),
{
    let t = s.update(i, (s[i].0, v));
    let k = s[i].0;
    assert forall|x: int, y: int| 0 <= x < y < t.len() implies t[x].0 != t[y].0 by {
        assert(t[x].0 == s[x].0);
        assert(t[y].0 == s[y].0);
    }
    assert_maps_equal!(map_of(t), map_of(s).insert(k, v), key => {
        lemma_map_of_contains(t, key);
        lemma_map_of_contains(s, key);
        if key == k {
            assert(t[i].0 == k && t[i].1 == v);
            lemma_map_of_index(t, i);
        } else {
            if exists|j: int| 0 <= j < s.len() && s[j].0 == key {
                let j: int = choose|j: int| 0 <= j < s.len() && s[j].0 == key;
                lemma_map_of_index(s, j);
                assert(j != i);
                assert(t[j] == s[j]);
                lemma_map_of_index(t, j);
            } else {
                if map_of(t).contains_key(key) {
                    let j: int = choose|j: int| 0 <= j < t.len() && t[j].0 == key;
                    assert(s[j].0 == key);
                    assert(false);
                }
            }
        }
    });
}

/// Strict order on keys makes the entry sequence canonical: two sorted entry
/// sequences that describe the same map are the same sequence.
pub proof fn lemma_sorted_entries_canonical(
    a: Seq<(Seq<char>, Seq<char>)>,
    b: Seq<(Seq<char>, Seq<char>)>,
)
    requires
        sorted_keys(a),
        sorted_keys(b),
        map_of(a) == map_of(b),
    ensures
        a == b,
    decreases a.len(),
{
    lemma_sorted_implies_unique(a);
    lemma_sorted_implies_unique(b);
    if a.len() == 0 {
        if b.len() > 0 {
            assert(b[b.len() - 1].0 == b.last().0);
            lemma_map_of_contains(b, b.last().0);
            lemma_map_of_contains(a, b.last().0);
            assert(false);
        }
        assert(a =~= b);
    } else if b.len() == 0 {
        assert(a[a.len() - 1].0 == a.last().0);
        lemma_map_of_contains(a, a.last().0);
        lemma_map_of_contains(b, a.last().0);
        assert(false);
    } else {
        let ka = a.last().0;
        let kb = b.last().0;
        assert(a[a.len() - 1].0 == ka);
        assert(b[b.len() - 1].0 == kb);
        lemma_map_of_contains(a, ka);
        lemma_map_of_contains(b, ka);
        lemma_map_of_contains(a, kb);
        lemma_map_of_contains(b, kb);
        let ja: int = choose|j: int| 0 <= j < b.len() && b[j].0 == ka;
        if ja < b.len() - 1 {
            assert(lex_lt(b[ja].0, kb));
        } else {
            lemma_lex_le_refl(ka);
        }
        assert(lex_le(ka, kb));
        let jb: int = choose|j: int| 0 <= j < a.len() && a[j].0 == kb;
        if jb < a.len() - 1 {
            assert(lex_lt(a[jb].0, ka));
        } else {
            lemma_lex_le_refl(kb);
        }
        assert(lex_le(kb, ka));
        lemma_lex_le_antisym(ka, kb);
        lemma_map_of_index(a, a.len() - 1);
        lemma_map_of_index(b, b.len() - 1);
        assert(a.last().1 == b.last().1);
        let a1 = a.drop_last();
        let b1 = b.drop_last();
        assert forall|x: int, y: int| 0 <= x < y < a1.len() implies lex_lt(a1[x].0, a1[y].0) by {
            assert(a1[x] == a[x] && a1[y] == a[y]);
        }
        assert forall|x: int, y: int| 0 <= x < y < b1.len() implies lex_lt(b1[x].0, b1[y].0) by {
            assert(b1[x] == b[x] && b1[y] == b[y]);
        }
        assert_maps_equal!(map_of(a1), map_of(a).remove(ka), key => {
            lemma_map_of_contains(a1, key);
            lemma_map_of_contains(a, key);
            if key != ka {
                if exists|j: int| 0 <= j < a1.len() && a1[j].0 == key {
                    let j: int = choose|j: int| 0 <= j < a1.len() && a1[j].0 == key;
                    assert(a1[j] == a[j]);
                    lemma_map_of_index(a1, j);
                    lemma_map_of_index(a, j);
                } else {
                    if map_of(a).contains_key(key) {
                        let j: int = choose|j: int| 0 <= j < a.len() && a[j].0 == key;
                        assert(j == a.len() - 1);
                        assert(false);
                    }
                }
            } else {
                if map_of(a1).contains_key(key) {
                    let j: int = choose|j: int| 0 <= j < a1.len() && a1[j].0 == key;
                    assert(a1[j] == a[j]);
                    assert(false);
                }
            }
        });
        assert_maps_equal!(map_of(b1), map_of(b).remove(kb), key => {
            lemma_map_of_contains(b1, key);
            lemma_map_of_contains(b, key);
            if key != kb {
                if exists|j: int| 0 <= j < b1.len() && b1[j].0 == key {
                    let j: int = choose|j: int| 0 <= j < b1.len() && b1[j].0 == key;
                    assert(b1[j] == b[j]);
                    lemma_map_of_index(b1, j);
                    lemma_map_of_index(b, j);
                } else {
                    if map_of(b).contains_key(key) {
                        let j: int = choose|j: int| 0 <= j < b.len() && b[j].0 == key;
                        assert(j == b.len() - 1);
                        assert(false);
                    }
                }
            } else {
                if map_of(b1).contains_key(key) {
                    let j: int = choose|j: int| 0 <= j < b1.len() && b1[j].0 == key;
                    assert(b1[j] == b[j]);
                    assert(false);
                }
            }
        });
        lemma_sorted_entries_canonical(a1, b1);
        assert(a.len() == b.len());
        assert forall|i: int| 0 <= i < a.len() implies a[i] == b[i] by {
            if i < a.len() - 1 {
                assert(a1[i] == a[i] && b1[i] == b[i]);
            } else {
                assert(a[i] == a.last() && b[i] == b.last());
                assert(a.last().0 == b.last().0 && a.last().1 == b.last().1);
                assert(a.last() == (a.last().0, a.last().1));
                assert(b.last() == (b.last().0, b.last().1));
            }
        }
        assert(a =~= b);
    }
}

/// Two sorted entry sequences whose maps bind the same key set list those
/// keys identically, whatever the values are.
pub proof fn lemma_sorted_same_keys(
    a: Seq<(Seq<char>, Seq<char>)>,
    b: Seq<(Seq<char>, Seq<char>)>,
)
    requires
        sorted_keys(a),
        sorted_keys(b),
        forall|k: Seq<char>| map_of(a).contains_key(k) <==> map_of(b).contains_key(k),
    ensures
        a.len() == b.len(),
        forall|i: int| 0 <= i < a.len() ==> (#[trigger] a[i]).0 == b[i].0,
    decreases a.len(),
{
    lemma_sorted_implies_unique(a);
    lemma_sorted_implies_unique(b);
    if a.len() == 0 {
        if b.len() > 0 {
            assert(b[b.len() - 1].0 == b.last().0);
            lemma_map_of_contains(b, b.last().0);
            lemma_map_of_contains(a, b.last().0);
            assert(false);
        }
    } else if b.len() == 0 {
        assert(a[a.len() - 1].0 == a.last().0);
        lemma_map_of_contains(a, a.last().0);
        lemma_map_of_contains(b, a.last().0);
        assert(false);
    } else {
        let ka = a.last().0;
        let kb = b.last().0;
        assert(a[a.len() - 1].0 == ka);
        assert(b[b.len() - 1].0 == kb);
        lemma_map_of_contains(a, ka);
        lemma_map_of_contains(b, ka);
        lemma_map_of_contains(a, kb);
        lemma_map_of_contains(b, kb);
        let ja: int = choose|j: int| 0 <= j < b.len() && b[j].0 == ka;
        if ja < b.len() - 1 {
            assert(lex_lt(b[ja].0, kb));
        } else {
            lemma_lex_le_refl(ka);
        }
        assert(lex_le(ka, kb));
        let jb: int = choose|j: int| 0 <= j < a.len() && a[j].0 == kb;
        if jb < a.len() - 1 {
            assert(lex_lt(a[jb].0, ka));
        } else {
            lemma_lex_le_refl(kb);
        }
        assert(lex_le(kb, ka));
        lemma_lex_le_antisym(ka, kb);
        let a1 = a.drop_last();
        let b1 = b.drop_last();
        assert forall|x: int, y: int| 0 <= x < y < a1.len() implies lex_lt(a1[x].0, a1[y].0) by {
            assert(a1[x] == a[x] && a1[y] == a[y]);
        }
        assert forall|x: int, y: int| 0 <= x < y < b1.len() implies lex_lt(b1[x].0, b1[y].0) by {
            assert(b1[x] == b[x] && b1[y] == b[y]);
        }
        assert forall|k: Seq<char>| map_of(a1).contains_key(k) <==> map_of(
            b1,
        ).contains_key(k) by {
            lemma_map_of_contains(a1, k);
            lemma_map_of_contains(b1, k);
            lemma_map_of_contains(a, k);
            lemma_map_of_contains(b, k);
            if map_of(a1).contains_key(k) {
                let j: int = choose|j: int| 0 <= j < a1.len() && a1[j].0 == k;
                assert(a1[j] == a[j]);
                assert(k != ka);
                assert(map_of(b).contains_key(k));
                let j2: int = choose|j2: int| 0 <= j2 < b.len() && b[j2].0 == k;
                assert(j2 != b.len() - 1);
                assert(b1[j2] == b[j2]);
            }
            if map_of(b1).contains_key(k) {
                let j: int = choose|j: int| 0 <= j < b1.len() && b1[j].0 == k;
                assert(b1[j] == b[j]);
                assert(k != kb);
                assert(map_of(a).contains_key(k));
                let j2: int = choose|j2: int| 0 <= j2 < a.len() && a[j2].0 == k;
                assert(j2 != a.len() - 1);
                assert(a1[j2] == a[j2]);
            }
        }
        lemma_sorted_same_keys(a1, b1);
        assert(a.len() == b.len());
        assert forall|i: int| 0 <= i < a.len() implies (#[trigger] a[i]).0 == b[i].0 by {
            if i < a.len() - 1 {
                assert(a1[i] == a[i] && b1[i] == b[i]);
                assert(a1[i].0 == b1[i].0);
            }
        }
    }
}

/// Inserting on the right side of a union is inserting into the union.
pub proof fn lemma_union_insert_right(
    m1: Map<Seq<char>, Seq<char>>,
    m2: Map<Seq<char>, Seq<char>>,
    k: Seq<char>,
    v: Seq<char>,
)
    ensures
        m1.union_prefer_right(m2.insert(k, v)) == m1.union_prefer_right(m2).insert(k, v),
{
    assert_maps_equal!(
        m1.union_prefer_right(m2.insert(k, v)),
        m1.union_prefer_right(m2).insert(k, v),
    );
}

/// A mapping of parameter names to values, kept in strictly increasing key
/// order; its view is the finite map it holds.
pub struct ParamMap {
    entries: Vec<(String, String)>,
}

impl View for ParamMap {
    type V = Map<Seq<char>, Seq<char>>;

    open spec fn view(&self) -> Map<Seq<char>, Seq<char>> {
        map_of(self.entry_views())
    }
}

impl ParamMap {
    /// The stored entries, as views, in stored order.
    pub closed spec fn entry_views(self) -> Seq<(Seq<char>, Seq<char>)> {
        pair_views(self.entries@)
    }

    /// Entries are strictly sorted by key.
    pub open spec fn wf(self) -> bool {
        sorted_keys(self.entry_views())
    }

    /// An empty parameter map.
    pub fn new() -> (r: ParamMap)
        ensures
            r.wf(),
            r@ == Map::<Seq<char>, Seq<char>>::empty(),
            r.entry_views() == Seq::<(Seq<char>, Seq<char>)>::empty(),
    {
        let r = ParamMap { entries: Vec::new() };
        proof {
            assert(r.entry_views() =~= Seq::<(Seq<char>, Seq<char>)>::empty());
        }
        r
    }

    /// The number of entries.
    pub fn len(&self) -> (r: usize)
        ensures
            r == self.entry_views().len(),
    {
        self.entries.len()
    }

    /// Whether the map holds no entry.
    pub fn is_empty(&self) -> (r: bool)
        ensures
            r == (self.entry_views().len() == 0),
            r == (self@ == Map::<Seq<char>, Seq<char>>::empty()),
    {
        let r = self.entries.len() == 0;
        proof {
            if r {
                assert(self@ =~= Map::<Seq<char>, Seq<char>>::empty());
            } else {
                let views = self.entry_views();
                assert(views[0].0 == views[0].0);
                lemma_map_of_contains(views, views[0].0);
                assert(self@.contains_key(views[0].0));
            }
        }
        r
    }

    /// The stored entries, sorted by key.
    pub fn pairs(&self) -> (r: &Vec<(String, String)>)
        ensures
            pair_views(r@) == self.entry_views(),
    {
        &self.entries
    }

    /// Binds `key` to `value`, replacing any previous binding.
    pub fn insert(&mut self, key: String, value: String)
        requires
            old(self).wf(),
        ensures
            final(self).wf(),
            final(self)@ == old(self)@.insert(key@, value@),
    {
        let n = self.entries.len();
        let mut idx: usize = 0;
        while idx < n && str_lt(self.entries[idx].0.as_str(), key.as_str())
            invariant
                idx <= n,
                n == self.entries@.len(),
                self == old(self),
                forall|j: int| 0 <= j < idx ==> lex_lt(#[trigger] self.entry_views()[j].0, key@),
            decreases n - idx,
        {
            assert(self.entry_views()[idx as int].0 == self.entries@[idx as int].0@);
            idx = idx + 1;
        }
        let ghost old_views = self.entry_views();
        let ghost i = idx as int;
        let ghost kv = key@;
        let ghost vv = value@;
        proof {
            lemma_sorted_implies_unique(old_views);
        }
        let same: bool = idx < n && self.entries[idx].0 == key;
        let ghost elem: (String, String) = (key, value);
        if same {
            proof {
                assert(old_views[i].0 == kv);
            }
            self.entries.set(idx, (key, value));
            proof {
                let new_views = self.entry_views();
                assert(self.entries@ == old(self).entries@.update(i, elem));
                assert forall|j: int| 0 <= j < new_views.len()
                    implies new_views[j] == old_views.update(i, (old_views[i].0, vv))[j] by {
                    if j != i {
                        assert(self.entries@[j] == old(self).entries@[j]);
                    } else {
                        assert(self.entries@[i] == elem);
                    }
                }
                assert(new_views =~= old_views.update(i, (old_views[i].0, vv)));
                assert forall|x: int, y: int| 0 <= x < y < new_views.len()
                    implies lex_lt(new_views[x].0, new_views[y].0) by {
                    assert(new_views[x].0 == old_views[x].0);
                    assert(new_views[y].0 == old_views[y].0);
                    assert(lex_lt(old_views[x].0, old_views[y].0));
                }
                lemma_map_of_update_at(old_views, i, vv);
                assert(self@ == old(self)@.insert(kv, vv));
            }
        } else {
            proof {
                if idx < n {
                    assert(!lex_lt(old_views[i].0, kv));
                    assert(old_views[i].0 != kv);
                    lemma_lex_le_total(old_views[i].0, kv);
                    if lex_le(old_views[i].0, kv) {
                        lemma_lex_le_antisym(old_views[i].0, kv);
                        assert(false);
                    }
                    assert(lex_lt(kv, old_views[i].0));
                }
                assert forall|j: int| 0 <= j < old_views.len()
                    implies #[trigger] old_views[j].0 != kv by {
                    if j < i {
                        assert(lex_lt(old_views[j].0, kv));
                    } else {
                        assert(lex_lt(kv, old_views[i].0));
                        if j > i {
                            assert(lex_lt(old_views[i].0, old_views[j].0));
                            lemma_lex_le_trans(kv, old_views[i].0, old_views[j].0);
                            if old_views[j].0 == kv {
                                lemma_lex_le_antisym(old_views[i].0, old_views[j].0);
                                assert(false);
                            }
                        }
                    }
                }
            }
            self.entries.insert(idx, (key, value));
            proof {
                let new_views = self.entry_views();
                assert(self.entries@ == old(self).entries@.insert(i, elem));
                old(self).entries@.insert_ensures(i, elem);
                old_views.insert_ensures(i, (kv, vv));
                let t = old_views.insert(i, (kv, vv));
                assert(new_views =~= t) by {
                    assert forall|j: int| 0 <= j < new_views.len()
                        implies new_views[j] == t[j] by {
                        if j < i {
                            assert(self.entries@[j] == old(self).entries@[j]);
                            assert(t[j] == old_views[j]);
                        } else if j == i {
                            assert(self.entries@[i] == elem);
                            assert(t[i] == (kv, vv));
                        } else {
                            assert(self.entries@[j] == old(self).entries@[j - 1]);
                            assert(t[j] == old_views[j - 1]);
                        }
                    }
                }
                assert forall|x: int, y: int| 0 <= x < y < t.len()
                    implies lex_lt(t[x].0, t[y].0) by {
                    if y < i {
                        assert(t[x] == old_views[x] && t[y] == old_views[y]);
                    } else if x < i && y == i {
                        assert(t[x] == old_views[x] && t[y] == (kv, vv));
                        assert(lex_lt(old_views[x].0, kv));
                    } else if x < i && y > i {
                        assert(t[x] == old_views[x] && t[y] == old_views[y - 1]);
                    } else if x == i {
                        assert(t[x] == (kv, vv) && t[y] == old_views[y - 1]);
                        assert(lex_lt(kv, old_views[i].0));
                        if y - 1 > i {
                            assert(lex_lt(old_views[i].0, old_views[y - 1].0));
                            crate::text::lemma_lex_lt_trans(
                                kv,
                                old_views[i].0,
                                old_views[y - 1].0,
                            );
                        }
                    } else {
                        assert(t[x] == old_views[x - 1] && t[y] == old_views[y - 1]);
                    }
                }
                lemma_map_of_insert_at(old_views, i, kv, vv);
                assert(self@ == old(self)@.insert(kv, vv));
            }
        }
    }

    /// The value bound to `key`, if any.
    pub fn get(&self, key: &String) -> (r: Option<&String>)
        requires
            self.wf(),
        ensures
            match r {
                Some(v) => self@.contains_key(key@) && v@ == self@[key@],
                None => !self@.contains_key(key@),
            },
    {
        let n = self.entries.len();
        let mut i: usize = 0;
        while i < n
            invariant
                i <= n,
                n == self.entries@.len(),
                self.wf(),
                forall|j: int| 0 <= j < i ==> #[trigger] self.entry_views()[j].0 != key@,
            decreases n - i,
        {
            if self.entries[i].0 == *key {
                proof {
                    lemma_sorted_implies_unique(self.entry_views());
                    lemma_map_of_index(self.entry_views(), i as int);
                }
                return Some(&self.entries[i].1);
            }
            proof {
                assert(self.entry_views()[i as int].0 == self.entries@[i as int].0@);
            }
            i = i + 1;
        }
        proof {
            lemma_map_of_contains(self.entry_views(), key@);
        }
        None
    }

    /// The union of `self` and `overrides`, where a key present in both takes
    /// the value from `overrides` and every other key keeps its value.
    pub fn merged_with(&self, overrides: &ParamMap) -> (r: ParamMap)
        requires
            self.wf(),
            overrides.wf(),
        ensures
            r.wf(),
            r@ == self@.union_prefer_right(overrides@),
            forall|k: Seq<char>| #[trigger] overrides@.contains_key(k) ==> r@.contains_key(k)
                && r@[k] == overrides@[k],
            forall|k: Seq<char>| self@.contains_key(k) && !overrides@.contains_key(k)
                ==> #[trigger] r@.contains_key(k) && r@[k] == self@[k],
            forall|k: Seq<char>| #[trigger] r@.contains_key(k) ==> self@.contains_key(k)
                || overrides@.contains_key(k),
    {
        let mut r = self.clone();
        let ov = overrides.pairs();
        let n = ov.len();
        let mut i: usize = 0;
        proof {
            let ovs = overrides.entry_views();
            assert(map_of(ovs.take(0)) =~= Map::<Seq<char>, Seq<char>>::empty()) by {
                assert(ovs.take(0) =~= Seq::<(Seq<char>, Seq<char>)>::empty());
            }
            assert(r@ =~= self@.union_prefer_right(map_of(ovs.take(0))));
        }
        while i < n
            invariant
                i <= n,
                n == ov@.len(),
                pair_views(ov@) == overrides.entry_views(),
                r.wf(),
                r@ == self@.union_prefer_right(
                    map_of(overrides.entry_views().take(i as int)),
                ),
            decreases n - i,
        {
            let k = ov[i].0.clone();
            let v = ov[i].1.clone();
            proof {
                let ovs = overrides.entry_views();
                assert(ovs[i as int] == (ov@[i as int].0@, ov@[i as int].1@));
                assert(k@ == ovs[i as int].0 && v@ == ovs[i as int].1);
            }
            r.insert(k, v);
            proof {
                let ovs = overrides.entry_views();
                assert(ovs.take(i + 1).drop_last() =~= ovs.take(i as int));
                assert(ovs.take(i + 1).last() == ovs[i as int]);
                assert(map_of(ovs.take(i + 1)) == map_of(ovs.take(i as int)).insert(
                    ovs[i as int].0,
                    ovs[i as int].1,
                ));
                lemma_union_insert_right(
                    self@,
                    map_of(ovs.take(i as int)),
                    ovs[i as int].0,
                    ovs[i as int].1,
                );
            }
            i = i + 1;
        }
        proof {
            assert(overrides.entry_views().take(n as int) =~= overrides.entry_views());
        }
        r
    }
}

impl Clone for ParamMap {
    /// An entry-for-entry copy describing the same map.
    fn clone(&self) -> (r: Self)
        ensures
            r.entry_views() == self.entry_views(),
            r@ == self@,
            r.wf() == self.wf(),
    {
        let n = self.entries.len();
        let mut es: Vec<(String, String)> = Vec::new();
        let mut i: usize = 0;
        while i < n
            invariant
                i <= n,
                n == self.entries@.len(),
                es@.len() == i,
                forall|j: int| 0 <= j < i ==> #[trigger] es@[j].0@ == self.entries@[j].0@
                    && es@[j].1@ == self.entries@[j].1@,
            decreases n - i,
        {
            let k = self.entries[i].0.clone();
            let v = self.entries[i].1.clone();
            es.push((k, v));
            i = i + 1;
        }
        let r = ParamMap { entries: es };
        proof {
            assert(r.entry_views() =~= self.entry_views());
        }
        r
    }
}

/// Where a pair belongs in a sorted sequence: after every entry whose key is
/// less than or equal to its own, so that sorting is stable.
pub open spec fn sorted_insert_pair(
    p: (String, String),
    s: Seq<(String, String)>,
) -> Seq<(String, String)>
    decreases s.len(),
{
    if s.len() == 0 {
        seq![p]
    } else if lex_le(s[0].0@, p.0@) {
        seq![s[0]] + sorted_insert_pair(p, s.drop_first())
    } else {
        seq![p] + s
    }
}

/// Insertion sort of key/value pairs by key: the stable sorted permutation.
pub open spec fn sort_pairs(s: Seq<(String, String)>) -> Seq<(String, String)>
    decreases s.len(),
{
    if s.len() == 0 {
        s
    } else {
        sorted_insert_pair(s.last(), sort_pairs(s.drop_last()))
    }
}

/// `sorted_insert_pair` places the pair at the first position whose key does
/// not precede it.
proof fn lemma_sorted_insert_at(p: (String, String), s: Seq<(String, String)>, i: int)
    requires
        0 <= i <= s.len(),
        forall|j: int| 0 <= j < i ==> lex_le(#[trigger] s[j].0@, p.0@),
        i < s.len() ==> !lex_le(s[i].0@, p.0@),
    ensures
        sorted_insert_pair(p, s) == s.insert(i, p),
    decreases s.len(),
{
    s.insert_ensures(i, p);
    if s.len() == 0 {
        assert(sorted_insert_pair(p, s) =~= s.insert(0, p));
    } else if i == 0 {
        assert(sorted_insert_pair(p, s) =~= s.insert(0, p));
    } else {
        assert(lex_le(s[0].0@, p.0@));
        let d = s.drop_first();
        assert forall|j: int| 0 <= j < i - 1 implies lex_le(#[trigger] d[j].0@, p.0@) by {
            assert(d[j] == s[j + 1]);
        }
        if i - 1 < d.len() {
            assert(d[i - 1] == s[i]);
        }
        lemma_sorted_insert_at(p, d, i - 1);
        d.insert_ensures(i - 1, p);
        assert(seq![s[0]] + d.insert(i - 1, p) =~= s.insert(i, p));
    }
}

/// Pairs listed in non-decreasing key order.
pub open spec fn sorted_le_pairs(s: Seq<(String, String)>) -> bool {
    forall|i: int, j: int| 0 <= i < j < s.len() ==> lex_le(s[i].0@, s[j].0@)
}

/// The position that splits `s` into a prefix of keys not after `p`'s and a
/// remainder starting with a key after `p`'s.
proof fn lemma_insert_position(p: (String, String), s: Seq<(String, String)>) -> (i: int)
    ensures
        0 <= i <= s.len(),
        forall|j: int| 0 <= j < i ==> lex_le(#[trigger] s[j].0@, p.0@),
        i < s.len() ==> !lex_le(s[i].0@, p.0@),
    decreases s.len(),
{
    if s.len() == 0 || !lex_le(s[0].0@, p.0@) {
        0
    } else {
        let rest = s.drop_first();
        let k: int = lemma_insert_position(p, rest);
        assert forall|j: int| 0 <= j < k + 1 implies lex_le(#[trigger] s[j].0@, p.0@) by {
            if j > 0 {
                assert(s[j] == rest[j - 1]);
            }
        }
        if k + 1 < s.len() {
            assert(s[k + 1] == rest[k]);
        }
        k + 1
    }
}

/// Inserting into a key-ordered sequence keeps it ordered, adds the pair to
/// its contents, and invents no pair.
proof fn lemma_sorted_insert_keeps_order(p: (String, String), s: Seq<(String, String)>)
    requires
        sorted_le_pairs(s),
    ensures
        sorted_le_pairs(sorted_insert_pair(p, s)),
        sorted_insert_pair(p, s).len() == s.len() + 1,
        sorted_insert_pair(p, s).to_multiset() == s.to_multiset().insert(p),
{
    let i: int = lemma_insert_position(p, s);
    lemma_sorted_insert_at(p, s, i);
    let t = s.insert(i, p);
    s.insert_ensures(i, p);
    vstd::seq_lib::to_multiset_insert(s, i, p);
    if i < s.len() {
        lemma_lex_le_total(s[i].0@, p.0@);
    }
    assert forall|x: int, y: int| 0 <= x < y < t.len()
        implies lex_le(t[x].0@, t[y].0@) by {
        if y < i {
            assert(t[x] == s[x] && t[y] == s[y]);
        } else if x < i && y == i {
            assert(t[x] == s[x] && t[y] == p);
        } else if x < i && y > i {
            assert(t[x] == s[x] && t[y] == s[y - 1]);
        } else if x == i {
            assert(t[x] == p && t[y] == s[y - 1]);
            assert(lex_le(p.0@, s[i].0@));
            if y - 1 > i {
                assert(lex_le(s[i].0@, s[y - 1].0@));
                lemma_lex_le_trans(p.0@, s[i].0@, s[y - 1].0@);
            }
        } else {
            assert(t[x] == s[x - 1] && t[y] == s[y - 1]);
        }
    }
}

/// The pair sort really sorts: its result lists keys in non-decreasing
/// lexicographic order and holds exactly the pairs it was given.
pub proof fn lemma_sort_pairs_sorted(s: Seq<(String, String)>)
    ensures
        sorted_le_pairs(sort_pairs(s)),
        sort_pairs(s).to_multiset() == s.to_multiset(),
    decreases s.len(),
{
    if s.len() > 0 {
        let dl = s.drop_last();
        lemma_sort_pairs_sorted(dl);
        lemma_sorted_insert_keeps_order(s.last(), sort_pairs(dl));
        dl.to_multiset_ensures();
        assert(s =~= dl.push(s.last()));
        assert(sort_pairs(s).to_multiset() =~= s.to_multiset());
    }
}

/// Inserts `p` into `v`, which keeps pairs with smaller keys first.
fn insert_pair_sorted(v: &mut Vec<(String, String)>, p: (String, String))
    ensures
        final(v)@ == sorted_insert_pair(p, old(v)@),
{
    let n = v.len();
    let mut idx: usize = 0;
    while idx < n && str_le(v[idx].0.as_str(), p.0.as_str())
        invariant
            idx <= n,
            n == v@.len(),
            v == old(v),
            forall|j: int| 0 <= j < idx ==> lex_le(#[trigger] v@[j].0@, p.0@),
        decreases n - idx,
    {
        idx = idx + 1;
    }
    proof {
        lemma_sorted_insert_at(p, v@, idx as int);
    }
    v.insert(idx, p);
}

/// Sorts key/value pairs by key, keeping pairs with equal keys in the
/// relative order they were given.
pub fn sort_pairs_vec(v: Vec<(String, String)>) -> (r: Vec<(String, String)>)
    ensures
        r@ == sort_pairs(v@),
{
    let ghost orig = v@;
    let mut v = v;
    let mut r: Vec<(String, String)> = Vec::new();
    let ghost n: int = orig.len() as int;
    proof {
        assert(orig.take(0) =~= Seq::<(String, String)>::empty());
        assert(orig.skip(0) =~= orig);
    }
    while v.len() > 0
        invariant
            n == orig.len(),
            v@.len() <= n,
            v@ == orig.skip(n - v@.len()),
            r@ == sort_pairs(orig.take(n - v@.len())),
        decreases v@.len(),
    {
        let ghost i: int = n - v@.len();
        let p = v.remove(0);
        proof {
            assert(p == orig[i]);
            assert(v@ =~= orig.skip(i + 1));
            assert(orig.take(i + 1).drop_last() =~= orig.take(i));
            assert(orig.take(i + 1).last() == orig[i]);
        }
        insert_pair_sorted(&mut r, p);
    }
    proof {
        assert(orig.take(n as int) =~= orig);
    }
    r
}

/// One rendered parameter line: `key: value`.
pub open spec fn line_of(p: (Seq<char>, Seq<char>)) -> Seq<char> {
    p.0 + ": "@ + p.1
}

/// The rendered parameter block: `None` when there are no entries, otherwise
/// one indented `key: value` line per entry.
pub open spec fn params_block(entries: Seq<(Seq<char>, Seq<char>)>) -> Seq<char> {
    if entries.len() == 0 {
        "None"@
    } else {
        "\n    "@ + join_with(entries.map_values(|p: (Seq<char>, Seq<char>)| line_of(p)), "\n    "@)
    }
}

/// Renders `pairs` as the parameter block of the canonical text.
pub fn render_params_block(pairs: &Vec<(String, String)>) -> (r: String)
    ensures
        r@ == params_block(pair_views(pairs@)),
{
    let n = pairs.len();
    if n == 0 {
        proof {
            assert(pair_views(pairs@).len() == 0);
        }
        return String::from_str("None");
    }
    let ghost views = pair_views(pairs@);
    let ghost items = views.map_values(|p: (Seq<char>, Seq<char>)| line_of(p));
    let mut out = String::from_str("\n    ");
    let mut i: usize = 0;
    proof {
        assert(items.take(0) =~= Seq::<Seq<char>>::empty());
    }
    while i < n
        invariant
            i <= n,
            n == pairs@.len(),
            views == pair_views(pairs@),
            items == views.map_values(|p: (Seq<char>, Seq<char>)| line_of(p)),
            out@ == "\n    "@ + join_with(items.take(i as int), "\n    "@),
        decreases n - i,
    {
        if i > 0 {
            out.append("\n    ");
        }
        out.append(pairs[i].0.as_str());
        out.append(": ");
        out.append(pairs[i].1.as_str());
        proof {
            lemma_join_with_push(items.take(i as int), "\n    "@, items[i as int]);
            assert(items.take(i + 1) =~= items.take(i as int).push(items[i as int]));
            assert(items[i as int] == line_of(views[i as int]));
            assert(views[i as int].0 == pairs@[i as int].0@);
            assert(views[i as int].1 == pairs@[i as int].1@);
            assert(out@ =~= "\n    "@ + join_with(items.take(i + 1), "\n    "@));
        }
        i = i + 1;
    }
    proof {
        assert(items.take(n as int) =~= items);
    }
    out
}

/// A well-formed parameter map stores its entries in one canonical order:
/// two well-formed maps with the same contents hold the same entry sequence.
pub proof fn lemma_param_map_canonical(a: ParamMap, b: ParamMap)
    requires
        a.wf(),
        b.wf(),
        a@ == b@,
    ensures
        a.entry_views() == b.entry_views(),
{
    lemma_sorted_entries_canonical(a.entry_views(), b.entry_views());
}

} // verus!
