use vstd::prelude::*;

verus! {

/// A key/value pair as contracts see it.
pub type PairView = (Seq<char>, Seq<char>);

/// What `pairs` does to `m` when applied left to right: each pair overrides
/// whatever its key held before, so the last occurrence of a key wins.
pub open spec fn apply_pairs(m: Map<Seq<char>, Seq<char>>, pairs: Seq<PairView>) -> Map<
    Seq<char>,
    Seq<char>,
>
    decreases pairs.len(),
{
    if pairs.len() == 0 {
        m
    } else {
        apply_pairs(m, pairs.drop_last()).insert(pairs.last().0, pairs.last().1)
    }
}

/// The pairs of a borrowed list, as contracts see them.
pub open spec fn pairs_view(kvs: Seq<(&str, &str)>) -> Seq<PairView> {
    kvs.map_values(|p: (&str, &str)| (p.0@, p.1@))
}

/// The pairs of an owned list, as contracts see them.
pub open spec fn owned_pairs_view(kvs: Seq<(String, String)>) -> Seq<PairView> {
    kvs.map_values(|p: (String, String)| (p.0@, p.1@))
}

/// No key occurs twice in `pairs`.
pub open spec fn keys_unique(pairs: Seq<PairView>) -> bool {
    forall|i: int, j: int| 0 <= i < j < pairs.len() ==> pairs[i].0 != pairs[j].0
}

/// `k` is the key of some pair in `pairs`.
pub open spec fn mentions_key(pairs: Seq<PairView>, k: Seq<char>) -> bool {
    exists|i: int| 0 <= i < pairs.len() && pairs[i].0 == k
}

/// Keys that the pairs do not mention keep what they held, and stay absent
/// where they were absent.
pub proof fn lemma_apply_frame(m: Map<Seq<char>, Seq<char>>, pairs: Seq<PairView>, k: Seq<char>)
    requires
        !mentions_key(pairs, k),
    ensures
        apply_pairs(m, pairs).contains_key(k) == m.contains_key(k),
        m.contains_key(k) ==> apply_pairs(m, pairs)[k] == m[k],
    decreases pairs.len(),
{
    if pairs.len() > 0 {
        let d = pairs.drop_last();
        assert(!mentions_key(d, k)) by {
            if mentions_key(d, k) {
                let i = choose|i: int| 0 <= i < d.len() && d[i].0 == k;
                assert(pairs[i].0 == k);
            }
        }
        assert(pairs.last().0 != k) by {
            if pairs.last().0 == k {
                assert(pairs[pairs.len() - 1].0 == k);
            }
        }
        lemma_apply_frame(m, d, k);
    }
}

/// A key takes the value of its last occurrence among the pairs.
pub proof fn lemma_apply_last_wins(m: Map<Seq<char>, Seq<char>>, pairs: Seq<PairView>, i: int)
    requires
        0 <= i < pairs.len(),
        forall|j: int| i < j < pairs.len() ==> pairs[j].0 != pairs[i].0,
    ensures
        apply_pairs(m, pairs).contains_key(pairs[i].0),
        apply_pairs(m, pairs)[pairs[i].0] == pairs[i].1,
    decreases pairs.len(),
{
    if i < pairs.len() - 1 {
        let d = pairs.drop_last();
        assert(pairs.last().0 != pairs[i].0);
        assert(d[i] == pairs[i]);
        lemma_apply_last_wins(m, d, i);
    }
}

/// Applying pairs to a map is the same as building a map from the pairs alone
/// and letting it override the first.
pub proof fn lemma_apply_is_union(m: Map<Seq<char>, Seq<char>>, pairs: Seq<PairView>)
    ensures
        apply_pairs(m, pairs) == m.union_prefer_right(apply_pairs(Map::empty(), pairs)),
    decreases pairs.len(),
{
    if pairs.len() > 0 {
        lemma_apply_is_union(m, pairs.drop_last());
        assert(apply_pairs(m, pairs) =~= m.union_prefer_right(apply_pairs(Map::empty(), pairs)));
    }
}

/// Two neighbouring pairs with different keys may trade places: the map that
/// results is the same.
pub proof fn lemma_apply_swap_distinct(
    m: Map<Seq<char>, Seq<char>>,
    front: Seq<PairView>,
    p: PairView,
    q: PairView,
    back: Seq<PairView>,
)
    requires
        p.0 != q.0,
    ensures
        apply_pairs(m, front + seq![p, q] + back) == apply_pairs(m, front + seq![q, p] + back),
    decreases back.len(),
{
    let pq = front + seq![p, q] + back;
    let qp = front + seq![q, p] + back;
    if back.len() == 0 {
        assert(pq.drop_last() =~= front.push(p));
        assert(qp.drop_last() =~= front.push(q));
        assert(front.push(p).drop_last() =~= front);
        assert(front.push(q).drop_last() =~= front);
        let base = apply_pairs(m, front);
        assert(pq.last() == q && qp.last() == p);
        assert(apply_pairs(m, front.push(p)) == base.insert(p.0, p.1));
        assert(apply_pairs(m, front.push(q)) == base.insert(q.0, q.1));
        assert(apply_pairs(m, pq) == base.insert(p.0, p.1).insert(q.0, q.1));
        assert(apply_pairs(m, qp) == base.insert(q.0, q.1).insert(p.0, p.1));
        assert(apply_pairs(m, pq) =~= apply_pairs(m, qp));
    } else {
        let shorter = back.drop_last();
        lemma_apply_swap_distinct(m, front, p, q, shorter);
        assert(pq.drop_last() =~= front + seq![p, q] + shorter);
        assert(qp.drop_last() =~= front + seq![q, p] + shorter);
    }
}

/// Over pairs with unique keys, every pair is found in the map they build and
/// nothing else is.
proof fn lemma_unique_lookup(pairs: Seq<PairView>)
    requires
        keys_unique(pairs),
    ensures
        forall|j: int|
            0 <= j < pairs.len() ==> #[trigger] apply_pairs(Map::empty(), pairs).contains_key(
                pairs[j].0,
            ) && apply_pairs(Map::empty(), pairs)[pairs[j].0] == pairs[j].1,
        forall|k: Seq<char>|
            !mentions_key(pairs, k) ==> !#[trigger] apply_pairs(Map::empty(), pairs).contains_key(
                k,
            ),
{
    assert forall|j: int| 0 <= j < pairs.len() implies #[trigger] apply_pairs(
        Map::empty(),
        pairs,
    ).contains_key(pairs[j].0) && apply_pairs(Map::empty(), pairs)[pairs[j].0] == pairs[j].1 by {
        lemma_apply_last_wins(Map::empty(), pairs, j);
    }
    assert forall|k: Seq<char>| !mentions_key(pairs, k) implies !#[trigger] apply_pairs(
        Map::empty(),
        pairs,
    ).contains_key(k) by {
        lemma_apply_frame(Map::empty(), pairs, k);
    }
}

/// A map from string keys to string values. Each key is held once.
#[derive(Debug)]
pub struct AttrMap {
    entries: Vec<(String, String)>,
}

impl View for AttrMap {
    type V = Map<Seq<char>, Seq<char>>;

    closed spec fn view(&self) -> Map<Seq<char>, Seq<char>> {
        apply_pairs(Map::empty(), owned_pairs_view(self.entries@))
    }
}

impl AttrMap {
    #[verifier::type_invariant]
    closed spec fn inv(&self) -> bool {
        keys_unique(owned_pairs_view(self.entries@))
    }

    /// The empty map.
    pub fn new() -> (r: AttrMap)
        ensures
            r@ == Map::<Seq<char>, Seq<char>>::empty(),
    {
        let r = AttrMap { entries: Vec::new() };
        assert(owned_pairs_view(r.entries@) =~= Seq::<PairView>::empty());
        r
    }

    /// The value held under `key`, if any.
    pub fn get(&self, key: &str) -> (r: Option<&str>)
        ensures
            match r {
                Some(v) => self@.contains_key(key@) && v@ == self@[key@],
                None => !self@.contains_key(key@),
            },
    {
        let target = key.to_owned();
        match self.value_of(&target) {
            Some(v) => Some(v.as_str()),
            None => None,
        }
    }

    /// The value held under `key`, if any, as stored.
    fn value_of(&self, key: &String) -> (r: Option<&String>)
        ensures
            match r {
                Some(v) => self@.contains_key(key@) && v@ == self@[key@],
                None => !self@.contains_key(key@),
            },
    {
        proof {
            use_type_invariant(self);
        }
        let n = self.entries.len();
        let mut i: usize = 0;
        while i < n
            invariant
                n == self.entries@.len(),
                0 <= i <= n,
                forall|j: int| 0 <= j < i ==> self.entries@[j].0@ != key@,
                keys_unique(owned_pairs_view(self.entries@)),
            decreases n - i,
        {
            if self.entries[i].0 == *key {
                proof {
                    lemma_apply_last_wins(Map::empty(), owned_pairs_view(self.entries@), i as int);
                }
                return Some(&self.entries[i].1);
            }
            i = i + 1;
        }
        assert(!mentions_key(owned_pairs_view(self.entries@), key@)) by {
            if mentions_key(owned_pairs_view(self.entries@), key@) {
                let j = choose|j: int|
                    0 <= j < owned_pairs_view(self.entries@).len() && owned_pairs_view(
                        self.entries@,
                    )[j].0 == key@;
                assert(self.entries@[j].0@ == key@);
            }
        }
        proof {
            lemma_apply_frame(Map::empty(), owned_pairs_view(self.entries@), key@);
        }
        None
    }

    /// Whether every key of this map is held by `other` with the same value.
    fn within(&self, other: &AttrMap) -> (r: bool)
        ensures
            r == self@.submap_of(other@),
    {
        proof {
            use_type_invariant(self);
        }
        let ghost s = owned_pairs_view(self.entries@);
        let n = self.entries.len();
        let mut i: usize = 0;
        while i < n
            invariant
                n == self.entries@.len(),
                s == owned_pairs_view(self.entries@),
                keys_unique(s),
                0 <= i <= n,
                forall|j: int|
                    0 <= j < i ==> other@.contains_key(#[trigger] s[j].0) && other@[s[j].0]
                        == s[j].1,
            decreases n - i,
        {
            let e = &self.entries[i];
            match other.value_of(&e.0) {
                Some(v) => {
                    if *v != e.1 {
                        assert(s[i as int].0 == e.0@);
                        proof {
                            lemma_apply_last_wins(Map::empty(), s, i as int);
                        }
                        return false;
                    }
                },
                None => {
                    assert(s[i as int].0 == e.0@);
                    proof {
                        lemma_apply_last_wins(Map::empty(), s, i as int);
                    }
                    return false;
                },
            }
            i = i + 1;
        }
        proof {
            lemma_unique_lookup(s);
        }
        assert forall|k: Seq<char>| #[trigger] self@.contains_key(k) implies other@.contains_key(k)
            && other@[k] == self@[k] by {
            let j = choose|j: int| 0 <= j < s.len() && s[j].0 == k;
            assert(self@.contains_key(s[j].0));
        }
        true
    }
}

impl PartialEq for AttrMap {
    fn eq(&self, other: &AttrMap) -> (r: bool) {
        let r = self.within(other) && other.within(self);
        proof {
            if r {
                assert(self@.dom() =~= other@.dom());
                assert(self@ =~= other@);
            }
        }
        r
    }
}

impl vstd::std_specs::cmp::PartialEqSpecImpl for AttrMap {
    open spec fn obeys_eq_spec() -> bool {
        true
    }

    open spec fn eq_spec(&self, other: &AttrMap) -> bool {
        self@ == other@
    }
}

impl Eq for AttrMap {

}

/// A copy of `map` in which `k` holds `v`: the old value of `k` is replaced,
/// and a new key is added.
fn insert_single_kv(map: &AttrMap, k: &str, v: &str) -> (r: AttrMap)
    ensures
        r@ == map@.insert(k@, v@),
{
    proof {
        use_type_invariant(map);
    }
    let key = k.to_owned();
    let n = map.entries.len();
    let mut out: Vec<(String, String)> = Vec::new();
    let mut found = false;
    let mut i: usize = 0;
    while i < n
        invariant
            n == map.entries@.len(),
            key@ == k@,
            0 <= i <= n,
            out@.len() == i,
            forall|j: int|
                0 <= j < i ==> (#[trigger] out@[j]).0@ == map.entries@[j].0@ && out@[j].1@ == (
                if map.entries@[j].0@ == k@ {
                    v@
                } else {
                    map.entries@[j].1@
                }),
            found == (exists|j: int| 0 <= j < i && map.entries@[j].0@ == k@),
        decreases n - i,
    {
        let e = &map.entries[i];
        if e.0 == key {
            out.push((e.0.clone(), v.to_owned()));
            found = true;
        } else {
            out.push((e.0.clone(), e.1.clone()));
        }
        proof {
            assert(out@[i as int] == out@.last());
        }
        i = i + 1;
    }
    if !found {
        out.push((key, v.to_owned()));
    }
    proof {
        let s = owned_pairs_view(map.entries@);
        let o = owned_pairs_view(out@);
        assert forall|a: int, b: int| 0 <= a < b < o.len() implies o[a].0 != o[b].0 by {
            if b < n {
                assert(o[a].0 == s[a].0 && o[b].0 == s[b].0);
            } else {
                assert(o[a].0 == s[a].0);
            }
        }
        lemma_unique_lookup(s);
        lemma_unique_lookup(o);
        let before = apply_pairs(Map::empty(), s);
        let after = apply_pairs(Map::empty(), o);
        let want = before.insert(k@, v@);
        assert(found ==> mentions_key(s, k@)) by {
            if found {
                let j = choose|j: int| 0 <= j < n && map.entries@[j].0@ == k@;
                assert(s[j].0 == k@);
            }
        }
        assert forall|q: Seq<char>|
            #![trigger after.contains_key(q)]
            #![trigger want.contains_key(q)]
            after.contains_key(q) == want.contains_key(q) && (after.contains_key(q) ==> after[q]
                == want[q]) by {
            if mentions_key(s, q) {
                let j = choose|j: int| 0 <= j < s.len() && s[j].0 == q;
                assert(o[j].0 == q);
                assert(after.contains_key(o[j].0));
                assert(before.contains_key(s[j].0));
            } else if q == k@ {
                assert(o[n as int].0 == q);
                assert(after.contains_key(o[n as int].0));
            } else {
                assert(!mentions_key(o, q)) by {
                    if mentions_key(o, q) {
                        let j = choose|j: int| 0 <= j < o.len() && o[j].0 == q;
                        if j < n {
                            assert(s[j].0 == q);
                        }
                    }
                }
            }
        }
        assert(after.dom() =~= want.dom());
        assert(after =~= want);
    }
    AttrMap { entries: out }
}

impl Clone for AttrMap {
    fn clone(&self) -> (r: AttrMap)
        ensures
            r@ == self@,
    {
        proof {
            use_type_invariant(self);
        }
        let n = self.entries.len();
        let mut out: Vec<(String, String)> = Vec::new();
        let mut i: usize = 0;
        while i < n
            invariant
                n == self.entries@.len(),
                0 <= i <= n,
                out@.len() == i,
                forall|j: int|
                    0 <= j < i ==> (#[trigger] out@[j]).0@ == self.entries@[j].0@ && out@[j].1@
                        == self.entries@[j].1@,
            decreases n - i,
        {
            let e = &self.entries[i];
            out.push((e.0.clone(), e.1.clone()));
            proof {
                assert(out@[i as int] == out@.last());
            }
            i = i + 1;
        }
        proof {
            assert(owned_pairs_view(out@) =~= owned_pairs_view(self.entries@));
        }
        AttrMap { entries: out }
    }
}

/// The map `first` overridden, key by key, by `second`.
fn merge_two_maps(first: &AttrMap, second: &AttrMap) -> (r: AttrMap)
    ensures
        r@ == first@.union_prefer_right(second@),
{
    let mut acc = first.clone();
    let n = second.entries.len();
    let mut i: usize = 0;
    while i < n
        invariant
            n == second.entries@.len(),
            0 <= i <= n,
            acc@ == first@.union_prefer_right(
                apply_pairs(Map::empty(), owned_pairs_view(second.entries@).take(i as int)),
            ),
        decreases n - i,
    {
        let e = &second.entries[i];
        acc = insert_single_kv(&acc, e.0.as_str(), e.1.as_str());
        proof {
            let s = owned_pairs_view(second.entries@);
            assert(s.take(i + 1).drop_last() =~= s.take(i as int));
            assert(acc@ =~= first@.union_prefer_right(
                apply_pairs(Map::empty(), s.take(i + 1)),
            ));
        }
        i = i + 1;
    }
    proof {
        assert(owned_pairs_view(second.entries@).take(n as int) =~= owned_pairs_view(
            second.entries@,
        ));
    }
    acc
}

/// The map built from `kvs` alone, the last occurrence of a key winning.
fn from_kv_list(kvs: &[(&str, &str)]) -> (r: AttrMap)
    ensures
        r@ == apply_pairs(Map::empty(), pairs_view(kvs@)),
{
    let mut acc = AttrMap::new();
    let n = kvs.len();
    let mut i: usize = 0;
    while i < n
        invariant
            n == kvs@.len(),
            0 <= i <= n,
            acc@ == apply_pairs(Map::empty(), pairs_view(kvs@).take(i as int)),
        decreases n - i,
    {
        let (k, v) = kvs[i];
        acc = insert_single_kv(&acc, k, v);
        proof {
            let s = pairs_view(kvs@);
            assert(s.take(i + 1).drop_last() =~= s.take(i as int));
        }
        i = i + 1;
    }
    proof {
        assert(pairs_view(kvs@).take(n as int) =~= pairs_view(kvs@));
    }
    acc
}

/// A new map: `map` with the pairs of `kvs` applied in order. Later pairs
/// override earlier ones and all of them override `map`; `map` itself is left
/// as it was.
pub fn merge_map_and_list(map: &AttrMap, kvs: &[(&str, &str)]) -> (r: AttrMap)
    ensures
        r@ == apply_pairs(map@, pairs_view(kvs@)),
{
    let from_list = from_kv_list(kvs);
    proof {
        lemma_apply_is_union(map@, pairs_view(kvs@));
    }
    merge_two_maps(map, &from_list)
}

} // verus!
