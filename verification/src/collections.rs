use vstd::prelude::*;

use crate::text::{lemma_seq_lt_irreflexive, lemma_seq_lt_total, lemma_seq_lt_transitive, seq_lt, str_eq, str_lt, strings_view};

verus! {

/// A sequence of strings in strictly increasing `seq_lt` order.
pub open spec fn strictly_sorted(keys: Seq<Seq<char>>) -> bool {
    forall|i: int, j: int| 0 <= i < j < keys.len() ==> seq_lt(#[trigger] keys[i], #[trigger] keys[j])
}

/// A set of strings kept in ascending order, as a `BTreeSet<String>` iterates.
pub struct StrSet {
    items: Vec<String>,
}

impl StrSet {
    /// The members are kept in strictly ascending order.
    #[verifier::type_invariant]
    pub open spec fn sorted(self) -> bool {
        strictly_sorted(self.view_seq())
    }

    /// The members in ascending order.
    pub closed spec fn view_seq(&self) -> Seq<Seq<char>> {
        strings_view(self.items@)
    }

    pub open spec fn has(&self, s: Seq<char>) -> bool {
        self.view_seq().contains(s)
    }

    pub fn new() -> (s: Self)
        ensures
            s.view_seq() == Seq::<Seq<char>>::empty(),
    {
        StrSet { items: Vec::new() }
    }

    pub fn len(&self) -> (n: usize)
        ensures
            n == self.view_seq().len(),
    {
        self.items.len()
    }

    pub fn get(&self, i: usize) -> (s: &String)
        requires
            i < self.view_seq().len(),
        ensures
            s@ == self.view_seq()[i as int],
    {
        &self.items[i]
    }

    pub fn is_empty(&self) -> (b: bool)
        ensures
            b == (self.view_seq().len() == 0),
    {
        self.items.len() == 0
    }

    /// Whether `s` is a member.
    pub fn contains(&self, s: &str) -> (b: bool)
        ensures
            b == self.has(s@),
    {
        let mut i: usize = 0;
        while i < self.items.len()
            invariant
                i <= self.items@.len(),
                forall|j: int| 0 <= j < i ==> self.items@[j]@ != s@,
            decreases self.items.len() - i,
        {
            if str_eq(self.items[i].as_str(), s) {
                assert(self.view_seq()[i as int] == s@);
                return true;
            }
            i += 1;
        }
        proof {
            if self.view_seq().contains(s@) {
                let k = choose|k: int| 0 <= k < self.view_seq().len() && self.view_seq()[k] == s@;
                assert(self.items@[k]@ == s@);
            }
        }
        false
    }

    /// Adds `s`; returns whether it was absent.
    pub fn insert(&mut self, s: String) -> (added: bool)
        ensures
            added == !old(self).has(s@),
            forall|t: Seq<char>| final(self).has(t) <==> (old(self).has(t) || t == s@),
    {
        proof { use_type_invariant(&*self); }
        let mut i: usize = 0;
        let mut stop = false;
        while !stop && i < self.items.len()
            invariant
                i <= self.items@.len(),
                strictly_sorted(strings_view(self.items@)),
                forall|j: int| 0 <= j < i ==> seq_lt(#[trigger] self.items@[j]@, s@),
                stop ==> i < self.items@.len() && seq_lt(s@, self.items@[i as int]@),
            decreases self.items.len() - i, (if stop { 0int } else { 1int }),
        {
            if str_eq(self.items[i].as_str(), s.as_str()) {
                assert(self.view_seq()[i as int] == s@);
                return false;
            }
            if str_lt(s.as_str(), self.items[i].as_str()) {
                stop = true;
            } else {
                proof { lemma_seq_lt_total(s@, self.items@[i as int]@); }
                i += 1;
            }
        }
        let ghost old_items = self.items@;
        proof {
            assert forall|j: int| i <= j < old_items.len() implies seq_lt(s@, #[trigger] old_items[j]@) by {
                if j > i {
                    assert(strings_view(old_items)[i as int] == old_items[i as int]@);
                    assert(strings_view(old_items)[j] == old_items[j]@);
                    assert(seq_lt(old_items[i as int]@, old_items[j]@));
                    lemma_seq_lt_transitive(s@, old_items[i as int]@, old_items[j]@);
                }
            }
            assert forall|j: int| 0 <= j < old_items.len() implies old_items[j]@ != s@ by {
                if j < i {
                    lemma_seq_lt_irreflexive(s@);
                } else {
                    lemma_seq_lt_irreflexive(s@);
                }
            }
        }
        let mut items: Vec<String> = Vec::new();
        std::mem::swap(&mut items, &mut self.items);
        items.insert(i, s);
        proof {
            let n = items@;
            assert(n == old_items.insert(i as int, s));
            assert forall|a: int, b: int| 0 <= a < b < n.len() implies seq_lt(
                #[trigger] strings_view(n)[a],
                #[trigger] strings_view(n)[b],
            ) by {
                let ov = strings_view(old_items);
                assert(strings_view(n)[a] == n[a]@);
                assert(strings_view(n)[b] == n[b]@);
                if a < i && b < i {
                    assert(ov[a] == old_items[a]@ && ov[b] == old_items[b]@);
                } else if a < i && b == i {
                } else if a < i && b > i {
                    lemma_seq_lt_transitive(old_items[a]@, s@, old_items[b - 1]@);
                } else if a == i {
                } else {
                    assert(ov[a - 1] == old_items[a - 1]@ && ov[b - 1] == old_items[b - 1]@);
                }
            }
        }
        self.items = items;
        proof {
            assert forall|t: Seq<char>| self.has(t) <==> (old(self).has(t) || t == s@) by {
                if self.has(t) {
                    let k = choose|k: int| 0 <= k < self.view_seq().len() && self.view_seq()[k] == t;
                    if k < i {
                        assert(old(self).view_seq()[k] == t);
                    } else if k > i {
                        assert(old(self).view_seq()[k - 1] == t);
                    }
                }
                if old(self).has(t) {
                    let k = choose|k: int| 0 <= k < old(self).view_seq().len() && old(self).view_seq()[k] == t;
                    if k < i {
                        assert(self.view_seq()[k] == t);
                    } else {
                        assert(self.view_seq()[k + 1] == t);
                    }
                }
                if t == s@ {
                    assert(self.view_seq()[i as int] == t);
                }
            }
        }
        true
    }
}

} // verus!

verus! {

pub open spec fn entry_keys<V>(s: Seq<(String, V)>) -> Seq<Seq<char>> {
    s.map_values(|e: (String, V)| e.0@)
}

/// A map from strings to values kept in ascending key order, as a
/// `BTreeMap<String, V>` iterates.
pub struct StrMap<V> {
    entries: Vec<(String, V)>,
}

impl<V> StrMap<V> {
    /// The keys are kept in strictly ascending order.
    #[verifier::type_invariant]
    pub open spec fn sorted(self) -> bool {
        strictly_sorted(self.keys())
    }

    /// The entries in ascending key order.
    pub closed spec fn entries(&self) -> Seq<(String, V)> {
        self.entries@
    }

    pub open spec fn keys(&self) -> Seq<Seq<char>> {
        entry_keys(self.entries())
    }

    pub open spec fn has_key(&self, k: Seq<char>) -> bool {
        self.keys().contains(k)
    }

    /// The value stored under `k`, if any.
    pub open spec fn spec_get(&self, k: Seq<char>) -> Option<V> {
        if self.has_key(k) {
            Some(self.entries()[self.keys().index_of(k)].1)
        } else {
            None
        }
    }

    pub fn new() -> (m: Self)
        ensures
            m.entries() == Seq::<(String, V)>::empty(),
    {
        StrMap { entries: Vec::new() }
    }

    pub fn len(&self) -> (n: usize)
        ensures
            n == self.entries().len(),
    {
        self.entries.len()
    }

    pub fn key_at(&self, i: usize) -> (k: &String)
        requires
            i < self.entries().len(),
        ensures
            *k == self.entries()[i as int].0,
    {
        &self.entries[i].0
    }

    pub fn value_at(&self, i: usize) -> (v: &V)
        requires
            i < self.entries().len(),
        ensures
            *v == self.entries()[i as int].1,
    {
        &self.entries[i].1
    }

    /// Where `key` is stored, if it is.
    pub fn find(&self, key: &str) -> (r: Option<usize>)
        ensures
            r is Some <==> self.has_key(key@),
            r matches Some(i) ==> i < self.entries().len() && self.keys()[i as int] == key@
                && self.keys().index_of(key@) == i,
    {
        proof { use_type_invariant(self); }
        let mut i: usize = 0;
        while i < self.entries.len()
            invariant
                i <= self.entries@.len(),
                strictly_sorted(self.keys()),
                forall|j: int| 0 <= j < i ==> self.entries@[j].0@ != key@,
            decreases self.entries.len() - i,
        {
            if str_eq(self.entries[i].0.as_str(), key) {
                proof {
                    assert(self.keys()[i as int] == key@);
                    assert(self.has_key(key@));
                    let k = self.keys().index_of(key@);
                    assert(0 <= k < self.keys().len() && self.keys()[k] == key@);
                    assert(strictly_sorted(self.keys()));
                    if k != i {
                        if k < i {
                            assert(self.keys()[k] == self.entries@[k].0@);
                        } else {
                            assert(self.keys()[k] == key@);
                            assert(seq_lt(self.keys()[i as int], self.keys()[k]));
                            lemma_seq_lt_irreflexive(key@);
                        }
                    }
                }
                return Some(i);
            }
            i += 1;
        }
        proof {
            if self.has_key(key@) {
                let k = choose|k: int| 0 <= k < self.keys().len() && self.keys()[k] == key@;
                assert(self.entries@[k].0@ == key@);
            }
        }
        None
    }

    pub fn contains_key(&self, key: &str) -> (b: bool)
        ensures
            b == self.has_key(key@),
    {
        self.find(key).is_some()
    }

    pub fn get(&self, key: &str) -> (r: Option<&V>)
        ensures
            r is Some <==> self.has_key(key@),
            r matches Some(v) ==> self.spec_get(key@) == Some(*v),
            r is None ==> self.spec_get(key@) is None,
    {
        match self.find(key) {
            Some(i) => Some(&self.entries[i].1),
            None => None,
        }
    }

    /// Stores `value` under `key`, replacing any earlier value.
    pub fn insert(&mut self, key: String, value: V)
        ensures
            forall|t: Seq<char>| #[trigger] final(self).has_key(t) <==> (old(self).has_key(t) || t == key@),
            final(self).entries().len() == old(self).entries().len() + if old(self).has_key(key@) { 0int } else { 1int },
            forall|t: Seq<char>| #[trigger] final(self).spec_get(t) == if t == key@ {
                Some(value)
            } else {
                old(self).spec_get(t)
            },
    {
        proof { use_type_invariant(&*self); }
        let ghost old_entries = self.entries@;
        let ghost ok = entry_keys(old_entries);
        let mut i: usize = 0;
        let mut stop = false;
        let mut replace = false;
        while !stop && i < self.entries.len()
            invariant
                i <= old_entries.len(),
                self.entries@ == old_entries,
                ok == entry_keys(old_entries),
                strictly_sorted(ok),
                forall|j: int| 0 <= j < i ==> seq_lt(#[trigger] ok[j], key@),
                stop ==> i < old_entries.len(),
                replace ==> ok[i as int] == key@,
                stop && !replace ==> seq_lt(key@, ok[i as int]),
                !stop ==> !replace,
            decreases old_entries.len() - i, (if stop { 0int } else { 1int }),
        {
            if str_eq(self.entries[i].0.as_str(), key.as_str()) {
                stop = true;
                replace = true;
            } else if str_lt(key.as_str(), self.entries[i].0.as_str()) {
                stop = true;
            } else {
                proof { lemma_seq_lt_total(key@, ok[i as int]); }
                i += 1;
            }
        }
        let mut entries: Vec<(String, V)> = Vec::new();
        std::mem::swap(&mut entries, &mut self.entries);
        if replace {
            entries.remove(i);
        }
        let ghost base = entries@;
        entries.insert(i, (key, value));
        proof {
            let n = entries@;
            let nk = entry_keys(n);
            assert(base == if replace { old_entries.remove(i as int) } else { old_entries });
            assert(n == base.insert(i as int, (key, value)));
            assert forall|j: int| i < j < old_entries.len() implies seq_lt(key@, #[trigger] ok[j]) by {
                if ok[i as int] == key@ {
                    assert(seq_lt(ok[i as int], ok[j]));
                } else {
                    assert(seq_lt(ok[i as int], ok[j]));
                    lemma_seq_lt_transitive(key@, ok[i as int], ok[j]);
                }
            }
            // position map from n to old entries
            assert forall|j: int| 0 <= j < n.len() && j != i implies #[trigger] n[j] == old_entries[
                if j < i { j } else if replace { j } else { j - 1 }
            ] by {}
            assert forall|a: int, b: int| 0 <= a < b < nk.len() implies seq_lt(#[trigger] nk[a], #[trigger] nk[b]) by {
                assert(nk[a] == n[a].0@);
                assert(nk[b] == n[b].0@);
                let oa = if a < i { a } else if replace { a } else { a - 1 };
                let ob = if b < i { b } else if replace { b } else { b - 1 };
                if a != i && b != i {
                    assert(n[a] == old_entries[oa]);
                    assert(n[b] == old_entries[ob]);
                    assert(ok[oa] == old_entries[oa].0@);
                    assert(ok[ob] == old_entries[ob].0@);
                    assert(oa < ob);
                } else if a == i {
                    assert(n[b] == old_entries[ob]);
                    assert(ok[ob] == old_entries[ob].0@);
                    assert(ob > i || (!replace && ob == i));
                    if !replace && ob == i {
                        assert(seq_lt(key@, ok[i as int]));
                    }
                } else {
                    assert(n[a] == old_entries[oa]);
                    assert(ok[oa] == old_entries[oa].0@);
                }
            }
        }
        self.entries = entries;
        proof {
            let n = self.entries@;
            let nk = self.keys();
            assert(ok == old(self).keys());
            assert forall|t: Seq<char>| #[trigger] self.has_key(t) <==> (old(self).has_key(t) || t == key@) by {
                if self.has_key(t) {
                    let k = choose|k: int| 0 <= k < nk.len() && nk[k] == t;
                    assert(nk[k] == n[k].0@);
                    if k == i {
                        assert(t == key@);
                    } else {
                        let ko = if k < i { k } else if replace { k } else { k - 1 };
                        assert(n[k] == old_entries[ko]);
                        assert(ok[ko] == old_entries[ko].0@);
                        assert(ok[ko] == t);
                    }
                }
                if old(self).has_key(t) {
                    let k = choose|k: int| 0 <= k < ok.len() && ok[k] == t;
                    if replace && k == i {
                        assert(nk[i as int] == n[i as int].0@);
                    } else {
                        let kn = if k < i { k } else if replace { k } else { k + 1 };
                        assert(n[kn] == old_entries[k]);
                        assert(ok[k] == old_entries[k].0@);
                        assert(nk[kn] == n[kn].0@);
                        assert(nk[kn] == t);
                    }
                }
                if t == key@ {
                    assert(nk[i as int] == n[i as int].0@);
                }
            }
            assert forall|t: Seq<char>| #[trigger] self.spec_get(t) == if t == key@ {
                Some(value)
            } else {
                old(self).spec_get(t)
            } by {
                if self.has_key(t) {
                    let k = nk.index_of(t);
                    assert(nk[k] == t);
                    assert(nk[k] == n[k].0@);
                    if k == i {
                        assert(t == key@);
                    } else {
                        let ko = if k < i { k } else if replace { k } else { k - 1 };
                        assert(n[k] == old_entries[ko]);
                        assert(ok[ko] == t);
                        if t == key@ {
                            assert(nk[i as int] == n[i as int].0@);
                            if k < i {
                                assert(seq_lt(nk[k], nk[i as int]));
                            } else {
                                assert(seq_lt(nk[i as int], nk[k]));
                            }
                            lemma_seq_lt_irreflexive(t);
                        }
                        let ko2 = ok.index_of(t);
                        assert(ok.contains(t));
                        if ko2 != ko {
                            if ko2 < ko {
                                assert(seq_lt(ok[ko2], ok[ko]));
                            } else {
                                assert(seq_lt(ok[ko], ok[ko2]));
                            }
                            lemma_seq_lt_irreflexive(t);
                        }
                    }
                }
            }
            assert(replace == old(self).has_key(key@)) by {
                if old(self).has_key(key@) && !replace {
                    let m = choose|m: int| 0 <= m < ok.len() && ok[m] == key@;
                    if m < i {
                        assert(seq_lt(ok[m], key@));
                        lemma_seq_lt_irreflexive(key@);
                    } else if m == i {
                        assert(stop);
                        lemma_seq_lt_irreflexive(key@);
                    } else {
                        assert(stop);
                        assert(seq_lt(ok[i as int], ok[m]));
                        lemma_seq_lt_transitive(key@, ok[i as int], ok[m]);
                        lemma_seq_lt_irreflexive(key@);
                    }
                }
            }
        }
    }
}

} // verus!

verus! {

/// No two of the strings are equal.
pub open spec fn all_distinct(keys: Seq<Seq<char>>) -> bool {
    forall|i: int, j: int| 0 <= i < keys.len() && 0 <= j < keys.len() && i != j ==> keys[i] != keys[j]
}

/// Index `k` occurs in `order`.
pub open spec fn occurs(order: Seq<usize>, k: int) -> bool {
    exists|a: int| 0 <= a < order.len() && #[trigger] order[a] == k
}

/// `order` lists every index of `keys` once, in ascending order of key.
pub open spec fn is_sort_order(keys: Seq<Seq<char>>, order: Seq<usize>) -> bool {
    &&& order.len() == keys.len()
    &&& forall|a: int| 0 <= a < order.len() ==> (#[trigger] order[a]) < keys.len()
    &&& forall|a: int, b: int| 0 <= a < b < order.len() ==> seq_lt(
        #[trigger] keys[order[a] as int],
        #[trigger] keys[order[b] as int],
    )
    &&& forall|k: int| 0 <= k < keys.len() ==> #[trigger] occurs(order, k)
}

/// The indices of `keys` in ascending order of key (an insertion sort).
pub fn sort_order(keys: &Vec<String>) -> (order: Vec<usize>)
    requires
        all_distinct(strings_view(keys@)),
    ensures
        is_sort_order(strings_view(keys@), order@),
{
    let ghost kv = strings_view(keys@);
    let mut order: Vec<usize> = Vec::new();
    let mut k: usize = 0;
    while k < keys.len()
        invariant
            kv == strings_view(keys@),
            all_distinct(kv),
            k <= keys@.len(),
            order@.len() == k,
            forall|a: int| 0 <= a < order@.len() ==> (#[trigger] order@[a]) < k,
            forall|a: int, b: int| 0 <= a < b < order@.len() ==> seq_lt(
                #[trigger] kv[order@[a] as int],
                #[trigger] kv[order@[b] as int],
            ),
            forall|j: int| 0 <= j < k ==> #[trigger] occurs(order@, j),
        decreases keys.len() - k,
    {
        let mut p: usize = 0;
        let mut stop = false;
        while !stop && p < order.len()
            invariant
                kv == strings_view(keys@),
                all_distinct(kv),
                k < keys@.len(),
                p <= order@.len(),
                forall|a: int| 0 <= a < order@.len() ==> (#[trigger] order@[a]) < k,
                forall|a: int| 0 <= a < p ==> seq_lt(#[trigger] kv[order@[a] as int], kv[k as int]),
                stop ==> p < order@.len() && seq_lt(kv[k as int], kv[order@[p as int] as int]),
            decreases order.len() - p, (if stop { 0int } else { 1int }),
        {
            if crate::text::str_lt(keys[k].as_str(), keys[order[p]].as_str()) {
                stop = true;
            } else {
                proof {
                    crate::text::lemma_seq_lt_total(kv[k as int], kv[order@[p as int] as int]);
                    assert(kv[k as int] != kv[order@[p as int] as int]);
                }
                p += 1;
            }
        }
        let ghost old_order = order@;
        proof {
            assert forall|a: int| p <= a < old_order.len() implies seq_lt(kv[k as int], #[trigger] kv[old_order[a] as int]) by {
                if a > p {
                    crate::text::lemma_seq_lt_transitive(kv[k as int], kv[old_order[p as int] as int], kv[old_order[a] as int]);
                }
            }
        }
        order.insert(p, k);
        proof {
            let n = order@;
            assert(n == old_order.insert(p as int, k));
            assert forall|a: int, b: int| 0 <= a < b < n.len() implies seq_lt(
                #[trigger] kv[n[a] as int],
                #[trigger] kv[n[b] as int],
            ) by {
                if a < p && b < p {
                } else if a < p && b == p {
                } else if a < p && b > p {
                    assert(n[b] == old_order[b - 1]);
                    crate::text::lemma_seq_lt_transitive(kv[n[a] as int], kv[k as int], kv[n[b] as int]);
                } else if a == p {
                    assert(n[b] == old_order[b - 1]);
                } else {
                    assert(n[a] == old_order[a - 1]);
                    assert(n[b] == old_order[b - 1]);
                }
            }
            assert forall|j: int| 0 <= j < k + 1 implies #[trigger] occurs(n, j) by {
                if j == k {
                    assert(n[p as int] == k);
                } else {
                    assert(occurs(old_order, j));
                    let a0 = choose|a: int| 0 <= a < old_order.len() && old_order[a] == j;
                    if a0 < p {
                        assert(n[a0] == j);
                    } else {
                        assert(n[a0 + 1] == j);
                    }
                }
            }
        }
        k += 1;
    }
    order
}

} // verus!

verus! {

/// Two strictly sorted sequences with the same members are equal.
pub proof fn lemma_sorted_same_members(a: Seq<Seq<char>>, b: Seq<Seq<char>>)
    requires
        strictly_sorted(a),
        strictly_sorted(b),
        forall|x: Seq<char>| a.contains(x) <==> b.contains(x),
    ensures
        a == b,
    decreases a.len() + b.len(),
{
    if a.len() == 0 {
        if b.len() > 0 {
            assert(b.contains(b[0]));
        }
        assert(a =~= b);
    } else if b.len() == 0 {
        assert(a.contains(a[0]));
    } else {
        // the first elements are the minima of the same set
        assert(a.contains(a[0]));
        assert(b.contains(b[0]));
        let ia = choose|k: int| 0 <= k < b.len() && b[k] == a[0];
        let ib = choose|k: int| 0 <= k < a.len() && a[k] == b[0];
        if ia > 0 {
            if ib > 0 {
                assert(seq_lt(b[0], b[ia]));
                assert(seq_lt(a[0], a[ib]));
                crate::text::lemma_seq_lt_asymmetric(a[0], b[0]);
            }
        }
        assert(a[0] == b[0]);
        let a1 = a.drop_first();
        let b1 = b.drop_first();
        assert forall|x: Seq<char>| a1.contains(x) <==> b1.contains(x) by {
            if a1.contains(x) {
                let k = choose|k: int| 0 <= k < a1.len() && a1[k] == x;
                assert(a[k + 1] == x);
                assert(seq_lt(a[0], a[k + 1]));
                crate::text::lemma_seq_lt_irreflexive(x);
                assert(b.contains(x));
                let m = choose|m: int| 0 <= m < b.len() && b[m] == x;
                assert(m != 0);
                assert(b1[m - 1] == x);
            }
            if b1.contains(x) {
                let k = choose|k: int| 0 <= k < b1.len() && b1[k] == x;
                assert(b[k + 1] == x);
                assert(seq_lt(b[0], b[k + 1]));
                crate::text::lemma_seq_lt_irreflexive(x);
                assert(a.contains(x));
                let m = choose|m: int| 0 <= m < a.len() && a[m] == x;
                assert(m != 0);
                assert(a1[m - 1] == x);
            }
        }
        lemma_sorted_same_members(a1, b1);
        assert(a =~= seq![a[0]] + a1);
        assert(b =~= seq![b[0]] + b1);
    }
}

} // verus!

verus! {

/// `sel` lists, in the order `order` gives them, exactly the indices that
/// `flags` marks; so its keys ascend.
pub open spec fn selects(keys: Seq<Seq<char>>, flags: Seq<bool>, sel: Seq<usize>) -> bool {
    &&& forall|a: int| 0 <= a < sel.len() ==> (#[trigger] sel[a]) < keys.len() && flags[sel[a] as int]
    &&& forall|a: int, b: int| 0 <= a < b < sel.len() ==> seq_lt(
        #[trigger] keys[sel[a] as int],
        #[trigger] keys[sel[b] as int],
    )
    &&& forall|k: int| 0 <= k < keys.len() && flags[k] ==> #[trigger] occurs(sel, k)
}

/// The marked indices, in ascending order of key.
pub fn select_marked(order: &Vec<usize>, flags: &Vec<bool>, Ghost(keys): Ghost<Seq<Seq<char>>>) -> (sel: Vec<usize>)
    requires
        is_sort_order(keys, order@),
        flags@.len() == keys.len(),
    ensures
        selects(keys, flags@, sel@),
{
    let mut sel: Vec<usize> = Vec::new();
    let mut i: usize = 0;
    while i < order.len()
        invariant
            is_sort_order(keys, order@),
            flags@.len() == keys.len(),
            i <= order@.len(),
            forall|a: int| 0 <= a < sel@.len() ==> (#[trigger] sel@[a]) < keys.len() && flags@[sel@[a] as int],
            forall|a: int, b: int| 0 <= a < b < sel@.len() ==> seq_lt(
                #[trigger] keys[sel@[a] as int],
                #[trigger] keys[sel@[b] as int],
            ),
            forall|a: int, c: int| 0 <= a < sel@.len() && i <= c < order@.len() ==> seq_lt(
                #[trigger] keys[sel@[a] as int],
                #[trigger] keys[order@[c] as int],
            ),
            forall|c: int| 0 <= c < i && flags@[order@[c] as int] ==> #[trigger] occurs(sel@, order@[c] as int),
        decreases order.len() - i,
    {
        let idx = order[i];
        if flags[idx] {
            let ghost before = sel@;
            sel.push(idx);
            proof {
                assert forall|a: int, b: int| 0 <= a < b < sel@.len() implies seq_lt(
                    #[trigger] keys[sel@[a] as int],
                    #[trigger] keys[sel@[b] as int],
                ) by {
                    if b == before.len() {
                        assert(sel@[a] == before[a]);
                    } else {
                        assert(sel@[a] == before[a]);
                        assert(sel@[b] == before[b]);
                    }
                }
                assert forall|a: int, c: int| 0 <= a < sel@.len() && i + 1 <= c < order@.len() implies seq_lt(
                    #[trigger] keys[sel@[a] as int],
                    #[trigger] keys[order@[c] as int],
                ) by {
                    if a == before.len() {
                        assert(seq_lt(keys[order@[i as int] as int], keys[order@[c] as int]));
                    } else {
                        assert(sel@[a] == before[a]);
                    }
                }
                assert forall|c: int| 0 <= c < i + 1 && flags@[order@[c] as int] implies #[trigger] occurs(sel@, order@[c] as int) by {
                    if c == i {
                        assert(sel@[before.len() as int] == order@[c]);
                    } else {
                        assert(occurs(before, order@[c] as int));
                        let a = choose|a: int| 0 <= a < before.len() && before[a] == order@[c] as int;
                        assert(sel@[a] == before[a]);
                    }
                }
            }
        }
        i += 1;
    }
    proof {
        assert forall|k: int| 0 <= k < keys.len() && flags@[k] implies #[trigger] occurs(sel@, k) by {
            assert(occurs(order@, k));
            let c = choose|c: int| 0 <= c < order@.len() && order@[c] == k;
            assert(flags@[order@[c] as int]);
        }
    }
    sel
}

} // verus!

verus! {

/// A key of the map sits at the position `index_of` finds, and `spec_get`
/// gives the value stored there.
pub proof fn lemma_spec_get_entry<V>(m: &StrMap<V>, k: Seq<char>)
    requires
        m.has_key(k),
    ensures
        0 <= m.keys().index_of(k) < m.entries().len(),
        m.entries()[m.keys().index_of(k)].0@ == k,
        m.spec_get(k) == Some(m.entries()[m.keys().index_of(k)].1),
{
    let i = m.keys().index_of(k);
    assert(m.keys()[i] == m.entries()[i].0@);
}

/// In a map with ascending keys, `spec_get` of the key at position `i` is the
/// value at position `i`.
pub proof fn lemma_entry_spec_get<V>(m: &StrMap<V>, i: int)
    requires
        strictly_sorted(m.keys()),
        0 <= i < m.entries().len(),
    ensures
        m.has_key(m.entries()[i].0@),
        m.spec_get(m.entries()[i].0@) == Some(m.entries()[i].1),
{
    let k = m.entries()[i].0@;
    assert(m.keys()[i] == k);
    assert(m.keys().contains(k));
    let j = m.keys().index_of(k);
    if j < i {
        assert(seq_lt(m.keys()[j], m.keys()[i]));
        lemma_seq_lt_irreflexive(k);
    } else if j > i {
        assert(seq_lt(m.keys()[i], m.keys()[j]));
        lemma_seq_lt_irreflexive(k);
    }
}

} // verus!

verus! {

/// Appending `x` keeps the strings distinct exactly when `x` is new.
pub proof fn lemma_all_distinct_push(s: Seq<Seq<char>>, x: Seq<char>)
    ensures
        all_distinct(s.push(x)) == (all_distinct(s) && !s.contains(x)),
{
    let t = s.push(x);
    if all_distinct(t) {
        assert forall|i: int, j: int| 0 <= i < s.len() && 0 <= j < s.len() && i != j implies s[i] != s[j] by {
            assert(t[i] == s[i] && t[j] == s[j]);
        }
        if s.contains(x) {
            let k = choose|k: int| 0 <= k < s.len() && s[k] == x;
            assert(t[k] == t[s.len() as int]);
        }
    }
    if all_distinct(s) && !s.contains(x) {
        assert forall|i: int, j: int| 0 <= i < t.len() && 0 <= j < t.len() && i != j implies t[i] != t[j] by {
            if i < s.len() && j < s.len() {
                assert(t[i] == s[i] && t[j] == s[j]);
            } else if i < s.len() {
                assert(t[i] == s[i]);
            } else {
                assert(t[j] == s[j]);
            }
        }
    }
}

} // verus!

verus! {

/// The values of the entries, in order.
pub open spec fn entry_values<V>(s: Seq<(String, V)>) -> Seq<V> {
    s.map_values(|e: (String, V)| e.1)
}

impl<V> StrMap<V> {
    /// The values in ascending key order.
    pub fn into_values(self) -> (v: Vec<V>)
        ensures
            v@ == entry_values(self.entries()),
    {
        let ghost all = self.entries@;
        let mut entries = self.entries;
        let mut reversed: Vec<V> = Vec::new();
        while entries.len() > 0
            invariant
                entries@.len() + reversed@.len() == all.len(),
                entries@ == all.take(entries@.len() as int),
                forall|k: int| 0 <= k < reversed@.len() ==> #[trigger] reversed@[k] == all[all.len() - 1 - k].1,
            decreases entries.len(),
        {
            let ghost n = entries@.len();
            let e = entries.pop().unwrap();
            assert(e == all[n - 1]);
            reversed.push(e.1);
            assert(entries@ =~= all.take(n - 1));
        }
        let mut out: Vec<V> = Vec::new();
        while reversed.len() > 0
            invariant
                out@.len() + reversed@.len() == all.len(),
                forall|k: int| 0 <= k < reversed@.len() ==> #[trigger] reversed@[k] == all[all.len() - 1 - k].1,
                forall|k: int| 0 <= k < out@.len() ==> #[trigger] out@[k] == all[k].1,
            decreases reversed.len(),
        {
            let ghost n = reversed@.len();
            let x = reversed.pop().unwrap();
            assert(x == all[all.len() - n].1);
            out.push(x);
        }
        assert(out@ =~= entry_values(all));
        out
    }
}

} // verus!

verus! {

/// Strictly ascending strings have no repeats.
pub proof fn lemma_sorted_no_duplicates(s: Seq<Seq<char>>)
    requires
        strictly_sorted(s),
    ensures
        s.no_duplicates(),
{
    assert forall|i: int, j: int| 0 <= i < s.len() && 0 <= j < s.len() && i != j implies s[i] != s[j] by {
        if i < j {
            assert(seq_lt(s[i], s[j]));
        } else {
            assert(seq_lt(s[j], s[i]));
        }
        lemma_seq_lt_irreflexive(s[i]);
    }
}

/// In strictly ascending strings, `index_of` finds each item at its own position.
pub proof fn lemma_sorted_index_of(s: Seq<Seq<char>>, k: int)
    requires
        strictly_sorted(s),
        0 <= k < s.len(),
    ensures
        s.index_of(s[k]) == k,
{
    assert(s.contains(s[k]));
    let j = s.index_of(s[k]);
    if j != k {
        if j < k {
            assert(seq_lt(s[j], s[k]));
        } else {
            assert(seq_lt(s[k], s[j]));
        }
        lemma_seq_lt_irreflexive(s[k]);
    }
}

/// Items without repeats, all drawn from `b` (itself without repeats), are no
/// more than `b`; as many, and they are all of `b`.
pub proof fn lemma_unique_subseq_len(a: Seq<Seq<char>>, b: Seq<Seq<char>>)
    requires
        a.no_duplicates(),
        b.no_duplicates(),
        forall|i: int| 0 <= i < a.len() ==> b.contains(#[trigger] a[i]),
    ensures
        a.len() <= b.len(),
        a.len() == b.len() ==> forall|j: int| 0 <= j < b.len() ==> a.contains(#[trigger] b[j]),
{
    broadcast use vstd::seq_lib::seq_to_set_is_finite;
    a.unique_seq_to_set();
    b.unique_seq_to_set();
    assert(a.to_set().subset_of(b.to_set())) by {
        assert forall|x: Seq<char>| a.to_set().contains(x) implies b.to_set().contains(x) by {
            let i = choose|i: int| 0 <= i < a.len() && a[i] == x;
            assert(b.contains(a[i]));
        }
    }
    vstd::set_lib::lemma_len_subset(a.to_set(), b.to_set());
    if a.len() == b.len() {
        vstd::set_lib::lemma_subset_equality(a.to_set(), b.to_set());
        assert forall|j: int| 0 <= j < b.len() implies a.contains(#[trigger] b[j]) by {
            assert(b.to_set().contains(b[j]));
            assert(a.to_set().contains(b[j]));
        }
    }
}

} // verus!

verus! {

/// The keys taken in the given order.
pub open spec fn keys_in_order(keys: Seq<Seq<char>>, order: Seq<usize>) -> Seq<Seq<char>> {
    order.map_values(|i: usize| keys[i as int])
}

/// Distinct keys have one ascending order.
pub proof fn lemma_sort_order_unique(keys: Seq<Seq<char>>, o1: Seq<usize>, o2: Seq<usize>)
    requires
        is_sort_order(keys, o1),
        is_sort_order(keys, o2),
        all_distinct(keys),
    ensures
        o1 == o2,
{
    let s1 = keys_in_order(keys, o1);
    let s2 = keys_in_order(keys, o2);
    assert(strictly_sorted(s1)) by {
        assert forall|i: int, j: int| 0 <= i < j < s1.len() implies seq_lt(#[trigger] s1[i], #[trigger] s1[j]) by {
            assert(seq_lt(keys[o1[i] as int], keys[o1[j] as int]));
        }
    }
    assert(strictly_sorted(s2)) by {
        assert forall|i: int, j: int| 0 <= i < j < s2.len() implies seq_lt(#[trigger] s2[i], #[trigger] s2[j]) by {
            assert(seq_lt(keys[o2[i] as int], keys[o2[j] as int]));
        }
    }
    assert forall|x: Seq<char>| s1.contains(x) <==> s2.contains(x) by {
        if s1.contains(x) {
            let i = choose|i: int| 0 <= i < s1.len() && s1[i] == x;
            let k = o1[i] as int;
            assert(occurs(o2, k));
            let b = choose|b: int| 0 <= b < o2.len() && #[trigger] o2[b] == k;
            assert(s2[b] == x);
        }
        if s2.contains(x) {
            let i = choose|i: int| 0 <= i < s2.len() && s2[i] == x;
            let k = o2[i] as int;
            assert(occurs(o1, k));
            let b = choose|b: int| 0 <= b < o1.len() && #[trigger] o1[b] == k;
            assert(s1[b] == x);
        }
    }
    lemma_sorted_same_members(s1, s2);
    assert forall|a: int| 0 <= a < o1.len() implies o1[a] == o2[a] by {
        assert(s1[a] == s2[a]);
        assert(o1[a] < keys.len() && o2[a] < keys.len());
    }
    assert(o1 =~= o2);
}

} // verus!
