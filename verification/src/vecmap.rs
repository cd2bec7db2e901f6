//! Small maps that are searched from front to back.
//!
//! [`VecMap`] keeps its entries in the order in which they came, [`SortedMap`] by
//! the wire form of their keys.

use crate::id;
use crate::id::{Id, Value};
use vstd::prelude::*;

verus! {

/// A map from keys to values.
pub struct VecMap<K, V> {
    entries: Vec<(K, V)>,
}

spec fn distinct<K, V>(s: Seq<(K, V)>) -> bool {
    forall|i: int, j: int| 0 <= i < j < s.len() ==> (#[trigger] s[i]).0 != (#[trigger] s[j]).0
}

spec fn holds<K, V>(s: Seq<(K, V)>, k: K) -> bool {
    exists|i: int| 0 <= i < s.len() && (#[trigger] s[i]).0 == k
}

spec fn slot<K, V>(s: Seq<(K, V)>, k: K) -> int {
    choose|i: int| 0 <= i < s.len() && (#[trigger] s[i]).0 == k
}

spec fn as_map<K, V>(s: Seq<(K, V)>) -> Map<K, V> {
    Map::new(|k: K| holds(s, k), |k: K| s[slot(s, k)].1)
}

spec fn firsts<K, V>(s: Seq<(K, V)>) -> Seq<K> {
    Seq::new(s.len(), |i: int| s[i].0)
}


proof fn entry_of<K, V>(s: Seq<(K, V)>, i: int)
    requires
        distinct(s),
        0 <= i < s.len(),
    ensures
        as_map(s).dom().contains(s[i].0),
        as_map(s)[s[i].0] == s[i].1,
{
    let k = s[i].0;
    assert(holds(s, k));
    let j = slot(s, k);
    assert(0 <= j < s.len() && s[j].0 == k);
    if j < i {
        assert(s[j].0 != s[i].0);
    }
    if i < j {
        assert(s[i].0 != s[j].0);
    }
}

proof fn keys_of<K, V>(s: Seq<(K, V)>)
    requires
        distinct(s),
    ensures
        firsts(s).no_duplicates(),
        forall|k: K| #[trigger] as_map(s).dom().contains(k) <==> firsts(s).contains(k),
        as_map(s).dom().finite(),
        as_map(s).dom().len() == s.len(),
{
    let f = firsts(s);
    assert forall|k: K| #[trigger] as_map(s).dom().contains(k) implies f.contains(k) by {
        let i = slot(s, k);
        assert(f[i] == k);
    }
    assert forall|k: K| f.contains(k) implies #[trigger] as_map(s).dom().contains(k) by {
        let i = choose|i: int| 0 <= i < f.len() && f[i] == k;
        assert(s[i].0 == k);
    }
    f.unique_seq_to_set();
    assert(f.to_set() =~= as_map(s).dom());
}

impl<K, V> View for VecMap<K, V> {
    type V = Map<K, V>;

    closed spec fn view(&self) -> Map<K, V> {
        as_map(self.entries@)
    }
}

impl<K, V> VecMap<K, V> {
    #[verifier::type_invariant]
    spec fn inv(self) -> bool {
        distinct(self.entries@)
    }

    /// The keys, in the order in which the entries stand.
    pub closed spec fn keys(&self) -> Seq<K> {
        firsts(self.entries@)
    }
}

impl<K: Value, V> VecMap<K, V> {
    /// Returns a map without entries.
    pub fn new() -> (r: Self)
        ensures
            r@ == Map::<K, V>::empty(),
            r.keys() == Seq::<K>::empty(),
    {
        let r = VecMap { entries: Vec::new() };
        assert(r@ =~= Map::<K, V>::empty());
        r
    }

    /// Returns the number of entries.
    pub fn len(&self) -> (n: usize)
        ensures
            n == self.keys().len(),
            n == self@.dom().len(),
            self@.dom().finite(),
            self.keys().no_duplicates(),
            forall|k: K| #[trigger] self@.dom().contains(k) <==> self.keys().contains(k),
    {
        proof {
            use_type_invariant(self);
            keys_of(self.entries@);
        }
        self.entries.len()
    }

    /// Returns the entry at `i`.
    pub fn entry_at(&self, i: usize) -> (r: (&K, &V))
        requires
            i < self.keys().len(),
        ensures
            *r.0 == self.keys()[i as int],
            self@.dom().contains(*r.0),
            *r.1 == self@[*r.0],
    {
        proof {
            use_type_invariant(self);
            entry_of(self.entries@, i as int);
        }
        let e = &self.entries[i];
        (&e.0, &e.1)
    }

    fn find(&self, k: &K) -> (r: Option<usize>)
        ensures
            match r {
                Some(i) => i < self.entries@.len() && self.entries@[i as int].0 == *k,
                None => !holds(self.entries@, *k),
            },
    {
        let mut i: usize = 0;
        while i < self.entries.len()
            invariant
                i <= self.entries@.len(),
                forall|j: int| 0 <= j < i ==> (#[trigger] self.entries@[j]).0 != *k,
            decreases self.entries@.len() - i,
        {
            if self.entries[i].0.same(k) {
                return Some(i);
            }
            i += 1;
        }
        None
    }

    /// Returns the value under `k`.
    pub fn get(&self, k: &K) -> (r: Option<&V>)
        ensures
            match r {
                Some(v) => self@.dom().contains(*k) && *v == self@[*k],
                None => !self@.dom().contains(*k),
            },
    {
        match self.find(k) {
            Some(i) => {
                proof {
                    use_type_invariant(self);
                    entry_of(self.entries@, i as int);
                }
                Some(&self.entries[i].1)
            },
            None => None,
        }
    }

    /// Returns `true` if there is an entry under `k`.
    pub fn contains_key(&self, k: &K) -> (r: bool)
        ensures
            r == self@.dom().contains(*k),
    {
        self.get(k).is_some()
    }

    /// Puts a new entry before the entry at `at`.
    pub(crate) fn insert_at(&mut self, at: usize, k: K, v: V)
        requires
            at <= old(self).keys().len(),
            !old(self)@.dom().contains(k),
        ensures
            final(self)@ == old(self)@.insert(k, v),
            final(self).keys() == old(self).keys().insert(at as int, k),
    {
        proof {
            use_type_invariant(&*self);
        }
        let ghost s = self.entries@;
        let mut entries: Vec<(K, V)> = Vec::new();
        core::mem::swap(&mut entries, &mut self.entries);
        entries.insert(at, (k, v));
        proof {
            let t = entries@;
            assert forall|i: int, j: int| 0 <= i < j < t.len() implies (#[trigger] t[i]).0 != (
            #[trigger] t[j]).0 by {
                let a = if i < at {
                    i
                } else {
                    i - 1
                };
                let b = if j < at {
                    j
                } else {
                    j - 1
                };
                if i == at {
                    assert(t[j] == s[b]);
                    assert(holds(s, s[b].0));
                } else if j == at {
                    assert(t[i] == s[a]);
                    assert(holds(s, s[a].0));
                } else {
                    assert(t[i] == s[a] && t[j] == s[b]);
                }
            }
            assert(distinct(t));
            assert forall|q: K| holds(t, q) <==> (q == k || holds(s, q)) by {
                if holds(s, q) {
                    let i = slot(s, q);
                    let j = if i < at {
                        i
                    } else {
                        i + 1
                    };
                    assert(t[j] == s[i]);
                }
                if holds(t, q) {
                    let j = slot(t, q);
                    if j != at {
                        let i = if j < at {
                            j
                        } else {
                            j - 1
                        };
                        assert(t[j] == s[i]);
                    }
                }
                if q == k {
                    assert(t[at as int].0 == q);
                }
            }
            assert forall|q: K| holds(t, q) implies as_map(t)[q] == as_map(s).insert(k, v)[q] by {
                let j = slot(t, q);
                entry_of(t, j);
                if j != at {
                    let i = if j < at {
                        j
                    } else {
                        j - 1
                    };
                    assert(t[j] == s[i]);
                    entry_of(s, i);
                }
            }
            assert(as_map(t) =~= as_map(s).insert(k, v));
            assert(firsts(t) =~= firsts(s).insert(at as int, k));
        }
        self.entries = entries;
    }

    /// Removes the entry at `at`.
    pub fn remove_at(&mut self, at: usize) -> (r: (K, V))
        requires
            at < old(self).keys().len(),
        ensures
            r.0 == old(self).keys()[at as int],
            old(self)@.dom().contains(r.0),
            r.1 == old(self)@[r.0],
            final(self)@ == old(self)@.remove(r.0),
            final(self).keys() == old(self).keys().remove(at as int),
    {
        proof {
            use_type_invariant(&*self);
        }
        let ghost s = self.entries@;
        let mut entries: Vec<(K, V)> = Vec::new();
        core::mem::swap(&mut entries, &mut self.entries);
        let r = entries.remove(at);
        proof {
            let t = entries@;
            let k = s[at as int].0;
            entry_of(s, at as int);
            assert forall|i: int, j: int| 0 <= i < j < t.len() implies (#[trigger] t[i]).0 != (
            #[trigger] t[j]).0 by {
                let a = if i < at {
                    i
                } else {
                    i + 1
                };
                let b = if j < at {
                    j
                } else {
                    j + 1
                };
                assert(t[i] == s[a] && t[j] == s[b]);
            }
            assert(distinct(t));
            assert forall|q: K| holds(t, q) <==> (q != k && holds(s, q)) by {
                if holds(t, q) {
                    let j = slot(t, q);
                    let i = if j < at {
                        j
                    } else {
                        j + 1
                    };
                    assert(t[j] == s[i]);
                }
                if q != k && holds(s, q) {
                    let i = slot(s, q);
                    let j = if i < at {
                        i
                    } else {
                        i - 1
                    };
                    assert(t[j] == s[i]);
                }
            }
            assert forall|q: K| holds(t, q) implies as_map(t)[q] == as_map(s)[q] by {
                let j = slot(t, q);
                entry_of(t, j);
                let i = if j < at {
                    j
                } else {
                    j + 1
                };
                assert(t[j] == s[i]);
                entry_of(s, i);
            }
            assert(as_map(t) =~= as_map(s).remove(k));
            assert(firsts(t) =~= firsts(s).remove(at as int));
        }
        self.entries = entries;
        r
    }

    /// Puts `v` under `k`, in place of what was there.
    pub fn insert(&mut self, k: K, v: V)
        ensures
            final(self)@ == old(self)@.insert(k, v),
            old(self)@.dom().contains(k) ==> final(self).keys() == old(self).keys(),
            !old(self)@.dom().contains(k) ==> final(self).keys() == old(self).keys().push(k),
    {
        let n = self.len();
        match self.find(&k) {
            Some(i) => {
                proof {
                    use_type_invariant(&*self);
                }
                let ghost s = self.entries@;
                let mut entries: Vec<(K, V)> = Vec::new();
                core::mem::swap(&mut entries, &mut self.entries);
                entries.set(i, (k, v));
                proof {
                    let t = entries@;
                    entry_of(s, i as int);
                    assert forall|a: int, b: int| 0 <= a < b < t.len() implies (
                    #[trigger] t[a]).0 != (#[trigger] t[b]).0 by {
                        assert(t[a].0 == s[a].0 && t[b].0 == s[b].0);
                    }
                    assert(distinct(t));
                    assert forall|q: K| holds(t, q) <==> holds(s, q) by {
                        if holds(s, q) {
                            assert(t[slot(s, q)].0 == q);
                        }
                        if holds(t, q) {
                            assert(s[slot(t, q)].0 == q);
                        }
                    }
                    assert forall|q: K| holds(t, q) implies as_map(t)[q] == as_map(s).insert(k, v)[q] by {
                        let j = slot(t, q);
                        entry_of(t, j);
                        entry_of(s, j);
                    }
                    assert(as_map(t) =~= as_map(s).insert(k, v));
                    assert(firsts(t) =~= firsts(s));
                }
                self.entries = entries;
            },
            None => {
                self.insert_at(n, k, v);
                assert(self.keys() =~= old(self).keys().push(k));
            },
        }
    }

    /// Removes the entry under `k`, if there is one.
    pub fn remove(&mut self, k: &K) -> (r: Option<V>)
        ensures
            match r {
                Some(v) => old(self)@.dom().contains(*k) && v == old(self)@[*k],
                None => !old(self)@.dom().contains(*k),
            },
            final(self)@ == old(self)@.remove(*k),
    {
        match self.find(k) {
            Some(i) => {
                let e = self.remove_at(i);
                Some(e.1)
            },
            None => {
                assert(self@ =~= self@.remove(*k));
                None
            },
        }
    }
}

/// Whether `a` and `b` agree up to byte `k`, where `a` ends or has the smaller
/// byte.
pub open spec fn parts_below(a: Seq<u8>, b: Seq<u8>, k: int) -> bool {
    &&& 0 <= k <= a.len()
    &&& k < b.len()
    &&& forall|j: int| 0 <= j < k ==> #[trigger] a[j] == b[j]
    &&& k == a.len() || a[k] < b[k]
}

/// Whether `a` comes before `b` in the order of a dictionary.
pub open spec fn lex_below(a: Seq<u8>, b: Seq<u8>) -> bool {
    exists|k: int| #[trigger] parts_below(a, b, k)
}

proof fn lex_below_transitive(a: Seq<u8>, b: Seq<u8>, c: Seq<u8>)
    requires
        lex_below(a, b),
        lex_below(b, c),
    ensures
        lex_below(a, c),
{
    let k = choose|k: int| #[trigger] parts_below(a, b, k);
    let m = choose|m: int| #[trigger] parts_below(b, c, m);
    if k <= m {
        assert(parts_below(a, c, k));
    } else {
        assert(parts_below(a, c, m));
    }
}

proof fn lex_below_irreflexive(a: Seq<u8>)
    ensures
        !lex_below(a, a),
{
}

/// Whether the ids stand in the order of their wire forms.
pub open spec fn wire_sorted<K: Id>(s: Seq<K>) -> bool {
    forall|i: int, j: int|
        0 <= i < j < s.len() ==> lex_below((#[trigger] s[i]).wire(), (#[trigger] s[j]).wire())
}

/// Whether a list holds the elements of a set in the order of their wire forms.
pub open spec fn lists_in_wire_order<K: Id>(s: Seq<K>, dom: Set<K>) -> bool {
    wire_sorted(s) && forall|k: K| s.contains(k) <==> dom.contains(k)
}

/// The elements of a set in the order of their wire forms.
pub open spec fn in_wire_order<K: Id>(dom: Set<K>) -> Seq<K> {
    choose|s: Seq<K>| #[trigger] lists_in_wire_order(s, dom)
}

/// A list of the elements of a set in the order of their wire forms is the only
/// one.
pub proof fn wire_order_is_unique<K: Id>(s: Seq<K>, dom: Set<K>)
    requires
        lists_in_wire_order(s, dom),
    ensures
        s == in_wire_order(dom),
{
    wire_sorted_is_unique(s, in_wire_order(dom));
}

proof fn lex_below_is_total(a: Seq<u8>, b: Seq<u8>, k: int)
    requires
        a != b,
        0 <= k <= a.len(),
        k <= b.len(),
        forall|j: int| 0 <= j < k ==> #[trigger] a[j] == b[j],
    ensures
        lex_below(a, b) || lex_below(b, a),
    decreases a.len() - k,
{
    if k == a.len() {
        if k == b.len() {
            assert(a =~= b);
        } else {
            assert(parts_below(a, b, k));
        }
    } else if k == b.len() {
        assert(parts_below(b, a, k));
    } else if a[k] < b[k] {
        assert(parts_below(a, b, k));
    } else if b[k] < a[k] {
        assert(parts_below(b, a, k));
    } else {
        lex_below_is_total(a, b, k + 1);
    }
}

proof fn insert_in_wire_order<K: Id>(s: Seq<K>, k: K) -> (t: Seq<K>)
    requires
        wire_sorted(s),
        !s.contains(k),
    ensures
        wire_sorted(t),
        forall|x: K| #[trigger] t.contains(x) <==> s.contains(x) || x == k,
    decreases s.len(),
{
    if s.len() == 0 {
        let t = seq![k];
        assert(t[0] == k);
        t
    } else {
        let last = s.last();
        let rest = s.drop_last();
        assert(s[s.len() - 1] == last);
        assert(last != k);
        if last.wire() == k.wire() {
            id::wire_is_injective(last, k);
        }
        assert(s =~= rest.push(last));
        lex_below_is_total(last.wire(), k.wire(), 0);
        if lex_below(last.wire(), k.wire()) {
            let t = s.push(k);
            assert forall|i: int, j: int| 0 <= i < j < t.len() implies lex_below(
                (#[trigger] t[i]).wire(),
                (#[trigger] t[j]).wire(),
            ) by {
                if j == s.len() && i < s.len() - 1 {
                    lex_below_transitive(s[i].wire(), last.wire(), k.wire());
                }
            }
            assert forall|x: K| #[trigger] t.contains(x) <==> s.contains(x) || x == k by {
                if s.contains(x) {
                    let i = choose|i: int| 0 <= i < s.len() && s[i] == x;
                    assert(t[i] == x);
                }
                assert(t[s.len() as int] == k);
                if t.contains(x) && x != k {
                    let i = choose|i: int| 0 <= i < t.len() && t[i] == x;
                    assert(s[i] == x);
                }
            }
            t
        } else {
            assert forall|x: K| rest.contains(x) implies s.contains(x) by {
                let i = choose|i: int| 0 <= i < rest.len() && rest[i] == x;
                assert(s[i] == x);
            }
            let u = insert_in_wire_order(rest, k);
            let t = u.push(last);
            assert forall|i: int, j: int| 0 <= i < j < t.len() implies lex_below(
                (#[trigger] t[i]).wire(),
                (#[trigger] t[j]).wire(),
            ) by {
                if j == u.len() {
                    assert(u.contains(u[i]));
                    if u[i] != k {
                        let m = choose|m: int| 0 <= m < rest.len() && rest[m] == u[i];
                        assert(s[m] == u[i]);
                    }
                }
            }
            assert forall|x: K| #[trigger] t.contains(x) <==> s.contains(x) || x == k by {
                assert(t[u.len() as int] == last);
                if u.contains(x) {
                    let i = choose|i: int| 0 <= i < u.len() && u[i] == x;
                    assert(t[i] == x);
                }
                if t.contains(x) && x != last {
                    let i = choose|i: int| 0 <= i < t.len() && t[i] == x;
                    assert(u[i] == x);
                }
                if s.contains(x) && x != last {
                    let i = choose|i: int| 0 <= i < s.len() && s[i] == x;
                    assert(rest[i] == x);
                }
            }
            t
        }
    }
}

/// Every finite set of ids can be put in the order of their wire forms.
pub proof fn wire_order_exists<K: Id>(dom: Set<K>)
    requires
        dom.finite(),
    ensures
        lists_in_wire_order(in_wire_order(dom), dom),
    decreases dom.len(),
{
    if dom.len() == 0 {
        let s = Seq::<K>::empty();
        assert(lists_in_wire_order(s, dom));
    } else {
        let k = dom.choose();
        let rest = dom.remove(k);
        wire_order_exists(rest);
        let s = insert_in_wire_order(in_wire_order(rest), k);
        assert forall|x: K| s.contains(x) <==> dom.contains(x) by {
            assert(s.contains(x) <==> in_wire_order(rest).contains(x) || x == k);
        }
        assert(lists_in_wire_order(s, dom));
    }
}

/// No id stands twice in the order of wire forms.
pub proof fn wire_sorted_has_no_duplicates<K: Id>(s: Seq<K>)
    requires
        wire_sorted(s),
    ensures
        s.no_duplicates(),
{
    assert forall|i: int, j: int| 0 <= i < s.len() && 0 <= j < s.len() && i != j implies s[i]
        != s[j] by {
        lex_below_irreflexive(s[i].wire());
        if i < j {
            assert(lex_below(s[i].wire(), s[j].wire()));
        } else {
            assert(lex_below(s[j].wire(), s[i].wire()));
        }
    }
}

/// There is one way only to put a set of ids in the order of their wire forms.
pub proof fn wire_sorted_is_unique<K: Id>(s: Seq<K>, t: Seq<K>)
    requires
        wire_sorted(s),
        wire_sorted(t),
        forall|k: K| s.contains(k) <==> t.contains(k),
    ensures
        s == t,
    decreases s.len(),
{
    if s.len() == 0 {
        if t.len() > 0 {
            assert(t.contains(t[0]));
        }
        assert(s =~= t);
    } else {
        assert(s.contains(s.last()));
        assert(t.contains(s.last()));
        let a = choose|a: int| 0 <= a < t.len() && t[a] == s.last();
        assert(t.contains(t.last()));
        assert(s.contains(t.last()));
        let b = choose|b: int| 0 <= b < s.len() && s[b] == t.last();
        if a < t.len() - 1 && b < s.len() - 1 {
            lex_below_transitive(s.last().wire(), t.last().wire(), s.last().wire());
            lex_below_irreflexive(s.last().wire());
        }
        assert(s.last() == t.last());
        let s1 = s.drop_last();
        let t1 = t.drop_last();
        assert forall|k: K| s1.contains(k) <==> t1.contains(k) by {
            lex_below_irreflexive(k.wire());
            if s1.contains(k) {
                let i = choose|i: int| 0 <= i < s1.len() && s1[i] == k;
                assert(s[i] == k);
                assert(s.contains(k));
                let j = choose|j: int| 0 <= j < t.len() && t[j] == k;
                assert(lex_below(s[i].wire(), s[s.len() - 1].wire()));
                assert(t1[j] == k);
            }
            if t1.contains(k) {
                let j = choose|j: int| 0 <= j < t1.len() && t1[j] == k;
                assert(t[j] == k);
                assert(t.contains(k));
                let i = choose|i: int| 0 <= i < s.len() && s[i] == k;
                assert(lex_below(t[j].wire(), t[t.len() - 1].wire()));
                assert(s1[i] == k);
            }
        }
        wire_sorted_is_unique(s1, t1);
        assert(s =~= s1.push(s.last()));
        assert(t =~= t1.push(t.last()));
    }
}

/// Returns `true` if `a` comes before `b`.
fn comes_before(a: &Vec<u8>, b: &Vec<u8>) -> (r: bool)
    ensures
        r == lex_below(a@, b@),
        !r && a@ != b@ ==> lex_below(b@, a@),
{
    let mut k: usize = 0;
    while k < a.len() && k < b.len() && a[k] == b[k]
        invariant
            k <= a@.len(),
            k <= b@.len(),
            forall|j: int| 0 <= j < k ==> #[trigger] a@[j] == b@[j],
        decreases a@.len() - k,
    {
        k += 1;
    }
    let r = k < b.len() && (k == a.len() || a[k] < b[k]);
    proof {
        if r {
            assert(parts_below(a@, b@, k as int));
        } else {
            if k == b@.len() && k == a@.len() {
                assert(a@ =~= b@);
            } else {
                assert(parts_below(b@, a@, k as int));
            }
            if lex_below(a@, b@) {
                let m = choose|m: int| #[trigger] parts_below(a@, b@, m);
                assert(m < k ==> a@[m] == b@[m]);
                assert(false);
            }
        }
    }
    r
}

/// A map whose entries stand in the order of the wire forms of their keys.
pub struct SortedMap<K: Id, V> {
    map: VecMap<K, V>,
}

impl<K: Id, V> View for SortedMap<K, V> {
    type V = Map<K, V>;

    closed spec fn view(&self) -> Map<K, V> {
        self.map@
    }
}

impl<K: Id, V> SortedMap<K, V> {
    #[verifier::type_invariant]
    spec fn inv(self) -> bool {
        wire_sorted(self.map.keys())
    }

    /// The keys, in the order of their wire forms.
    pub closed spec fn keys(&self) -> Seq<K> {
        self.map.keys()
    }

    /// Returns a map without entries.
    pub fn new() -> (r: Self)
        ensures
            r@ == Map::<K, V>::empty(),
            r.keys() == Seq::<K>::empty(),
    {
        SortedMap { map: VecMap::new() }
    }

    /// Returns the number of entries.
    pub fn len(&self) -> (n: usize)
        ensures
            n == self.keys().len(),
            n == self@.dom().len(),
            self@.dom().finite(),
            self.keys().no_duplicates(),
            wire_sorted(self.keys()),
            forall|k: K| #[trigger] self@.dom().contains(k) <==> self.keys().contains(k),
            self.keys() == in_wire_order(self@.dom()),
    {
        proof {
            use_type_invariant(self);
        }
        let n: usize = self.map.len();
        proof {
            wire_order_is_unique(self.keys(), self@.dom());
        }
        n
    }

    /// Returns the entry at `i`.
    pub fn entry_at(&self, i: usize) -> (r: (&K, &V))
        requires
            i < self.keys().len(),
        ensures
            *r.0 == self.keys()[i as int],
            self@.dom().contains(*r.0),
            *r.1 == self@[*r.0],
    {
        self.map.entry_at(i)
    }

    /// Returns the value under `k`.
    pub fn get(&self, k: &K) -> (r: Option<&V>)
        ensures
            match r {
                Some(v) => self@.dom().contains(*k) && *v == self@[*k],
                None => !self@.dom().contains(*k),
            },
    {
        self.map.get(k)
    }

    /// Returns `true` if there is an entry under `k`.
    pub fn contains_key(&self, k: &K) -> (r: bool)
        ensures
            r == self@.dom().contains(*k),
    {
        self.map.contains_key(k)
    }

    /// Puts `v` under `k`, in place of what was there.
    pub fn insert(&mut self, k: K, v: V)
        ensures
            final(self)@ == old(self)@.insert(k, v),
    {
        proof {
            use_type_invariant(&*self);
        }
        let mut map: VecMap<K, V> = VecMap::new();
        core::mem::swap(&mut map, &mut self.map);
        if map.contains_key(&k) {
            map.insert(k, v);
            self.map = map;
            return;
        }
        let ghost keys = map.keys();
        let n = map.len();
        let wire = k.encode_to_vec();
        let mut at: usize = 0;
        let mut found = false;
        while at < n && !found
            invariant
                at <= n,
                n == keys.len(),
                keys == map.keys(),
                wire@ == k.wire(),
                !map@.dom().contains(k),
                wire_sorted(keys),
                forall|j: int| 0 <= j < at ==> lex_below((#[trigger] keys[j]).wire(), k.wire()),
                found ==> at < n && lex_below(k.wire(), keys[at as int].wire()),
            decreases n - at, !found as int,
        {
            let (other, _) = map.entry_at(at);
            let other_wire = other.encode_to_vec();
            if comes_before(&wire, &other_wire) {
                found = true;
            } else {
                proof {
                    if wire@ == other_wire@ {
                        id::wire_is_injective(k, *other);
                    }
                }
                at += 1;
            }
        }
        map.insert_at(at, k, v);
        proof {
            let t = keys.insert(at as int, k);
            assert forall|i: int, j: int| 0 <= i < j < t.len() implies lex_below(
                (#[trigger] t[i]).wire(),
                (#[trigger] t[j]).wire(),
            ) by {
                if i == at {
                    assert(t[j] == keys[j - 1]);
                    if j - 1 > at {
                        lex_below_transitive(k.wire(), keys[at as int].wire(), keys[j - 1].wire());
                    }
                } else if j == at {
                    assert(t[i] == keys[i]);
                } else {
                    let a = if i < at {
                        i
                    } else {
                        i - 1
                    };
                    let b = if j < at {
                        j
                    } else {
                        j - 1
                    };
                    assert(t[i] == keys[a] && t[j] == keys[b]);
                }
            }
        }
        self.map = map;
    }

    /// Removes the entry at `at`.
    pub fn remove_at(&mut self, at: usize) -> (r: (K, V))
        requires
            at < old(self).keys().len(),
        ensures
            r.0 == old(self).keys()[at as int],
            old(self)@.dom().contains(r.0),
            r.1 == old(self)@[r.0],
            final(self)@ == old(self)@.remove(r.0),
            final(self).keys() == old(self).keys().remove(at as int),
    {
        proof {
            use_type_invariant(&*self);
        }
        let mut map: VecMap<K, V> = VecMap::new();
        core::mem::swap(&mut map, &mut self.map);
        let ghost keys = map.keys();
        let r = map.remove_at(at);
        proof {
            let t = keys.remove(at as int);
            assert forall|i: int, j: int| 0 <= i < j < t.len() implies lex_below(
                (#[trigger] t[i]).wire(),
                (#[trigger] t[j]).wire(),
            ) by {
                let a = if i < at {
                    i
                } else {
                    i + 1
                };
                let b = if j < at {
                    j
                } else {
                    j + 1
                };
                assert(t[i] == keys[a] && t[j] == keys[b]);
            }
        }
        self.map = map;
        r
    }

    /// Removes the entry under `k`, if there is one.
    pub fn remove(&mut self, k: &K) -> (r: Option<V>)
        ensures
            match r {
                Some(v) => old(self)@.dom().contains(*k) && v == old(self)@[*k],
                None => !old(self)@.dom().contains(*k),
            },
            final(self)@ == old(self)@.remove(*k),
    {
        match self.map.find(k) {
            Some(i) => {
                let e = self.remove_at(i);
                Some(e.1)
            },
            None => {
                assert(self@ =~= self@.remove(*k));
                None
            },
        }
    }
}

/// In the order of a dictionary the first byte in which two forms differ decides, and a form
/// comes before every longer one that begins with it. Of two forms that differ one comes
/// first, and not the other.
pub proof fn forms_stand_as_in_a_dictionary(a: Seq<u8>, b: Seq<u8>, k: int)
    requires
        0 <= k <= a.len(),
        k <= b.len(),
        forall|j: int| 0 <= j < k ==> #[trigger] a[j] == b[j],
    ensures
        k < a.len() && k < b.len() && a[k] < b[k] ==> lex_below(a, b) && !lex_below(b, a),
        k == a.len() && k < b.len() ==> lex_below(a, b) && !lex_below(b, a),
        a == b ==> !lex_below(a, b),
{
    if k < b.len() && (k == a.len() || a[k] < b[k]) {
        assert(parts_below(a, b, k));
        if lex_below(b, a) {
            lex_below_transitive(a, b, a);
            lex_below_irreflexive(a);
        }
    }
}

} // verus!
