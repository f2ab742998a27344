//! A map with text keys, kept in key order.

use vstd::prelude::*;
use crate::text;

verus! {

/// A map from text to `V`. The entries stand in the order of their keys, and
/// no key occurs twice.
#[derive(Debug)]
pub struct StrMap<V> {
    keys: Vec<String>,
    vals: Vec<V>,
}

/// Each text sorts before every later one.
pub open spec fn ascending(s: Seq<Seq<char>>) -> bool {
    forall|i: int, j: int| 0 <= i < j < s.len() ==> #[trigger] text::lex_lt(s[i], s[j])
}

/// Two ascending sequences with the same members are the same sequence.
pub proof fn ascending_unique(a: Seq<Seq<char>>, b: Seq<Seq<char>>)
    requires
        ascending(a),
        ascending(b),
        forall|k: Seq<char>| a.contains(k) <==> b.contains(k),
    ensures
        a == b,
    decreases a.len(),
{
    if a.len() == 0 {
        if b.len() > 0 {
            assert(b.contains(b[0]));
        }
        assert(a =~= b);
    } else {
        assert(a.contains(a[0]));
        assert(b.len() > 0);
        assert(b.contains(b[0]));
        let i = choose|i: int| 0 <= i < a.len() && a[i] == b[0];
        let j = choose|j: int| 0 <= j < b.len() && b[j] == a[0];
        if i > 0 && j > 0 {
            assert(text::lex_lt(a[0], a[i]));
            assert(text::lex_lt(b[0], b[j]));
            text::lex_asymmetric(a[0], b[0]);
        }
        assert(a[0] == b[0]);
        let x = a.drop_first();
        let y = b.drop_first();
        assert(ascending(x)) by {
            assert forall|p: int, q: int| 0 <= p < q < x.len() implies #[trigger] text::lex_lt(
                x[p],
                x[q],
            ) by {
                assert(text::lex_lt(a[p + 1], a[q + 1]));
            }
        }
        assert(ascending(y)) by {
            assert forall|p: int, q: int| 0 <= p < q < y.len() implies #[trigger] text::lex_lt(
                y[p],
                y[q],
            ) by {
                assert(text::lex_lt(b[p + 1], b[q + 1]));
            }
        }
        assert forall|k: Seq<char>| x.contains(k) <==> y.contains(k) by {
            if x.contains(k) {
                let p = choose|p: int| 0 <= p < x.len() && x[p] == k;
                assert(a[p + 1] == k);
                assert(text::lex_lt(a[0], a[p + 1]));
                text::lex_irreflexive(k);
                assert(a.contains(k));
                let q = choose|q: int| 0 <= q < b.len() && b[q] == k;
                assert(y[q - 1] == k);
            }
            if y.contains(k) {
                let p = choose|p: int| 0 <= p < y.len() && y[p] == k;
                assert(b[p + 1] == k);
                assert(text::lex_lt(b[0], b[p + 1]));
                text::lex_irreflexive(k);
                assert(b.contains(k));
                let q = choose|q: int| 0 <= q < a.len() && a[q] == k;
                assert(x[q - 1] == k);
            }
        }
        ascending_unique(x, y);
        assert(a =~= seq![a[0]] + x);
        assert(b =~= seq![b[0]] + y);
    }
}

impl<V> StrMap<V> {
    /// The keys, in order.
    pub closed spec fn key_seq(self) -> Seq<Seq<char>> {
        text::texts(self.keys@)
    }

    /// The values, in the order of their keys.
    pub closed spec fn val_seq(self) -> Seq<V> {
        self.vals@
    }

    /// One value per key, keys in ascending order.
    pub open spec fn wf(self) -> bool {
        self.key_seq().len() == self.val_seq().len() && ascending(self.key_seq())
    }

    /// The map that the entries make.
    pub open spec fn view(self) -> Map<Seq<char>, V> {
        Map::new(
            |k: Seq<char>| self.key_seq().contains(k),
            |k: Seq<char>| self.val_seq()[self.key_seq().index_of(k)],
        )
    }

    /// The entry at each position is the map's.
    pub proof fn entry(self, i: int)
        requires
            self.wf(),
            0 <= i < self.key_seq().len(),
        ensures
            self.view().contains_key(self.key_seq()[i]),
            self.view()[self.key_seq()[i]] == self.val_seq()[i],
            self.key_seq().index_of(self.key_seq()[i]) == i,
    {
        let k = self.key_seq()[i];
        assert(self.key_seq().contains(k));
        let j = self.key_seq().index_of(k);
        assert(self.key_seq()[j] == k);
        if j < i {
            assert(text::lex_lt(self.key_seq()[j], self.key_seq()[i]));
            text::lex_irreflexive(k);
        } else if i < j {
            assert(text::lex_lt(self.key_seq()[i], self.key_seq()[j]));
            text::lex_irreflexive(k);
        }
    }

    /// As many keys as entries.
    pub proof fn size(self)
        requires
            self.wf(),
        ensures
            self.view().dom().finite(),
            self.view().dom().len() == self.key_seq().len(),
    {
        let ks = self.key_seq();
        assert(ks.no_duplicates()) by {
            assert forall|i: int, j: int|
                0 <= i < ks.len() && 0 <= j < ks.len() && i != j implies ks[i] != ks[j] by {
                text::lex_irreflexive(ks[i]);
                if i < j {
                    assert(text::lex_lt(ks[i], ks[j]));
                } else {
                    assert(text::lex_lt(ks[j], ks[i]));
                }
            }
        }
        ks.unique_seq_to_set();
        assert(self.view().dom() =~= ks.to_set());
    }

    /// The empty map.
    pub fn new() -> (r: Self)
        ensures
            r.wf(),
            r.key_seq().len() == 0,
            r@ == Map::<Seq<char>, V>::empty(),
    {
        let r = StrMap { keys: Vec::new(), vals: Vec::new() };
        assert(r.key_seq().len() == 0);
        assert(r@ =~= Map::<Seq<char>, V>::empty());
        r
    }

    /// How many entries there are.
    pub fn len(&self) -> (r: usize)
        requires
            self.wf(),
        ensures
            r == self.key_seq().len(),
            r == self@.dom().len(),
    {
        proof {
            self.size();
        }
        self.keys.len()
    }

    /// The number of keys that sort before `key`, and whether `key` stands there.
    fn rank(&self, key: &str) -> (r: (usize, bool))
        requires
            self.wf(),
        ensures
            r.0 <= self.key_seq().len(),
            forall|j: int| 0 <= j < r.0 ==> text::lex_lt(#[trigger] self.key_seq()[j], key@),
            r.1 == self@.contains_key(key@),
            r.1 ==> r.0 < self.key_seq().len() && self.key_seq()[r.0 as int] == key@,
            !r.1 ==> forall|j: int|
                r.0 <= j < self.key_seq().len() ==> text::lex_lt(key@, #[trigger] self.key_seq()[j]),
    {
        let ghost ks = self.key_seq();
        let mut i: usize = 0;
        while i < self.keys.len() && text::before(self.keys[i].as_str(), key)
            invariant
                self.wf(),
                ks == self.key_seq(),
                ks.len() == self.keys@.len(),
                i <= self.keys@.len(),
                forall|j: int| 0 <= j < i ==> text::lex_lt(#[trigger] ks[j], key@),
            decreases self.keys@.len() - i,
        {
            assert(ks[i as int] == self.keys@[i as int]@);
            i = i + 1;
        }
        let found = i < self.keys.len() && text::same(self.keys[i].as_str(), key);
        proof {
            if found {
                assert(ks[i as int] == self.keys@[i as int]@);
                assert(ks.contains(key@));
            } else {
                assert forall|j: int| i <= j < ks.len() implies text::lex_lt(
                    key@,
                    #[trigger] ks[j],
                ) by {
                    assert(ks[i as int] == self.keys@[i as int]@);
                    text::lex_total(ks[i as int], key@);
                    if i < j {
                        assert(text::lex_lt(ks[i as int], ks[j]));
                        text::lex_transitive(key@, ks[i as int], ks[j]);
                    }
                }
                if ks.contains(key@) {
                    text::lex_irreflexive(key@);
                    let j = choose|j: int| 0 <= j < ks.len() && ks[j] == key@;
                    assert(text::lex_lt(ks[j], key@) || text::lex_lt(key@, ks[j]));
                }
            }
        }
        (i, found)
    }

    /// Is there an entry for `key`?
    pub fn contains_key(&self, key: &str) -> (r: bool)
        requires
            self.wf(),
        ensures
            r == self@.contains_key(key@),
    {
        self.rank(key).1
    }

    /// The value of `key`.
    pub fn get(&self, key: &str) -> (r: Option<&V>)
        requires
            self.wf(),
        ensures
            match r {
                Some(v) => self@.contains_key(key@) && *v == self@[key@],
                None => !self@.contains_key(key@),
            },
    {
        let (i, found) = self.rank(key);
        if found {
            proof {
                self.entry(i as int);
            }
            Some(&self.vals[i])
        } else {
            None
        }
    }

    /// The key at a position.
    pub fn key_at(&self, i: usize) -> (r: &String)
        requires
            self.wf(),
            i < self.key_seq().len(),
        ensures
            r@ == self.key_seq()[i as int],
    {
        assert(self.key_seq()[i as int] == self.keys@[i as int]@);
        &self.keys[i]
    }

    /// The value at a position.
    pub fn val_at(&self, i: usize) -> (r: &V)
        requires
            self.wf(),
            i < self.key_seq().len(),
        ensures
            *r == self.val_seq()[i as int],
            *r == self@[self.key_seq()[i as int]],
    {
        proof {
            self.entry(i as int);
        }
        &self.vals[i]
    }

    /// Give the entry at a position another value.
    pub fn set_val(&mut self, i: usize, v: V)
        requires
            old(self).wf(),
            i < old(self).key_seq().len(),
        ensures
            final(self).wf(),
            final(self).key_seq() == old(self).key_seq(),
            final(self).val_seq() == old(self).val_seq().update(i as int, v),
            final(self)@ == old(self)@.insert(old(self).key_seq()[i as int], v),
    {
        let ghost was = *self;
        self.vals[i] = v;
        proof {
            assert(self.val_seq() =~= was.val_seq().update(i as int, v));
            was.entry(i as int);
            assert(self@ =~= was@.insert(was.key_seq()[i as int], v)) by {
                assert forall|k: Seq<char>| self.key_seq().contains(k) implies self@[k]
                    == was@.insert(was.key_seq()[i as int], v)[k] by {
                    let j = self.key_seq().index_of(k);
                    assert(self.key_seq()[j] == k);
                    self.entry(j);
                    was.entry(j);
                }
            }
        }
    }

    /// Give `key` a value: a new entry, or another value for the entry it has.
    pub fn insert(&mut self, key: String, v: V)
        requires
            old(self).wf(),
        ensures
            final(self).wf(),
            final(self)@ == old(self)@.insert(key@, v),
    {
        let (i, found) = self.rank(key.as_str());
        if found {
            self.set_val(i, v);
        } else {
            let ghost was = *self;
            let ghost k = key@;
            self.keys.insert(i, key);
            self.vals.insert(i, v);
            proof {
                let ks = was.key_seq();
                let now = self.key_seq();
                assert(now =~= ks.insert(i as int, k));
                assert(self.val_seq() =~= was.val_seq().insert(i as int, v));
                assert forall|p: int, q: int| 0 <= p < q < now.len() implies #[trigger] text::lex_lt(
                    now[p],
                    now[q],
                ) by {
                    if q < i {
                        assert(text::lex_lt(ks[p], ks[q]));
                    } else if p > i {
                        assert(text::lex_lt(ks[p - 1], ks[q - 1]));
                    } else if p == i {
                        assert(text::lex_lt(k, ks[q - 1]));
                    } else if q == i {
                        assert(text::lex_lt(ks[p], k));
                    } else {
                        assert(text::lex_lt(ks[p], ks[q - 1]));
                    }
                }
                assert(self.wf());
                assert forall|x: Seq<char>| now.contains(x) <==> (ks.contains(x) || x == k) by {
                    if ks.contains(x) {
                        let p = ks.index_of(x);
                        if p < i {
                            assert(now[p] == x);
                        } else {
                            assert(now[p + 1] == x);
                        }
                    }
                    if x == k {
                        assert(now[i as int] == x);
                    }
                    if now.contains(x) && x != k {
                        let p = now.index_of(x);
                        if p < i {
                            assert(ks[p] == x);
                        } else {
                            assert(ks[p - 1] == x);
                        }
                    }
                }
                assert forall|x: Seq<char>| now.contains(x) implies self@[x] == was@.insert(k, v)[x] by {
                    let p = now.index_of(x);
                    self.entry(p);
                    if p < i {
                        was.entry(p);
                    } else if p > i {
                        was.entry(p - 1);
                    }
                    if x == k && p != i {
                        text::lex_irreflexive(k);
                        if p < i {
                            assert(text::lex_lt(ks[p], k));
                        } else {
                            assert(text::lex_lt(k, ks[p - 1]));
                        }
                    }
                }
                assert(self@ =~= was@.insert(k, v));
            }
        }
    }
}

} // verus!
