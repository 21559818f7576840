//! Association lists: the executable stand-in for the host's key-value
//! mappings, with a `Seq` of entries as the mathematical model.
//!
//! A lookup returns the first entry with a matching key, an update
//! rewrites that entry in place (or appends), and a removal deletes it.
//! Every ledger mapping keeps its keys unique, so the list behaves as a
//! finite map; the spec functions below ([`sfind`], [`sset`],
//! [`sremove`]) are the map operations the contracts are written over.

use vstd::prelude::*;

verus! {

/// Keys of an association list: plain values whose executable equality
/// test agrees with mathematical equality.
pub trait EqKey: Sized + Copy {
    fn key_eq(&self, other: &Self) -> (r: bool)
        ensures
            r <==> (*self == *other),
    ;
}

impl EqKey for u128 {
    fn key_eq(&self, other: &Self) -> (r: bool) {
        *self == *other
    }
}

/// First value stored under key `k`, if any.
pub open spec fn sfind<K, V>(s: Seq<(K, V)>, k: K) -> Option<V>
    decreases s.len(),
{
    if s.len() == 0 {
        None
    } else if s[0].0 == k {
        Some(s[0].1)
    } else {
        sfind(s.drop_first(), k)
    }
}

/// Whether some entry has key `k`.
pub open spec fn shas<K, V>(s: Seq<(K, V)>, k: K) -> bool {
    sfind(s, k) is Some
}

/// Value under key `k`, or `dflt` when the key is absent.
pub open spec fn sget_or<K, V>(s: Seq<(K, V)>, k: K, dflt: V) -> V {
    match sfind(s, k) {
        Some(v) => v,
        None => dflt,
    }
}

/// The entries after storing `v` under `k`: the first entry with key
/// `k` is rewritten, or a new entry is appended at the end.
pub open spec fn sset<K, V>(s: Seq<(K, V)>, k: K, v: V) -> Seq<(K, V)>
    decreases s.len(),
{
    if s.len() == 0 {
        seq![(k, v)]
    } else if s[0].0 == k {
        seq![(k, v)] + s.drop_first()
    } else {
        seq![s[0]] + sset(s.drop_first(), k, v)
    }
}

/// The entries after deleting the first entry with key `k`, if any.
pub open spec fn sremove<K, V>(s: Seq<(K, V)>, k: K) -> Seq<(K, V)>
    decreases s.len(),
{
    if s.len() == 0 {
        s
    } else if s[0].0 == k {
        s.drop_first()
    } else {
        seq![s[0]] + sremove(s.drop_first(), k)
    }
}

/// No two entries share a key: the list denotes a finite map.
pub open spec fn unique_keys<K, V>(s: Seq<(K, V)>) -> bool {
    forall|i: int, j: int| 0 <= i < j < s.len() ==> s[i].0 != s[j].0
}

/// Sum of all stored values, for ledgers whose values are amounts.
pub open spec fn sum_vals<K>(s: Seq<(K, u128)>) -> int
    decreases s.len(),
{
    if s.len() == 0 {
        0
    } else {
        s[0].1 + sum_vals(s.drop_first())
    }
}

/// Lookup distributes over update: after `sset(s, k, v)`, key `k` maps
/// to `v` and every other key is unchanged.
pub broadcast proof fn lemma_sfind_sset<K, V>(s: Seq<(K, V)>, k: K, v: V, q: K)
    ensures
        #[trigger] sfind(sset(s, k, v), q) == (if q == k {
            Some(v)
        } else {
            sfind(s, q)
        }),
    decreases s.len(),
{
    if s.len() == 0 {
        let t = seq![(k, v)];
        assert(sset(s, k, v) == t);
        assert(t.drop_first() =~= Seq::<(K, V)>::empty());
        assert(sfind(Seq::<(K, V)>::empty(), q) is None);
    } else if s[0].0 == k {
        let t = seq![(k, v)] + s.drop_first();
        assert(t[0] == (k, v));
        assert(t.drop_first() =~= s.drop_first());
        if q != k {
            assert(sfind(t, q) == sfind(s.drop_first(), q));
            assert(sfind(s, q) == sfind(s.drop_first(), q));
        }
    } else {
        let t = seq![s[0]] + sset(s.drop_first(), k, v);
        assert(t[0] == s[0]);
        assert(t.drop_first() =~= sset(s.drop_first(), k, v));
        lemma_sfind_sset(s.drop_first(), k, v, q);
    }
}

/// Lookup distributes over deletion on a list with unique keys: after
/// `sremove(s, k)`, key `k` is gone and every other key is unchanged.
pub broadcast proof fn lemma_sfind_sremove<K, V>(s: Seq<(K, V)>, k: K, q: K)
    requires
        unique_keys(s),
    ensures
        #[trigger] sfind(sremove(s, k), q) == (if q == k {
            None::<V>
        } else {
            sfind(s, q)
        }),
    decreases s.len(),
{
    if s.len() == 0 {
    } else {
        assert(unique_keys(s.drop_first())) by {
            assert(forall|i: int, j: int|
                0 <= i < j < s.drop_first().len() ==> s.drop_first()[i] == s[i + 1]
                    && s.drop_first()[j] == s[j + 1]);
        }
        if s[0].0 == k {
            assert(forall|j: int| 0 <= j < s.drop_first().len() ==> s.drop_first()[j].0 != k)
                by {
                assert(forall|j: int|
                    0 <= j < s.drop_first().len() ==> s.drop_first()[j] == s[j + 1]);
            }
            lemma_sfind_all_absent(s.drop_first(), k);
        } else {
            let t = seq![s[0]] + sremove(s.drop_first(), k);
            assert(t[0] == s[0]);
            assert(t.drop_first() =~= sremove(s.drop_first(), k));
            lemma_sfind_sremove(s.drop_first(), k, q);
        }
    }
}

/// A key held by no entry at all is not found.
pub proof fn lemma_sfind_all_absent<K, V>(s: Seq<(K, V)>, k: K)
    requires
        forall|j: int| 0 <= j < s.len() ==> s[j].0 != k,
    ensures
        sfind(s, k) is None,
    decreases s.len(),
{
    if s.len() > 0 {
        assert(forall|j: int| 0 <= j < s.drop_first().len() ==> s.drop_first()[j] == s[j + 1]);
        lemma_sfind_all_absent(s.drop_first(), k);
    }
}

/// Skipping a prefix that does not hold key `k` leaves the lookup,
/// the update and the deletion of `k` untouched.
proof fn lemma_ops_past_prefix<K, V>(s: Seq<(K, V)>, k: K, v: V, i: int)
    requires
        0 <= i <= s.len(),
        forall|j: int| 0 <= j < i ==> s[j].0 != k,
    ensures
        sfind(s, k) == sfind(s.subrange(i, s.len() as int), k),
        sset(s, k, v) =~= s.subrange(0, i) + sset(s.subrange(i, s.len() as int), k, v),
        sremove(s, k) =~= s.subrange(0, i) + sremove(s.subrange(i, s.len() as int), k),
    decreases i,
{
    if i == 0 {
        assert(s.subrange(0, s.len() as int) =~= s);
        assert(s.subrange(0, 0) + sset(s, k, v) =~= sset(s, k, v));
        assert(s.subrange(0, 0) + sremove(s, k) =~= sremove(s, k));
    } else {
        lemma_ops_past_prefix(s, k, v, i - 1);
        let t = s.subrange(i - 1, s.len() as int);
        assert(t[0] == s[i - 1]);
        assert(t[0].0 != k);
        assert(t.drop_first() =~= s.subrange(i, s.len() as int));
        assert(sset(t, k, v) == seq![t[0]] + sset(t.drop_first(), k, v));
        assert(sremove(t, k) == seq![t[0]] + sremove(t.drop_first(), k));
        assert(s.subrange(0, i - 1) + (seq![t[0]] + sset(t.drop_first(), k, v)) =~= s.subrange(
            0,
            i,
        ) + sset(s.subrange(i, s.len() as int), k, v));
        assert(s.subrange(0, i - 1) + (seq![t[0]] + sremove(t.drop_first(), k)) =~= s.subrange(
            0,
            i,
        ) + sremove(s.subrange(i, s.len() as int), k));
    }
}

/// Updating one key shifts the sum of values by the difference between
/// the new value and the value previously stored there (zero if none).
pub proof fn lemma_sum_sset<K>(s: Seq<(K, u128)>, k: K, v: u128)
    ensures
        sum_vals(sset(s, k, v)) == sum_vals(s) - sget_or(s, k, 0u128) + v,
    decreases s.len(),
{
    if s.len() == 0 {
        let t = seq![(k, v)];
        assert(t.drop_first() =~= Seq::<(K, u128)>::empty());
        assert(sum_vals(Seq::<(K, u128)>::empty()) == 0);
    } else if s[0].0 == k {
        let t = seq![(k, v)] + s.drop_first();
        assert(t[0] == (k, v));
        assert(t.drop_first() =~= s.drop_first());
    } else {
        let t = seq![s[0]] + sset(s.drop_first(), k, v);
        assert(t[0] == s[0]);
        assert(t.drop_first() =~= sset(s.drop_first(), k, v));
        lemma_sum_sset(s.drop_first(), k, v);
    }
}

/// The sum of values is non-negative, and bounds every stored value.
pub proof fn lemma_sfind_le_sum<K>(s: Seq<(K, u128)>, k: K)
    ensures
        sum_vals(s) >= 0,
        sfind(s, k) matches Some(x) ==> x <= sum_vals(s),
    decreases s.len(),
{
    if s.len() > 0 {
        lemma_sfind_le_sum(s.drop_first(), k);
    }
}

/// Two different keys store values that fit in the sum together.
pub proof fn lemma_two_le_sum<K>(s: Seq<(K, u128)>, k1: K, k2: K)
    requires
        k1 != k2,
    ensures
        sget_or(s, k1, 0u128) + sget_or(s, k2, 0u128) <= sum_vals(s),
    decreases s.len(),
{
    if s.len() == 0 {
    } else if s[0].0 == k1 {
        lemma_sfind_le_sum(s.drop_first(), k2);
    } else if s[0].0 == k2 {
        lemma_sfind_le_sum(s.drop_first(), k1);
    } else {
        lemma_two_le_sum(s.drop_first(), k1, k2);
    }
}

/// An association list with copyable keys and values.
pub struct AList<K, Val> {
    entries: Vec<(K, Val)>,
}

impl<K: EqKey, Val: Copy> View for AList<K, Val> {
    type V = Seq<(K, Val)>;

    closed spec fn view(&self) -> Seq<(K, Val)> {
        self.entries@
    }
}

impl<K: EqKey, Val: Copy> AList<K, Val> {
    /// An empty list.
    pub fn new() -> (r: Self)
        ensures
            r@ == Seq::<(K, Val)>::empty(),
    {
        AList { entries: Vec::new() }
    }

    /// Position of the entry with key `k`, if any.
    fn find_index(&self, k: K) -> (r: Option<usize>)
        ensures
            match r {
                Some(i) => i < self@.len() && self@[i as int].0 == k && (forall|j: int|
                    0 <= j < i ==> self@[j].0 != k),
                None => forall|j: int| 0 <= j < self@.len() ==> self@[j].0 != k,
            },
    {
        let mut i: usize = 0;
        while i < self.entries.len()
            invariant
                i <= self@.len(),
                forall|j: int| 0 <= j < i ==> self@[j].0 != k,
            decreases self@.len() - i,
        {
            if self.entries[i].0.key_eq(&k) {
                return Some(i);
            }
            i = i + 1;
        }
        None
    }

    /// The value stored under `k`, if any.
    pub fn get(&self, k: K) -> (r: Option<Val>)
        ensures
            r == sfind(self@, k),
    {
        match self.find_index(k) {
            Some(i) => {
                proof {
                    let s = self@;
                    lemma_ops_past_prefix(s, k, s[i as int].1, i as int);
                    let t = s.subrange(i as int, s.len() as int);
                    assert(t[0] == s[i as int]);
                }
                Some(self.entries[i].1)
            },
            None => {
                proof {
                    lemma_sfind_all_absent(self@, k);
                }
                None
            },
        }
    }

    /// Store `v` under `k`, rewriting the existing entry or appending.
    pub fn set(&mut self, k: K, v: Val)
        ensures
            final(self)@ == sset(old(self)@, k, v),
            unique_keys(old(self)@) ==> unique_keys(final(self)@),
            final(self)@.len() == old(self)@.len() + (if shas(old(self)@, k) {
                0int
            } else {
                1int
            }),
    {
        let ghost s = self@;
        match self.find_index(k) {
            Some(i) => {
                proof {
                    lemma_ops_past_prefix(s, k, v, i as int);
                    let t = s.subrange(i as int, s.len() as int);
                    assert(t[0] == s[i as int]);
                    assert(t.drop_first() =~= s.subrange(i as int + 1, s.len() as int));
                    assert(sset(t, k, v) == seq![(k, v)] + t.drop_first());
                    assert(sset(s, k, v) =~= s.update(i as int, (k, v)));
                    assert(sfind(s, k) == Some(t[0].1));
                }
                self.entries[i] = (k, v);
                assert(self@ =~= sset(s, k, v));
                proof {
                    if unique_keys(s) {
                        assert forall|a: int, b: int|
                            0 <= a < b < self@.len() implies self@[a].0 != self@[b].0 by {
                            assert(self@[a].0 == s[a].0);
                            assert(self@[b].0 == s[b].0);
                        }
                    }
                }
            },
            None => {
                proof {
                    lemma_sfind_all_absent(s, k);
                    lemma_ops_past_prefix(s, k, v, s.len() as int);
                    let t = s.subrange(s.len() as int, s.len() as int);
                    assert(t.len() == 0);
                    assert(sset(t, k, v) == seq![(k, v)]);
                    assert(sset(s, k, v) =~= s.push((k, v)));
                }
                self.entries.push((k, v));
                proof {
                    if unique_keys(s) {
                        assert forall|a: int, b: int|
                            0 <= a < b < self@.len() implies self@[a].0 != self@[b].0 by {
                            if b == s.len() {
                                assert(self@[a].0 == s[a].0);
                                assert(self@[b].0 == k);
                            } else {
                                assert(self@[a].0 == s[a].0);
                                assert(self@[b].0 == s[b].0);
                            }
                        }
                    }
                }
            },
        }
    }

    /// Delete the entry stored under `k`, if any.
    pub fn remove(&mut self, k: K)
        ensures
            final(self)@ == sremove(old(self)@, k),
            unique_keys(old(self)@) ==> unique_keys(final(self)@),
            final(self)@.len() == old(self)@.len() - (if shas(old(self)@, k) {
                1int
            } else {
                0int
            }),
    {
        let ghost s = self@;
        match self.find_index(k) {
            Some(i) => {
                proof {
                    lemma_ops_past_prefix(s, k, s[i as int].1, i as int);
                    let t = s.subrange(i as int, s.len() as int);
                    assert(t[0] == s[i as int]);
                    assert(t.drop_first() =~= s.subrange(i as int + 1, s.len() as int));
                    assert(sremove(t, k) == t.drop_first());
                    assert(sremove(s, k) =~= s.remove(i as int));
                    assert(sfind(s, k) == Some(t[0].1));
                }
                let _ = self.entries.remove(i);
                assert(self@ =~= sremove(s, k));
                proof {
                    if unique_keys(s) {
                        assert forall|a: int, b: int|
                            0 <= a < b < self@.len() implies self@[a].0 != self@[b].0 by {
                            assert(self@[a] == (if a < i as int {
                                s[a]
                            } else {
                                s[a + 1]
                            }));
                            assert(self@[b] == (if b < i as int {
                                s[b]
                            } else {
                                s[b + 1]
                            }));
                        }
                    }
                }
            },
            None => {
                proof {
                    lemma_sfind_all_absent(s, k);
                    lemma_ops_past_prefix(s, k, s[0].1, s.len() as int);
                    let t = s.subrange(s.len() as int, s.len() as int);
                    assert(t.len() == 0);
                    assert(sremove(s, k) =~= s);
                }
            },
        }
    }
}

} // verus!
