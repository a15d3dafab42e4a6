use vstd::prelude::*;

verus! {

use crate::AccountId;

/// The value paired with the first occurrence of key `a` in an entry
/// sequence, searching front to back.
pub open spec fn lookup<V>(s: Seq<(AccountId, V)>, a: AccountId) -> Option<V>
    decreases s.len(),
{
    if s.len() == 0 {
        None
    } else if s[0].0 == a {
        Some(s[0].1)
    } else {
        lookup(s.drop_first(), a)
    }
}

/// No two entries carry the same key.
pub open spec fn distinct_keys<V>(s: Seq<(AccountId, V)>) -> bool {
    forall|i: int, j: int| 0 <= i < j < s.len() ==> (#[trigger] s[i]).0 != (#[trigger] s[j]).0
}

/// Stepping the search past a non-matching entry.
pub(crate) proof fn lemma_lookup_skip_step<V>(s: Seq<(AccountId, V)>, i: int, a: AccountId)
    requires
        0 <= i < s.len(),
        s[i].0 != a,
    ensures
        lookup(s.skip(i), a) == lookup(s.skip(i + 1), a),
{
    assert(s.skip(i).len() == s.len() - i);
    assert(s.skip(i)[0] == s[i]);
    assert(s.skip(i).drop_first() =~= s.skip(i + 1));
}

/// A key that appears under no entry is never found.
pub(crate) proof fn lemma_lookup_none_iff_absent<V>(s: Seq<(AccountId, V)>, a: AccountId)
    ensures
        lookup(s, a) is None <==> (forall|j: int| 0 <= j < s.len() ==> (#[trigger] s[j]).0 != a),
    decreases s.len(),
{
    if s.len() > 0 {
        let t = s.drop_first();
        lemma_lookup_none_iff_absent(t, a);
        assert(forall|j: int| 0 <= j < t.len() ==> #[trigger] t[j] == s[j + 1]);
        if s[0].0 == a {
            assert(!(forall|j: int| 0 <= j < s.len() ==> (#[trigger] s[j]).0 != a)) by {
                assert(0 < s.len() && (s[0]).0 == a);
            }
        } else {
            if lookup(s, a) is None {
                assert forall|j: int| 0 <= j < s.len() implies (#[trigger] s[j]).0 != a by {
                    if j > 0 {
                        assert(t[j - 1] == s[j]);
                    }
                }
            } else {
                assert(exists|j: int| 0 <= j < t.len() && (#[trigger] t[j]).0 == a);
                let j0 = choose|j: int| 0 <= j < t.len() && (#[trigger] t[j]).0 == a;
                assert(s[j0 + 1].0 == a);
                assert(!(forall|j: int| 0 <= j < s.len() ==> (#[trigger] s[j]).0 != a)) by {
                    assert(0 <= j0 + 1 < s.len() && (s[j0 + 1]).0 == a);
                }
            }
        }
    }
}

/// Removing an entry whose key is not `b` leaves the search for `b`
/// unchanged.
pub(crate) proof fn lemma_lookup_remove<V>(s: Seq<(AccountId, V)>, i: int, b: AccountId)
    requires
        0 <= i < s.len(),
        s[i].0 != b,
    ensures
        lookup(s.remove(i), b) == lookup(s, b),
    decreases i,
{
    s.remove_ensures(i);
    if i == 0 {
        assert(s.remove(0) =~= s.drop_first());
    } else {
        assert(s.remove(i)[0] == s[0]);
        if s[0].0 == b {
        } else {
            assert(s.remove(i).drop_first() =~= s.drop_first().remove(i - 1));
            lemma_lookup_remove(s.drop_first(), i - 1, b);
        }
    }
}

/// Appending an entry: searches for other keys are unchanged, and the new
/// key is found exactly when it appeared nowhere before.
pub(crate) proof fn lemma_lookup_push<V>(s: Seq<(AccountId, V)>, e: (AccountId, V), b: AccountId)
    ensures
        b != e.0 ==> lookup(s.push(e), b) == lookup(s, b),
        (forall|j: int| 0 <= j < s.len() ==> (#[trigger] s[j]).0 != e.0) ==> lookup(
            s.push(e),
            e.0,
        ) == Some(e.1),
    decreases s.len(),
{
    if s.len() == 0 {
        assert(s.push(e).len() == 1);
        assert(s.push(e)[0] == e);
        assert(s.push(e).drop_first() =~= Seq::<(AccountId, V)>::empty());
        if b != e.0 {
            assert(lookup(s.push(e), b) == lookup(s.push(e).drop_first(), b));
            assert(lookup(s, b) is None);
        }
        assert(lookup(s.push(e), e.0) == Some(e.1));
    } else {
        let t = s.drop_first();
        assert(s.push(e)[0] == s[0]);
        assert(s.push(e).drop_first() =~= t.push(e));
        lemma_lookup_push(t, e, b);
        lemma_lookup_push(t, e, e.0);
        assert(forall|j: int| 0 <= j < t.len() ==> #[trigger] t[j] == s[j + 1]);
        if b != e.0 {
            if s[0].0 == b {
                assert(lookup(s.push(e), b) == Some(s[0].1));
                assert(lookup(s, b) == Some(s[0].1));
            } else {
                assert(lookup(s.push(e), b) == lookup(t.push(e), b));
                assert(lookup(s, b) == lookup(t, b));
            }
        }
        if forall|j: int| 0 <= j < s.len() ==> (#[trigger] s[j]).0 != e.0 {
            assert(s[0].0 != e.0);
            assert(forall|j: int| 0 <= j < t.len() ==> (#[trigger] t[j]).0 != e.0);
            assert(lookup(t.push(e), e.0) == Some(e.1));
            assert(lookup(s.push(e), e.0) == lookup(t.push(e), e.0));
        }
    }
}

/// Distinctness of keys survives removing an entry.
pub(crate) proof fn lemma_distinct_remove<V>(s: Seq<(AccountId, V)>, i: int)
    requires
        0 <= i < s.len(),
        distinct_keys(s),
    ensures
        distinct_keys(s.remove(i)),
{
    s.remove_ensures(i);
    assert forall|p: int, q: int|
        0 <= p < q < s.remove(i).len() implies (#[trigger] s.remove(i)[p]).0 != (#[trigger] s.remove(
        i,
    )[q]).0 by {
        let p0 = if p < i {
            p
        } else {
            p + 1
        };
        let q0 = if q < i {
            q
        } else {
            q + 1
        };
        assert(s.remove(i)[p] == s[p0]);
        assert(s.remove(i)[q] == s[q0]);
    }
}

/// Finds the index holding key `a`, scanning front to back.
pub(crate) fn scan_position<V>(entries: &Vec<(AccountId, V)>, a: AccountId) -> (r: Option<usize>)
    ensures
        match r {
            Some(i) => i < entries@.len() && entries@[i as int].0 == a && (forall|j: int|
                0 <= j < i ==> (#[trigger] entries@[j]).0 != a) && lookup(entries@, a) == Some(
                entries@[i as int].1,
            ),
            None => lookup(entries@, a) is None && (forall|j: int|
                0 <= j < entries@.len() ==> (#[trigger] entries@[j]).0 != a),
        },
{
    let ghost s = entries@;
    let n = entries.len();
    proof {
        assert(s.skip(0) =~= s);
    }
    for i in 0..n
        invariant
            n == s.len(),
            s == entries@,
            lookup(s, a) == lookup(s.skip(i as int), a),
            forall|j: int| 0 <= j < i ==> (#[trigger] s[j]).0 != a,
    {
        if entries[i].0 == a {
            proof {
                assert(s.skip(i as int)[0] == s[i as int]);
            }
            return Some(i);
        }
        proof {
            lemma_lookup_skip_step(s, i as int, a);
        }
    }
    proof {
        assert(s.skip(n as int) =~= Seq::<(AccountId, V)>::empty());
    }
    None
}

/// A key-value store over account ids, backed by a vector of entries with
/// pairwise distinct keys.
pub struct AccountTable<V> {
    entries: Vec<(AccountId, V)>,
}

impl<V> AccountTable<V> {
    /// Keys are never duplicated.
    pub closed spec fn wf(&self) -> bool {
        distinct_keys(self.entries@)
    }

    /// The observable content: the value stored under each key.
    pub closed spec fn spec_get(&self, a: AccountId) -> Option<V> {
        lookup(self.entries@, a)
    }

    /// An empty table.
    pub fn new() -> (t: Self)
        ensures
            t.wf(),
            forall|a: AccountId| t.spec_get(a) is None,
    {
        let t = AccountTable { entries: Vec::new() };
        proof {
            assert forall|a: AccountId| t.spec_get(a) is None by {
                assert(t.entries@.len() == 0);
            }
        }
        t
    }

    /// A borrow of the value stored under `a`, if any.
    pub fn get(&self, a: AccountId) -> (r: Option<&V>)
        ensures
            match r {
                Some(v) => self.spec_get(a) == Some(*v),
                None => self.spec_get(a) is None,
            },
    {
        match scan_position(&self.entries, a) {
            Some(i) => Some(&self.entries[i].1),
            None => None,
        }
    }

    /// Removes and returns the value stored under `a`, if any.
    pub fn take(&mut self, a: AccountId) -> (r: Option<V>)
        requires
            old(self).wf(),
        ensures
            final(self).wf(),
            final(self).spec_get(a) is None,
            forall|b: AccountId| b != a ==> final(self).spec_get(b) == old(self).spec_get(b),
            r == old(self).spec_get(a),
    {
        let ghost s = self.entries@;
        match scan_position(&self.entries, a) {
            None => None,
            Some(i) => {
                let e = self.entries.remove(i);
                proof {
                    lemma_distinct_remove(s, i as int);
                    assert forall|b: AccountId| b != a implies lookup(s.remove(i as int), b)
                        == lookup(s, b) by {
                        lemma_lookup_remove(s, i as int, b);
                    }
                    assert forall|j: int|
                        0 <= j < s.remove(i as int).len() implies (#[trigger] s.remove(
                        i as int,
                    )[j]).0 != a by {
                        s.remove_ensures(i as int);
                    }
                    lemma_lookup_none_iff_absent(s.remove(i as int), a);
                }
                Some(e.1)
            },
        }
    }

    /// Stores `v` under `a`, replacing any previous value.
    pub fn put(&mut self, a: AccountId, v: V)
        requires
            old(self).wf(),
        ensures
            final(self).wf(),
            final(self).spec_get(a) == Some(v),
            forall|b: AccountId| b != a ==> final(self).spec_get(b) == old(self).spec_get(b),
    {
        let _ = self.take(a);
        let ghost s = self.entries@;
        proof {
            lemma_lookup_none_iff_absent(s, a);
        }
        self.entries.push((a, v));
        proof {
            assert forall|b: AccountId| b != a implies lookup(s.push((a, v)), b) == lookup(
                s,
                b,
            ) by {
                lemma_lookup_push(s, (a, v), b);
            }
            lemma_lookup_push(s, (a, v), a);
            assert forall|p: int, q: int|
                0 <= p < q < s.push((a, v)).len() implies (#[trigger] s.push((a, v))[p]).0
                != (#[trigger] s.push((a, v))[q]).0 by {
                if q < s.len() {
                    assert(s.push((a, v))[p] == s[p]);
                    assert(s.push((a, v))[q] == s[q]);
                } else {
                    assert(s.push((a, v))[p] == s[p]);
                    assert(s.push((a, v))[q] == (a, v));
                }
            }
        }
    }
}

} // verus!
