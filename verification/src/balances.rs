use vstd::prelude::*;

verus! {

use crate::{AccountId, Amount};
use crate::math::sat128;
use crate::table::{
    lookup, distinct_keys, scan_position, lemma_lookup_none_iff_absent, lemma_lookup_remove,
    lemma_lookup_push, lemma_distinct_remove,
};

/// Sum of all recorded amounts in an entry sequence.
pub open spec fn sum_amounts(s: Seq<(AccountId, Amount)>) -> int
    decreases s.len(),
{
    if s.len() == 0 {
        0
    } else {
        sum_amounts(s.drop_last()) + s.last().1
    }
}

/// A sum of unsigned amounts is never negative.
pub(crate) proof fn lemma_sum_nonneg(s: Seq<(AccountId, Amount)>)
    ensures
        sum_amounts(s) >= 0,
    decreases s.len(),
{
    if s.len() > 0 {
        lemma_sum_nonneg(s.drop_last());
    }
}

/// Appending an entry adds its amount to the sum.
pub(crate) proof fn lemma_sum_push(s: Seq<(AccountId, Amount)>, e: (AccountId, Amount))
    ensures
        sum_amounts(s.push(e)) == sum_amounts(s) + e.1,
{
    assert(s.push(e).drop_last() =~= s);
    assert(s.push(e).last() == e);
}

/// Removing an entry subtracts its amount from the sum.
pub(crate) proof fn lemma_sum_remove(s: Seq<(AccountId, Amount)>, i: int)
    requires
        0 <= i < s.len(),
    ensures
        sum_amounts(s.remove(i)) == sum_amounts(s) - s[i].1,
    decreases s.len(),
{
    s.remove_ensures(i);
    if i == s.len() - 1 {
        assert(s.remove(i) =~= s.drop_last());
    } else {
        assert(s.remove(i).drop_last() =~= s.drop_last().remove(i));
        assert(s.remove(i).last() == s.last());
        assert(s.drop_last()[i] == s[i]);
        lemma_sum_remove(s.drop_last(), i);
    }
}

/// Growing a prefix by one entry adds that entry's amount.
pub(crate) proof fn lemma_sum_prefix_step(s: Seq<(AccountId, Amount)>, i: int)
    requires
        0 <= i < s.len(),
    ensures
        sum_amounts(s.subrange(0, i + 1)) == sum_amounts(s.subrange(0, i)) + s[i].1,
{
    assert(s.subrange(0, i + 1).drop_last() =~= s.subrange(0, i));
    assert(s.subrange(0, i + 1).last() == s[i]);
}

/// The sum can also be peeled from the front.
pub(crate) proof fn lemma_sum_front(s: Seq<(AccountId, Amount)>)
    requires
        s.len() > 0,
    ensures
        sum_amounts(s) == s[0].1 + sum_amounts(s.drop_first()),
    decreases s.len(),
{
    if s.len() == 1 {
        assert(s.drop_last() =~= Seq::<(AccountId, Amount)>::empty());
        assert(s.drop_first() =~= Seq::<(AccountId, Amount)>::empty());
        assert(s.last() == s[0]);
    } else {
        let u = s.drop_last();
        lemma_sum_front(u);
        assert(u[0] == s[0]);
        assert(u.drop_first() =~= s.drop_first().drop_last());
        assert(s.drop_first().last() == s.last());
    }
}

/// An amount found in the sequence never exceeds the sum of all amounts.
pub(crate) proof fn lemma_lookup_le_sum(s: Seq<(AccountId, Amount)>, a: AccountId)
    requires
        lookup(s, a) is Some,
    ensures
        lookup(s, a).unwrap() <= sum_amounts(s),
    decreases s.len(),
{
    lemma_sum_front(s);
    lemma_sum_nonneg(s.drop_first());
    if s[0].0 == a {
    } else {
        lemma_lookup_le_sum(s.drop_first(), a);
    }
}

/// The recorded contribution of each lender, with the running total of
/// all contributions available as a specification-level sum.
pub struct BalanceMap {
    entries: Vec<(AccountId, Amount)>,
}

impl BalanceMap {
    /// Keys are never duplicated.
    pub closed spec fn wf(&self) -> bool {
        distinct_keys(self.entries@)
    }

    /// The recorded amount for `a`; zero for an account never seen.
    pub closed spec fn spec_amount(&self, a: AccountId) -> Amount {
        match lookup(self.entries@, a) {
            Some(v) => v,
            None => 0,
        }
    }

    /// The sum of all recorded amounts.
    pub closed spec fn total(&self) -> int {
        sum_amounts(self.entries@)
    }

    /// An empty balance map.
    pub fn new() -> (m: Self)
        ensures
            m.wf(),
            m.total() == 0,
            forall|a: AccountId| m.spec_amount(a) == 0,
    {
        let m = BalanceMap { entries: Vec::new() };
        proof {
            assert(m.entries@.len() == 0);
        }
        m
    }

    /// The recorded amount for `a`.
    pub fn amount_of(&self, a: AccountId) -> (r: Amount)
        ensures
            r == self.spec_amount(a),
    {
        match scan_position(&self.entries, a) {
            Some(i) => self.entries[i].1,
            None => 0,
        }
    }

    /// Records `amt` more for `a`, saturating at the `u128` ceiling.
    pub fn credit(&mut self, a: AccountId, amt: Amount)
        requires
            old(self).wf(),
        ensures
            final(self).wf(),
            final(self).spec_amount(a) == sat128(old(self).spec_amount(a) + amt),
            forall|b: AccountId| b != a ==> final(self).spec_amount(b) == old(self).spec_amount(b),
            final(self).total() == old(self).total() - old(self).spec_amount(a) + final(self).spec_amount(a),
    {
        let cur = self.remove_entry(a);
        let newv = cur.saturating_add(amt);
        self.push_entry(a, newv);
    }

    /// Removes `amt` from the record for `a`.
    pub fn debit(&mut self, a: AccountId, amt: Amount)
        requires
            old(self).wf(),
            amt <= old(self).spec_amount(a),
        ensures
            final(self).wf(),
            final(self).spec_amount(a) == old(self).spec_amount(a) - amt,
            forall|b: AccountId| b != a ==> final(self).spec_amount(b) == old(self).spec_amount(b),
            final(self).total() == old(self).total() - amt,
    {
        let cur = self.remove_entry(a);
        self.push_entry(a, cur - amt);
    }

    /// The total of all recorded amounts, saturating at the `u128`
    /// ceiling.
    pub fn total_saturated(&self) -> (r: u128)
        ensures
            r == sat128(self.total()),
    {
        let ghost s = self.entries@;
        let n = self.entries.len();
        let mut acc: u128 = 0;
        proof {
            assert(s.subrange(0, 0) =~= Seq::<(AccountId, Amount)>::empty());
        }
        for i in 0..n
            invariant
                n == s.len(),
                s == self.entries@,
                acc == sat128(sum_amounts(s.subrange(0, i as int))),
        {
            proof {
                lemma_sum_prefix_step(s, i as int);
                lemma_sum_nonneg(s.subrange(0, i as int));
            }
            acc = acc.saturating_add(self.entries[i].1);
        }
        proof {
            assert(s.subrange(0, n as int) =~= s);
        }
        acc
    }

    /// Removes the entry for `a` if there is one, returning its amount.
    fn remove_entry(&mut self, a: AccountId) -> (r: Amount)
        requires
            old(self).wf(),
        ensures
            final(self).wf(),
            r == old(self).spec_amount(a),
            lookup(final(self).entries@, a) is None,
            forall|j: int|
                0 <= j < final(self).entries@.len() ==> (#[trigger] final(self).entries@[j]).0
                    != a,
            forall|b: AccountId| b != a ==> final(self).spec_amount(b) == old(self).spec_amount(b),
            final(self).total() == old(self).total() - r,
    {
        let ghost s = self.entries@;
        match scan_position(&self.entries, a) {
            None => 0,
            Some(i) => {
                let e = self.entries.remove(i);
                proof {
                    lemma_distinct_remove(s, i as int);
                    lemma_sum_remove(s, i as int);
                    assert forall|b: AccountId| b != a implies lookup(s.remove(i as int), b)
                        == lookup(s, b) by {
                        lemma_lookup_remove(s, i as int, b);
                    }
                    assert forall|j: int|
                        0 <= j < s.remove(i as int).len() implies (#[trigger] s.remove(
                        i as int,
                    )[j]).0 != a by {
                        s.remove_ensures(i as int);
                    }
                    lemma_lookup_none_iff_absent(s.remove(i as int), a);
                }
                e.1
            },
        }
    }

    /// Appends a fresh entry for `a`; the caller has just removed any
    /// previous one.
    fn push_entry(&mut self, a: AccountId, v: Amount)
        requires
            old(self).wf(),
            forall|j: int|
                0 <= j < old(self).entries@.len() ==> (#[trigger] old(self).entries@[j]).0 != a,
        ensures
            final(self).wf(),
            final(self).spec_amount(a) == v,
            forall|b: AccountId| b != a ==> final(self).spec_amount(b) == old(self).spec_amount(b),
            final(self).total() == old(self).total() + v,
    {
        let ghost s = self.entries@;
        self.entries.push((a, v));
        proof {
            lemma_sum_push(s, (a, v));
            assert forall|b: AccountId| b != a implies lookup(s.push((a, v)), b) == lookup(
                s,
                b,
            ) by {
                lemma_lookup_push(s, (a, v), b);
            }
            lemma_lookup_push(s, (a, v), a);
            assert forall|p: int, q: int|
                0 <= p < q < s.push((a, v)).len() implies (#[trigger] s.push((a, v))[p]).0
                != (#[trigger] s.push((a, v))[q]).0 by {
                if q < s.len() {
                    assert(s.push((a, v))[p] == s[p]);
                    assert(s.push((a, v))[q] == s[q]);
                } else {
                    assert(s.push((a, v))[p] == s[p]);
                    assert(s.push((a, v))[q] == (a, v));
                }
            }
        }
    }
}

/// A recorded amount never exceeds the total of all recorded amounts,
/// and the total is never negative.
pub proof fn lemma_amount_le_total(m: &BalanceMap, a: AccountId)
    ensures
        m.spec_amount(a) <= m.total(),
        m.total() >= 0,
{
    lemma_sum_nonneg(m.entries@);
    if lookup(m.entries@, a) is Some {
        lemma_lookup_le_sum(m.entries@, a);
    }
}

} // verus!
