//! The share ledger: the balance store for the vault's own share token.
//!
//! Balances are held per account with unique account ids, and the ledger
//! keeps the issued total equal to the sum of all balances.

use vstd::prelude::*;

verus! {

/// One account's share balance.
pub struct ShareAccount {
    pub id: String,
    pub balance: u128,
}

/// The balance keyed by `id` in `s`: the first matching entry, or zero.
pub open spec fn bal_in(s: Seq<ShareAccount>, id: Seq<char>) -> u128
    decreases s.len(),
{
    if s.len() == 0 {
        0
    } else if s[0].id@ == id {
        s[0].balance
    } else {
        bal_in(s.skip(1), id)
    }
}

/// The sum of all balances in `s`.
pub open spec fn sum_bal(s: Seq<ShareAccount>) -> int
    decreases s.len(),
{
    if s.len() == 0 {
        0
    } else {
        s[0].balance + sum_bal(s.skip(1))
    }
}

/// No two entries share an account id.
pub open spec fn unique_ids(s: Seq<ShareAccount>) -> bool {
    forall|i: int, j: int| 0 <= i < j < s.len() ==> s[i].id@ != s[j].id@
}

/// Whether some entry carries `id`.
pub open spec fn has_id(s: Seq<ShareAccount>, id: Seq<char>) -> bool {
    exists|i: int| 0 <= i < s.len() && s[i].id@ == id
}

proof fn lemma_unique_skip(s: Seq<ShareAccount>)
    requires
        unique_ids(s),
        s.len() >= 1,
    ensures
        unique_ids(s.skip(1)),
{
    assert forall|a: int, b: int|
        0 <= a < b < s.skip(1).len() implies s.skip(1)[a].id@ != s.skip(1)[b].id@ by {
        assert(s.skip(1)[a] == s[a + 1]);
        assert(s.skip(1)[b] == s[b + 1]);
    }
}

proof fn lemma_bal_at_index(s: Seq<ShareAccount>, i: int)
    requires
        unique_ids(s),
        0 <= i < s.len(),
    ensures
        bal_in(s, s[i].id@) == s[i].balance,
    decreases s.len(),
{
    if i > 0 {
        lemma_unique_skip(s);
        lemma_bal_at_index(s.skip(1), i - 1);
        assert(s.skip(1)[i - 1] == s[i]);
    }
}

proof fn lemma_bal_absent(s: Seq<ShareAccount>, id: Seq<char>)
    requires
        !has_id(s, id),
    ensures
        bal_in(s, id) == 0,
    decreases s.len(),
{
    if s.len() > 0 {
        assert(s[0].id@ != id);
        assert(!has_id(s.skip(1), id)) by {
            if has_id(s.skip(1), id) {
                let i = choose|i: int| 0 <= i < s.skip(1).len() && s.skip(1)[i].id@ == id;
                assert(s.skip(1)[i] == s[i + 1]);
                assert(has_id(s, id));
            }
        }
        lemma_bal_absent(s.skip(1), id);
    }
}

proof fn lemma_bal_le_sum(s: Seq<ShareAccount>, id: Seq<char>)
    ensures
        0 <= sum_bal(s),
        bal_in(s, id) <= sum_bal(s),
    decreases s.len(),
{
    if s.len() > 0 {
        lemma_bal_le_sum(s.skip(1), id);
    }
}

proof fn lemma_ledger_update(s: Seq<ShareAccount>, i: int, a2: ShareAccount)
    requires
        unique_ids(s),
        0 <= i < s.len(),
        a2.id@ == s[i].id@,
    ensures
        unique_ids(s.update(i, a2)),
        sum_bal(s.update(i, a2)) == sum_bal(s) - s[i].balance + a2.balance,
        bal_in(s.update(i, a2), a2.id@) == a2.balance,
        forall|id2: Seq<char>|
            id2 != a2.id@ ==> bal_in(s.update(i, a2), id2) == bal_in(s, id2),
    decreases s.len(),
{
    let s2 = s.update(i, a2);
    assert forall|a: int, b: int| 0 <= a < b < s2.len() implies s2[a].id@ != s2[b].id@ by {
        assert(s[a].id@ != s[b].id@);
    }
    if i == 0 {
        assert(s2.skip(1) =~= s.skip(1));
        assert forall|id2: Seq<char>|
            id2 != a2.id@ implies bal_in(s2, id2) == bal_in(s, id2) by {
            assert(s2[0] == a2);
            assert(s[0].id@ == a2.id@);
        }
    } else {
        assert(s2[0] == s[0]);
        assert(s2.skip(1) =~= s.skip(1).update(i - 1, a2));
        lemma_unique_skip(s);
        assert(s.skip(1)[i - 1] == s[i]);
        lemma_ledger_update(s.skip(1), i - 1, a2);
        // The head's id differs from a2's, by uniqueness at indices 0 and i.
        assert(s[0].id@ != a2.id@);
        assert forall|id2: Seq<char>|
            id2 != a2.id@ implies bal_in(s2, id2) == bal_in(s, id2) by {
            if id2 != s[0].id@ {
                assert(bal_in(s2, id2) == bal_in(s2.skip(1), id2));
                assert(bal_in(s, id2) == bal_in(s.skip(1), id2));
            }
        }
    }
}

proof fn lemma_ledger_push(s: Seq<ShareAccount>, a: ShareAccount)
    requires
        unique_ids(s),
        !has_id(s, a.id@),
    ensures
        unique_ids(s.push(a)),
        sum_bal(s.push(a)) == sum_bal(s) + a.balance,
        bal_in(s.push(a), a.id@) == a.balance,
        forall|id2: Seq<char>| id2 != a.id@ ==> bal_in(s.push(a), id2) == bal_in(s, id2),
    decreases s.len(),
{
    let s2 = s.push(a);
    assert forall|x: int, y: int| 0 <= x < y < s2.len() implies s2[x].id@ != s2[y].id@ by {
        if y < s.len() {
            assert(s[x].id@ != s[y].id@);
        } else {
            assert(s2[y] == a);
            assert(s2[x] == s[x]);
            if s[x].id@ == a.id@ {
                assert(has_id(s, a.id@));
            }
        }
    }
    if s.len() == 0 {
        assert(s2[0] == a);
        assert(s2.skip(1) =~= Seq::<ShareAccount>::empty());
        assert(sum_bal(s2) == a.balance + sum_bal(s2.skip(1)));
        assert forall|id2: Seq<char>| id2 != a.id@ implies bal_in(s2, id2) == bal_in(s, id2) by {
            assert(bal_in(s2, id2) == bal_in(s2.skip(1), id2));
        }
    } else {
        assert(s[0].id@ != a.id@) by {
            if s[0].id@ == a.id@ {
                assert(has_id(s, a.id@));
            }
        }
        assert(!has_id(s.skip(1), a.id@)) by {
            if has_id(s.skip(1), a.id@) {
                let i = choose|i: int|
                    0 <= i < s.skip(1).len() && s.skip(1)[i].id@ == a.id@;
                assert(s.skip(1)[i] == s[i + 1]);
                assert(has_id(s, a.id@));
            }
        }
        lemma_unique_skip(s);
        assert(s2[0] == s[0]);
        assert(s2.skip(1) =~= s.skip(1).push(a));
        lemma_ledger_push(s.skip(1), a);
        assert(sum_bal(s2) == s[0].balance + sum_bal(s2.skip(1)));
        assert(bal_in(s2, a.id@) == bal_in(s2.skip(1), a.id@));
        assert forall|id2: Seq<char>| id2 != a.id@ implies bal_in(s2, id2) == bal_in(s, id2) by {
            if id2 == s[0].id@ {
                assert(bal_in(s2, id2) == s[0].balance);
                assert(bal_in(s, id2) == s[0].balance);
            } else {
                assert(bal_in(s2, id2) == bal_in(s2.skip(1), id2));
                assert(bal_in(s, id2) == bal_in(s.skip(1), id2));
            }
        }
    }
}

/// A balance store with unique account ids whose recorded total always
/// equals the sum of the balances.
pub struct ShareLedger {
    accounts: Vec<ShareAccount>,
    total: u128,
}

impl ShareLedger {
    /// Well-formedness: ids unique and the total consistent with the balances.
    pub closed spec fn wf(self) -> bool {
        unique_ids(self.accounts@) && self.total == sum_bal(self.accounts@)
    }

    /// Total shares issued across all accounts.
    pub closed spec fn total_spec(self) -> u128 {
        self.total
    }

    /// The balance of the account named `id` (zero when unknown).
    pub closed spec fn balance_spec(self, id: Seq<char>) -> u128 {
        bal_in(self.accounts@, id)
    }

    /// An empty ledger: nothing issued, every balance zero.
    pub fn new() -> (r: ShareLedger)
        ensures
            r.wf(),
            r.total_spec() == 0,
            forall|id: Seq<char>| r.balance_spec(id) == 0,
    {
        let r = ShareLedger { accounts: Vec::new(), total: 0 };
        proof {
            assert(r.accounts@.len() == 0);
        }
        r
    }

    /// Every balance is covered by the issued total.
    pub proof fn lemma_balance_le_total(self, id: Seq<char>)
        requires
            self.wf(),
        ensures
            self.balance_spec(id) <= self.total_spec(),
    {
        lemma_bal_le_sum(self.accounts@, id);
    }

    fn find(&self, id: &String) -> (r: Option<usize>)
        ensures
            match r {
                Some(i) => i < self.accounts@.len() && self.accounts@[i as int].id@ == id@,
                None => !has_id(self.accounts@, id@),
            },
    {
        let n = self.accounts.len();
        let mut k: usize = 0;
        while k < n
            invariant
                k <= n,
                n == self.accounts@.len(),
                forall|j: int| 0 <= j < k ==> self.accounts@[j].id@ != id@,
            decreases n - k,
        {
            if self.accounts[k].id == *id {
                return Some(k);
            }
            k = k + 1;
        }
        None
    }

    /// Reads the balance of `id`; unknown accounts hold zero.
    pub fn balance_of(&self, id: &String) -> (r: u128)
        requires
            self.wf(),
        ensures
            r == self.balance_spec(id@),
    {
        match self.find(id) {
            Some(i) => {
                proof {
                    lemma_bal_at_index(self.accounts@, i as int);
                }
                self.accounts[i].balance
            },
            None => {
                proof {
                    lemma_bal_absent(self.accounts@, id@);
                }
                0
            },
        }
    }

    /// Total shares issued.
    pub fn total_issued(&self) -> (r: u128)
        ensures
            r == self.total_spec(),
    {
        self.total
    }

    /// Credits `amount` to `id`, creating the account if needed. Fails (with
    /// no change) exactly when the issued total would pass `u128::MAX`.
    pub fn credit(&mut self, id: &String, amount: u128) -> (ok: bool)
        requires
            old(self).wf(),
        ensures
            final(self).wf(),
            ok <==> old(self).total_spec() + amount <= u128::MAX,
            !ok ==> *final(self) == *old(self),
            ok ==> final(self).total_spec() == old(self).total_spec() + amount
                && final(self).balance_spec(id@) == old(self).balance_spec(id@) + amount
                && forall|id2: Seq<char>|
                id2 != id@ ==> final(self).balance_spec(id2) == old(self).balance_spec(id2),
    {
        let new_total = match self.total.checked_add(amount) {
            Some(t) => t,
            None => {
                return false;
            },
        };
        match self.find(id) {
            Some(i) => {
                proof {
                    lemma_bal_at_index(self.accounts@, i as int);
                    lemma_bal_le_sum(self.accounts@, id@);
                }
                let acct = &mut self.accounts[i];
                acct.balance = acct.balance + amount;
                proof {
                    lemma_ledger_update(
                        old(self).accounts@,
                        i as int,
                        self.accounts@[i as int],
                    );
                }
            },
            None => {
                proof {
                    lemma_bal_absent(self.accounts@, id@);
                }
                let acct = ShareAccount { id: id.clone(), balance: amount };
                proof {
                    lemma_ledger_push(self.accounts@, acct);
                }
                self.accounts.push(acct);
            },
        }
        self.total = new_total;
        true
    }

    /// The ledger's entries, for snapshotting: unique ids, balances as
    /// [`Self::balance_spec`] reads them, summing to the issued total, and
    /// covering every account with a nonzero balance.
    pub fn entries(&self) -> (r: &Vec<ShareAccount>)
        requires
            self.wf(),
        ensures
            unique_ids(r@),
            sum_bal(r@) == self.total_spec(),
            forall|i: int| 0 <= i < r@.len() ==> r@[i].balance == self.balance_spec(r@[i].id@),
            forall|id: Seq<char>| self.balance_spec(id) != 0 ==> has_id(r@, id),
    {
        proof {
            assert forall|i: int|
                0 <= i < self.accounts@.len() implies self.accounts@[i].balance
                == self.balance_spec(self.accounts@[i].id@) by {
                lemma_bal_at_index(self.accounts@, i);
            }
            assert forall|id: Seq<char>|
                self.balance_spec(id) != 0 implies has_id(self.accounts@, id) by {
                if !has_id(self.accounts@, id) {
                    lemma_bal_absent(self.accounts@, id);
                }
            }
        }
        &self.accounts
    }

    /// Debits `amount` from `id`. Fails (with no change) exactly when the
    /// account's balance is insufficient.
    pub fn debit(&mut self, id: &String, amount: u128) -> (ok: bool)
        requires
            old(self).wf(),
        ensures
            final(self).wf(),
            ok <==> amount <= old(self).balance_spec(id@),
            !ok ==> *final(self) == *old(self),
            ok ==> final(self).total_spec() == old(self).total_spec() - amount
                && final(self).balance_spec(id@) == old(self).balance_spec(id@) - amount
                && forall|id2: Seq<char>|
                id2 != id@ ==> final(self).balance_spec(id2) == old(self).balance_spec(id2),
    {
        match self.find(id) {
            Some(i) => {
                proof {
                    lemma_bal_at_index(self.accounts@, i as int);
                    lemma_bal_le_sum(self.accounts@, id@);
                }
                let b = self.accounts[i].balance;
                if amount <= b {
                    let acct = &mut self.accounts[i];
                    acct.balance = acct.balance - amount;
                    proof {
                        lemma_ledger_update(
                            old(self).accounts@,
                            i as int,
                            self.accounts@[i as int],
                        );
                    }
                    self.total = self.total - amount;
                    true
                } else {
                    false
                }
            },
            None => {
                proof {
                    lemma_bal_absent(self.accounts@, id@);
                }
                amount == 0
            },
        }
    }
}

} // verus!
