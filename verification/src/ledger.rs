//! Model of the fungible balance transfer service at its interface boundary.
//!
//! The engine needs exactly one thing from the token service: moving a stake
//! amount from a payer's balance to the pool held by the contract address, all
//! or nothing. `TokenLedger` keeps one balance per address and offers that
//! transfer; a transfer that cannot complete leaves every balance unchanged.

use vstd::prelude::*;

use crate::errors::Error;

verus! {

/// One token balance, keyed by the holder's address.
#[derive(Clone, Copy, Debug, PartialEq, Eq, Structural)]
pub struct Account {
    pub address: u64,
    pub balance: u128,
}

/// There is an entry for address `a`.
pub open spec fn has_account(s: Seq<Account>, a: u64) -> bool {
    exists|i: int| 0 <= i < s.len() && s[i].address == a
}

/// The index of the entry for address `a` (meaningful under `unique_addresses`).
pub open spec fn account_index(s: Seq<Account>, a: u64) -> int {
    choose|i: int| 0 <= i < s.len() && s[i].address == a
}

/// The balance held by address `a`; an address without an entry holds zero.
pub open spec fn balance_in(s: Seq<Account>, a: u64) -> u128 {
    if has_account(s, a) {
        s[account_index(s, a)].balance
    } else {
        0
    }
}

/// No address owns two entries.
pub open spec fn unique_addresses(s: Seq<Account>) -> bool {
    forall|i: int, j: int| 0 <= i < j < s.len() ==> s[i].address != s[j].address
}

/// Under `unique_addresses`, the entry at any index with address `a` is the
/// entry that `balance_in` reads.
proof fn lemma_balance_at_index(s: Seq<Account>, i: int, a: u64)
    requires
        unique_addresses(s),
        0 <= i < s.len(),
        s[i].address == a,
    ensures
        has_account(s, a),
        balance_in(s, a) == s[i].balance,
{
    assert(has_account(s, a));
    let k = account_index(s, a);
    assert(0 <= k < s.len() && s[k].address == a);
    if k != i {
        if k < i {
            assert(s[k].address != s[i].address);
        } else {
            assert(s[i].address != s[k].address);
        }
        assert(false);
    }
}

/// Overwriting the entry at `i` with one of the same address changes exactly
/// that address's balance.
proof fn lemma_balance_update(s: Seq<Account>, i: int, acct: Account, x: u64)
    requires
        unique_addresses(s),
        0 <= i < s.len(),
        s[i].address == acct.address,
    ensures
        unique_addresses(s.update(i, acct)),
        balance_in(s.update(i, acct), x) == if x == acct.address {
            acct.balance
        } else {
            balance_in(s, x)
        },
{
    let t = s.update(i, acct);
    assert(forall|j: int| 0 <= j < s.len() ==> t[j].address == s[j].address);
    assert(unique_addresses(t));
    if x == acct.address {
        lemma_balance_at_index(t, i, x);
    } else {
        if has_account(s, x) {
            let k = account_index(s, x);
            assert(t[k].address == x);
            lemma_balance_at_index(t, k, x);
            lemma_balance_at_index(s, k, x);
        } else {
            assert(!has_account(t, x)) by {
                if has_account(t, x) {
                    let k = choose|k: int| 0 <= k < t.len() && t[k].address == x;
                    assert(s[k].address == x);
                }
            }
        }
    }
}

/// Appending an entry for a fresh address changes exactly that address's
/// balance.
proof fn lemma_balance_push(s: Seq<Account>, acct: Account, x: u64)
    requires
        unique_addresses(s),
        !has_account(s, acct.address),
    ensures
        unique_addresses(s.push(acct)),
        balance_in(s.push(acct), x) == if x == acct.address {
            acct.balance
        } else {
            balance_in(s, x)
        },
{
    let t = s.push(acct);
    assert(forall|j: int| 0 <= j < s.len() ==> t[j].address == s[j].address);
    assert(t[s.len() as int] == acct);
    assert(unique_addresses(t)) by {
        assert(forall|i: int, j: int| 0 <= i < j < t.len() ==> t[i].address != t[j].address) by {
            assert(forall|i: int| 0 <= i < s.len() ==> s[i].address != acct.address);
        }
    }
    if x == acct.address {
        lemma_balance_at_index(t, s.len() as int, x);
    } else {
        if has_account(s, x) {
            let k = account_index(s, x);
            assert(t[k].address == x);
            lemma_balance_at_index(t, k, x);
            lemma_balance_at_index(s, k, x);
        } else {
            assert(!has_account(t, x)) by {
                if has_account(t, x) {
                    let k = choose|k: int| 0 <= k < t.len() && t[k].address == x;
                    assert(k != s.len() as int);
                    assert(s[k].address == x);
                }
            }
        }
    }
}

/// Balances per address, as the external token service would report them.
#[derive(Clone, Debug, PartialEq, Eq)]
pub struct TokenLedger {
    pub accounts: Vec<Account>,
}

impl TokenLedger {
    /// Every address has at most one entry, so balances are well defined.
    pub open spec fn wf(self) -> bool {
        unique_addresses(self.accounts@)
    }

    /// The balance held by `address`; an address never minted to holds zero.
    pub open spec fn spec_balance(self, address: u64) -> u128 {
        balance_in(self.accounts@, address)
    }

    /// `transfer(from, to, amount)` can complete: the payer holds enough, and
    /// the recipient's balance does not overflow.
    pub open spec fn can_transfer(self, from: u64, to: u64, amount: u128) -> bool {
        &&& self.spec_balance(from) >= amount
        &&& (from == to || self.spec_balance(to) + amount <= u128::MAX)
    }

    /// An empty ledger: every address holds zero.
    pub fn new() -> (r: TokenLedger)
        ensures
            r.wf(),
            forall|a: u64| r.spec_balance(a) == 0,
    {
        TokenLedger { accounts: Vec::new() }
    }

    /// The index of the entry for `address`, if one exists.
    fn find(&self, address: u64) -> (r: Option<usize>)
        ensures
            match r {
                Some(i) => i < self.accounts@.len() && self.accounts@[i as int].address == address,
                None => !has_account(self.accounts@, address),
            },
    {
        let n: usize = self.accounts.len();
        let mut i: usize = 0;
        while i < n
            invariant
                n == self.accounts@.len(),
                i <= n,
                forall|j: int| 0 <= j < i ==> self.accounts@[j].address != address,
            decreases n - i,
        {
            if self.accounts[i].address == address {
                return Some(i);
            }
            i += 1;
        }
        None
    }

    /// The balance held by `address`.
    pub fn balance_of(&self, address: u64) -> (r: u128)
        requires
            self.wf(),
        ensures
            r == self.spec_balance(address),
    {
        match self.find(address) {
            Some(i) => {
                let b: u128 = self.accounts[i].balance;
                proof {
                    lemma_balance_at_index(self.accounts@, i as int, address);
                }
                b
            },
            None => 0,
        }
    }

    /// Create `amount` new tokens for `to`, as the external asset issuer
    /// would. Fails only when the recipient's balance would overflow.
    pub fn mint(&mut self, to: u64, amount: u128) -> (r: Result<(), Error>)
        requires
            old(self).wf(),
        ensures
            final(self).wf(),
            r is Ok <==> old(self).spec_balance(to) + amount <= u128::MAX,
            r is Err ==> *final(self) == *old(self),
            r is Ok ==> forall|x: u64|
                #[trigger] final(self).spec_balance(x) == if x == to {
                    (old(self).spec_balance(to) + amount) as u128
                } else {
                    old(self).spec_balance(x)
                },
    {
        let ghost pre = self.accounts@;
        match self.find(to) {
            Some(i) => {
                let b: u128 = self.accounts[i].balance;
                proof {
                    lemma_balance_at_index(pre, i as int, to);
                }
                if amount > u128::MAX - b {
                    return Err(Error::TransferFailed);
                }
                self.accounts[i].balance = b + amount;
                proof {
                    assert forall|x: u64| #[trigger] self.spec_balance(x) == if x == to {
                        (balance_in(pre, to) + amount) as u128
                    } else {
                        balance_in(pre, x)
                    } by {
                        lemma_balance_update(
                            pre,
                            i as int,
                            Account { address: to, balance: (b + amount) as u128 },
                            x,
                        );
                    }
                }
                Ok(())
            },
            None => {
                self.accounts.push(Account { address: to, balance: amount });
                proof {
                    assert forall|x: u64| #[trigger] self.spec_balance(x) == if x == to {
                        (balance_in(pre, to) + amount) as u128
                    } else {
                        balance_in(pre, x)
                    } by {
                        lemma_balance_push(pre, Account { address: to, balance: amount }, x);
                    }
                }
                Ok(())
            },
        }
    }

    /// Move `amount` from `from` to `to`, all or nothing. Relied on by the
    /// engine for stake escrow; a failed transfer changes no balance.
    pub fn transfer(&mut self, from: u64, to: u64, amount: u128) -> (r: Result<(), Error>)
        requires
            old(self).wf(),
        ensures
            final(self).wf(),
            r is Ok <==> old(self).can_transfer(from, to, amount),
            r is Err ==> *final(self) == *old(self),
            r is Ok ==> forall|x: u64|
                #[trigger] final(self).spec_balance(x) == if from == to {
                    old(self).spec_balance(x)
                } else if x == from {
                    (old(self).spec_balance(from) - amount) as u128
                } else if x == to {
                    (old(self).spec_balance(to) + amount) as u128
                } else {
                    old(self).spec_balance(x)
                },
    {
        let ghost pre = self.accounts@;
        let from_idx = match self.find(from) {
            Some(i) => i,
            None => {
                if amount == 0 {
                    // Zero can always be moved: no balance changes.
                    return Ok(());
                }
                return Err(Error::TransferFailed);
            },
        };
        let from_bal: u128 = self.accounts[from_idx].balance;
        proof {
            lemma_balance_at_index(pre, from_idx as int, from);
        }
        if from_bal < amount {
            return Err(Error::TransferFailed);
        }
        if from == to {
            return Ok(());
        }
        match self.find(to) {
            Some(to_idx) => {
                let to_bal: u128 = self.accounts[to_idx].balance;
                proof {
                    lemma_balance_at_index(pre, to_idx as int, to);
                }
                if amount > u128::MAX - to_bal {
                    return Err(Error::TransferFailed);
                }
                self.accounts[from_idx].balance = from_bal - amount;
                let ghost mid = self.accounts@;
                self.accounts[to_idx].balance = to_bal + amount;
                proof {
                    assert forall|x: u64| #[trigger] self.spec_balance(x) == if x == from {
                        (balance_in(pre, from) - amount) as u128
                    } else if x == to {
                        (balance_in(pre, to) + amount) as u128
                    } else {
                        balance_in(pre, x)
                    } by {
                        lemma_balance_update(
                            pre,
                            from_idx as int,
                            Account { address: from, balance: (from_bal - amount) as u128 },
                            x,
                        );
                        lemma_balance_update(
                            mid,
                            to_idx as int,
                            Account { address: to, balance: (to_bal + amount) as u128 },
                            x,
                        );
                    }
                }
                Ok(())
            },
            None => {
                self.accounts[from_idx].balance = from_bal - amount;
                let ghost mid = self.accounts@;
                self.accounts.push(Account { address: to, balance: amount });
                proof {
                    assert forall|x: u64| #[trigger] self.spec_balance(x) == if x == from {
                        (balance_in(pre, from) - amount) as u128
                    } else if x == to {
                        (balance_in(pre, to) + amount) as u128
                    } else {
                        balance_in(pre, x)
                    } by {
                        lemma_balance_update(
                            pre,
                            from_idx as int,
                            Account { address: from, balance: (from_bal - amount) as u128 },
                            x,
                        );
                        lemma_balance_push(mid, Account { address: to, balance: amount }, x);
                    }
                }
                Ok(())
            },
        }
    }
}

} // verus!
