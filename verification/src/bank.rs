//! The canonical application served by the core: a replicated bank ledger.
//! Every replica applies an identical, totally-ordered sequence of deposit
//! and transfer transactions to its balances.

use vstd::prelude::*;
use crate::config::NodeId;

verus! {

/// A ledger operation.
#[derive(Clone, Debug)]
pub enum TransactionType {
    /// Add the amount to the account, creating it if absent.
    Deposit(String, usize),
    /// Move the amount from the first account to the second; no effect when
    /// the source is absent or short.
    Transfer(String, String, usize),
}

/// One application message: who submitted it, its per-submitter number, and
/// the operation.
#[derive(Clone, Debug)]
pub struct Transaction {
    pub node_id: NodeId,
    pub id: usize,
    pub tr: TransactionType,
}

/// Mathematical model of a ledger operation.
pub enum TransactionModel {
    Deposit { account: Seq<char>, amount: usize },
    Transfer { from: Seq<char>, to: Seq<char>, amount: usize },
}

impl View for TransactionType {
    type V = TransactionModel;

    open spec fn view(&self) -> TransactionModel {
        match *self {
            TransactionType::Deposit(ref account, amount) => TransactionModel::Deposit {
                account: account@,
                amount,
            },
            TransactionType::Transfer(ref from, ref to, amount) => TransactionModel::Transfer {
                from: from@,
                to: to@,
                amount,
            },
        }
    }
}

/// The balances as a map: a later ledger entry for an account shadows an
/// earlier one.
pub open spec fn balances_map(s: Seq<(String, usize)>) -> Map<Seq<char>, usize>
    decreases s.len(),
{
    if s.len() == 0 {
        Map::empty()
    } else {
        balances_map(s.drop_last()).insert(s.last().0@, s.last().1)
    }
}

/// An account's balance: its map entry, or zero for an absent account,
/// except that a transfer treats an absent source as missing, not as zero.
pub open spec fn balance_or_zero(m: Map<Seq<char>, usize>, account: Seq<char>) -> usize {
    if m.dom().contains(account) {
        m[account]
    } else {
        0
    }
}

/// The balances after a deposit: the amount is added to the account,
/// creating it if absent. A sum beyond the machine limit leaves the ledger
/// unchanged.
pub open spec fn spec_deposit(m: Map<Seq<char>, usize>, account: Seq<char>, amount: usize) -> Map<
    Seq<char>,
    usize,
> {
    if balance_or_zero(m, account) + amount <= usize::MAX {
        m.insert(account, (balance_or_zero(m, account) + amount) as usize)
    } else {
        m
    }
}

/// The balances after a transfer: when the source exists and covers the
/// amount, the amount moves from the source to the destination, creating the
/// destination if absent; otherwise — absent source, short source, or a
/// destination sum beyond the machine limit — the ledger is unchanged.
pub open spec fn spec_transfer(
    m: Map<Seq<char>, usize>,
    from: Seq<char>,
    to: Seq<char>,
    amount: usize,
) -> Map<Seq<char>, usize> {
    if m.dom().contains(from) && m[from] >= amount {
        let m1 = m.insert(from, (m[from] - amount) as usize);
        if balance_or_zero(m1, to) + amount <= usize::MAX {
            m1.insert(to, (balance_or_zero(m1, to) + amount) as usize)
        } else {
            m
        }
    } else {
        m
    }
}

/// The balances after one transaction.
pub open spec fn spec_apply(m: Map<Seq<char>, usize>, tr: TransactionModel) -> Map<
    Seq<char>,
    usize,
> {
    match tr {
        TransactionModel::Deposit { account, amount } => spec_deposit(m, account, amount),
        TransactionModel::Transfer { from, to, amount } => spec_transfer(m, from, to, amount),
    }
}

/// The replicated ledger at one node.
pub struct Bank {
    accounts: Vec<(String, usize)>,
}

impl Bank {
    /// The current balances.
    pub closed spec fn view(&self) -> Map<Seq<char>, usize> {
        balances_map(self.accounts@)
    }

    pub fn new() -> (r: Bank)
        ensures
            r@ == Map::<Seq<char>, usize>::empty(),
    {
        Bank { accounts: Vec::new() }
    }

    /// The account's balance, or nothing for an account never deposited to.
    pub fn get_balance(&self, account: &str) -> (r: Option<usize>)
        ensures
            r == if self@.dom().contains(account@) {
                Some(self@[account@])
            } else {
                None::<usize>
            },
    {
        let mut i: usize = self.accounts.len();
        proof {
            assert(self.accounts@.take(self.accounts@.len() as int) =~= self.accounts@);
        }
        while i > 0
            invariant
                i <= self.accounts@.len(),
                ({
                    let whole = balances_map(self.accounts@);
                    let part = balances_map(self.accounts@.take(i as int));
                    &&& whole.dom().contains(account@) == part.dom().contains(account@)
                    &&& whole.dom().contains(account@) ==> whole[account@] == part[account@]
                }),
            decreases i,
        {
            i = i - 1;
            proof {
                assert(self.accounts@.take(i as int + 1).drop_last() =~= self.accounts@.take(
                    i as int,
                ));
                assert(self.accounts@.take(i as int + 1).last() == self.accounts@[i as int]);
            }
            if str_equal(self.accounts[i].0.as_str(), account) {
                return Some(self.accounts[i].1);
            }
        }
        proof {
            assert(self.accounts@.take(0) =~= Seq::<(String, usize)>::empty());
        }
        None
    }

    /// Applies one delivered transaction to the balances.
    pub fn process_transaction(&mut self, tx: Transaction)
        ensures
            final(self)@ == spec_apply(old(self)@, tx.tr@),
    {
        match tx.tr {
            TransactionType::Deposit(account, amount) => {
                let cur = match self.get_balance(account.as_str()) {
                    Some(b) => b,
                    None => 0,
                };
                if amount <= usize::MAX - cur {
                    let ghost pre = self.accounts@;
                    self.accounts.push((account, cur + amount));
                    proof {
                        assert(self.accounts@.drop_last() =~= pre);
                    }
                }
            },
            TransactionType::Transfer(from, to, amount) => {
                let src = match self.get_balance(from.as_str()) {
                    Some(b) => b,
                    None => {
                        return ;
                    },
                };
                if src >= amount {
                    let ghost pre = self.accounts@;
                    let ghost m1 = self@.insert(from@, (src - amount) as usize);
                    self.accounts.push((string_copy(&from), src - amount));
                    proof {
                        assert(self.accounts@.drop_last() =~= pre);
                        assert(self@ == m1);
                    }
                    let dst = match self.get_balance(to.as_str()) {
                        Some(b) => b,
                        None => 0,
                    };
                    if amount <= usize::MAX - dst {
                        let ghost pre2 = self.accounts@;
                        self.accounts.push((to, dst + amount));
                        proof {
                            assert(self.accounts@.drop_last() =~= pre2);
                        }
                    } else {
                        // roll the source update back: the transfer has no effect
                        self.accounts.push((from, src));
                        proof {
                            assert(self.accounts@.drop_last() =~= pre.push(
                                (self.accounts@[pre.len() as int].0, (src - amount) as usize),
                            ));
                            assert(final(self)@ =~= old(self)@);
                        }
                    }
                }
            },
        }
    }
}

/// Whether two strings hold the same characters.
pub fn str_equal(a: &str, b: &str) -> (r: bool)
    ensures
        r == (a@ == b@),
{
    let n = a.unicode_len();
    if n != b.unicode_len() {
        proof {
            assert(a@ != b@);
        }
        return false;
    }
    let mut i: usize = 0;
    while i < n
        invariant
            i <= n,
            n == a@.len(),
            n == b@.len(),
            forall|j: int| 0 <= j < i ==> a@[j] == b@[j],
        decreases n - i,
    {
        if a.get_char(i) != b.get_char(i) {
            return false;
        }
        i = i + 1;
    }
    proof {
        assert(a@ =~= b@);
    }
    true
}

/// A fresh copy of a string.
pub fn string_copy(s: &String) -> (r: String)
    ensures
        r@ == s@,
{
    s.clone()
}

} // verus!
