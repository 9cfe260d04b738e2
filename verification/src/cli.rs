//! The command-line syntax of the host application: one transaction per
//! line, `DEPOSIT <account> <amount>` or `TRANSFER <from> -> <to> <amount>`,
//! fields separated by ASCII whitespace. Reading the lines is the process's
//! business; parsing them is the library's.

use vstd::prelude::*;
use crate::bank::{str_equal, Transaction, TransactionType};
use crate::config::NodeId;

verus! {

/// The characters that separate fields.
pub open spec fn is_space_char(c: char) -> bool {
    c == ' ' || c == '\t' || c == '\n' || c == '\u{c}' || c == '\r'
}

/// The length of the field at the head of the text: the longest prefix
/// without a separator.
pub open spec fn token_len(s: Seq<char>) -> nat
    decreases s.len(),
{
    if s.len() == 0 || is_space_char(s[0]) {
        0
    } else {
        (1 + token_len(s.skip(1))) as nat
    }
}

proof fn lemma_token_len_bounds(s: Seq<char>)
    ensures
        token_len(s) <= s.len(),
        s.len() > 0 && !is_space_char(s[0]) ==> token_len(s) >= 1,
    decreases s.len(),
{
    if s.len() > 0 && !is_space_char(s[0]) {
        lemma_token_len_bounds(s.skip(1));
    }
}

/// The fields of a line, in order: maximal runs of non-separator characters.
pub open spec fn spec_tokens(s: Seq<char>) -> Seq<Seq<char>>
    decreases s.len(),
    via spec_tokens_decreases
{
    if s.len() == 0 {
        Seq::empty()
    } else if is_space_char(s[0]) {
        spec_tokens(s.skip(1))
    } else {
        seq![s.take(token_len(s) as int)] + spec_tokens(s.skip(token_len(s) as int))
    }
}

#[via_fn]
proof fn spec_tokens_decreases(s: Seq<char>) {
    lemma_token_len_bounds(s);
}

/// The number a field denotes: every character a decimal digit, most
/// significant first.
pub open spec fn is_digit(c: char) -> bool {
    '0' <= c && c <= '9'
}

pub open spec fn all_digits(s: Seq<char>) -> bool {
    forall|i: int| 0 <= i < s.len() ==> is_digit(#[trigger] s[i])
}

pub open spec fn digits_val(s: Seq<char>) -> int
    decreases s.len(),
{
    if s.len() == 0 {
        0
    } else {
        digits_val(s.drop_last()) * 10 + (s.last() as int - '0' as int)
    }
}

/// What parsing a field as a number yields: the denoted value, if the field
/// is a non-empty run of digits whose value fits the machine word.
pub open spec fn spec_parse_usize(s: Seq<char>) -> Option<usize> {
    if s.len() > 0 && all_digits(s) && digits_val(s) <= usize::MAX {
        Some(digits_val(s) as usize)
    } else {
        None
    }
}

/// With every digit non-negative, a longer digit run never denotes less.
proof fn lemma_digits_val_monotone(s: Seq<char>, i: int)
    requires
        all_digits(s),
        0 <= i <= s.len(),
    ensures
        digits_val(s.take(i)) <= digits_val(s),
        digits_val(s) >= 0,
    decreases s.len() - i,
{
    if i == s.len() {
        assert(s.take(i) =~= s);
        lemma_digits_val_nonneg(s);
    } else {
        lemma_digits_val_monotone(s, i + 1);
        assert(s.take(i + 1).drop_last() =~= s.take(i));
        assert(s.take(i + 1).last() == s[i]);
        lemma_digits_val_nonneg(s.take(i));
    }
}

proof fn lemma_digits_val_nonneg(s: Seq<char>)
    requires
        all_digits(s),
    ensures
        digits_val(s) >= 0,
    decreases s.len(),
{
    if s.len() > 0 {
        assert(all_digits(s.drop_last())) by {
            assert(forall|i: int| 0 <= i < s.len() - 1 ==> s.drop_last()[i] == s[i]);
        }
        lemma_digits_val_nonneg(s.drop_last());
    }
}

/// Whether the character separates fields.
pub fn is_space(c: char) -> (r: bool)
    ensures
        r == is_space_char(c),
{
    c == ' ' || c == '\t' || c == '\n' || c == '\u{c}' || c == '\r'
}

/// Splits a line into its fields.
pub fn tokenize(s: &str) -> (r: Vec<String>)
    ensures
        r@.map_values(|t: String| t@) == spec_tokens(s@),
{
    let n = s.unicode_len();
    let mut out: Vec<String> = Vec::new();
    let mut i: usize = 0;
    proof {
        assert(s@.skip(0) =~= s@);
        assert(out@.map_values(|t: String| t@) + spec_tokens(s@.skip(0)) =~= spec_tokens(s@));
    }
    while i < n
        invariant
            i <= n,
            n == s@.len(),
            out@.map_values(|t: String| t@) + spec_tokens(s@.skip(i as int)) == spec_tokens(s@),
        decreases n - i,
    {
        if is_space(s.get_char(i)) {
            proof {
                assert(s@.skip(i as int)[0] == s@[i as int]);
                assert(s@.skip(i as int).skip(1) =~= s@.skip(i as int + 1));
            }
            i = i + 1;
        } else {
            let mut j = i + 1;
            proof {
                assert(s@.skip(i as int)[0] == s@[i as int]);
                assert(s@.skip(i as int).skip(1) =~= s@.skip(i as int + 1));
                assert(token_len(s@.skip(i as int)) == 1 + token_len(s@.skip(i as int + 1)));
            }
            while j < n && !is_space(s.get_char(j))
                invariant
                    i < j <= n,
                    n == s@.len(),
                    token_len(s@.skip(i as int)) == (j - i) + token_len(s@.skip(j as int)),
                decreases n - j,
            {
                proof {
                    assert(s@.skip(j as int)[0] == s@[j as int]);
                    assert(s@.skip(j as int).skip(1) =~= s@.skip(j as int + 1));
                    assert(token_len(s@.skip(j as int)) == 1 + token_len(s@.skip(j as int + 1)));
                }
                j = j + 1;
            }
            proof {
                if j < n {
                    assert(s@.skip(j as int)[0] == s@[j as int]);
                    assert(token_len(s@.skip(j as int)) == 0);
                } else {
                    assert(s@.skip(j as int) =~= Seq::<char>::empty());
                }
                assert(token_len(s@.skip(i as int)) == j - i);
            }
            let tok = s.substring_char(i, j).to_owned();
            let ghost pre_out = out@;
            out.push(tok);
            proof {
                let suf = s@.skip(i as int);
                assert(spec_tokens(suf) == seq![suf.take((j - i) as int)] + spec_tokens(
                    suf.skip((j - i) as int),
                ));
                assert(suf.take((j - i) as int) =~= s@.subrange(i as int, j as int));
                assert(suf.skip((j - i) as int) =~= s@.skip(j as int));
                assert(out@.map_values(|t: String| t@) =~= pre_out.map_values(|t: String| t@)
                    .push(s@.subrange(i as int, j as int)));
                assert(out@.map_values(|t: String| t@) + spec_tokens(s@.skip(j as int))
                    =~= spec_tokens(s@));
            }
            i = j;
        }
    }
    proof {
        assert(s@.skip(n as int) =~= Seq::<char>::empty());
        assert(out@.map_values(|t: String| t@) =~= spec_tokens(s@));
    }
    out
}

/// Parses a field as a number: a non-empty run of decimal digits whose value
/// fits the machine word, and nothing otherwise.
pub fn parse_usize(s: &str) -> (r: Option<usize>)
    ensures
        r == spec_parse_usize(s@),
{
    let n = s.unicode_len();
    if n == 0 {
        return None;
    }
    let mut val: usize = 0;
    let mut i: usize = 0;
    proof {
        assert(s@.take(0) =~= Seq::<char>::empty());
    }
    while i < n
        invariant
            i <= n,
            n == s@.len(),
            all_digits(s@.take(i as int)),
            val == digits_val(s@.take(i as int)),
        decreases n - i,
    {
        let c = s.get_char(i);
        if !(c >= '0' && c <= '9') {
            proof {
                assert(!is_digit(s@[i as int]));
            }
            return None;
        }
        let d = (c as u32 - '0' as u32) as usize;
        proof {
            assert(s@.take(i as int + 1).drop_last() =~= s@.take(i as int));
            assert(s@.take(i as int + 1).last() == s@[i as int]);
            assert(all_digits(s@.take(i as int + 1)));
        }
        if val > (usize::MAX - d) / 10 {
            proof {
                assert(digits_val(s@.take(i as int + 1)) == val * 10 + d);
                assert(digits_val(s@.take(i as int + 1)) > usize::MAX) by {
                    assert(val * 10 + d > usize::MAX) by (nonlinear_arith)
                        requires
                            val > (usize::MAX - d) / 10,
                            d <= 9,
                            usize::MAX >= 9,
                    ;
                }
                if all_digits(s@) {
                    lemma_digits_val_monotone(s@, i as int + 1);
                }
            }
            return None;
        }
        proof {
            assert(val * 10 + d <= usize::MAX) by (nonlinear_arith)
                requires
                    val <= (usize::MAX - d) / 10,
                    d <= 9,
            ;
        }
        val = val * 10 + d;
        i = i + 1;
    }
    proof {
        assert(s@.take(n as int) =~= s@);
    }
    Some(val)
}

/// The host application's input parser: allocates transaction numbers and
/// turns input lines into transactions.
pub struct Cli {
    next_local_tx_id: usize,
    node_id: NodeId,
}

impl Cli {
    pub closed spec fn next_id(&self) -> usize {
        self.next_local_tx_id
    }

    pub closed spec fn spec_node_id(&self) -> NodeId {
        self.node_id
    }

    pub fn new(node_id: NodeId) -> (r: Cli)
        ensures
            r.next_id() == 0,
            r.spec_node_id() == node_id,
    {
        Cli { next_local_tx_id: 0, node_id }
    }

    /// A deposit submitted by this node, under the next transaction number.
    pub fn new_deposit(&mut self, account: &str, amount: usize) -> (r: Transaction)
        requires
            old(self).next_id() < usize::MAX,
        ensures
            final(self).next_id() == old(self).next_id() + 1,
            final(self).spec_node_id() == old(self).spec_node_id(),
            r.node_id == old(self).spec_node_id(),
            r.id == old(self).next_id() + 1,
            r.tr@ == (crate::bank::TransactionModel::Deposit { account: account@, amount }),
    {
        self.next_local_tx_id = self.next_local_tx_id + 1;
        Transaction {
            node_id: self.node_id,
            id: self.next_local_tx_id,
            tr: TransactionType::Deposit(account.to_owned(), amount),
        }
    }

    /// A transfer submitted by this node, under the next transaction number.
    pub fn new_transfer(&mut self, from: &str, to: &str, amount: usize) -> (r: Transaction)
        requires
            old(self).next_id() < usize::MAX,
        ensures
            final(self).next_id() == old(self).next_id() + 1,
            final(self).spec_node_id() == old(self).spec_node_id(),
            r.node_id == old(self).spec_node_id(),
            r.id == old(self).next_id() + 1,
            r.tr@ == (crate::bank::TransactionModel::Transfer { from: from@, to: to@, amount }),
    {
        self.next_local_tx_id = self.next_local_tx_id + 1;
        Transaction {
            node_id: self.node_id,
            id: self.next_local_tx_id,
            tr: TransactionType::Transfer(from.to_owned(), to.to_owned(), amount),
        }
    }

    /// Parses one input line. A deposit line is exactly
    /// `DEPOSIT <account> <amount>`; a transfer line is exactly
    /// `TRANSFER <from> -> <to> <amount>`; any other line yields nothing and
    /// the caller reads on.
    pub fn parse_input(&mut self, line: &str) -> (r: Option<Transaction>)
        requires
            old(self).next_id() < usize::MAX,
        ensures
            ({
                let toks = spec_tokens(line@);
                &&& (toks.len() == 3 && toks[0] == "DEPOSIT"@ && spec_parse_usize(toks[2]) is Some
                    ==> (r matches Some(t) && t.node_id == old(self).spec_node_id() && t.id == old(
                    self,
                ).next_id() + 1 && t.tr@ == (crate::bank::TransactionModel::Deposit {
                    account: toks[1],
                    amount: spec_parse_usize(toks[2])->0,
                })))
                &&& (toks.len() == 5 && toks[0] == "TRANSFER"@ && toks[2] == "->"@
                    && spec_parse_usize(toks[4]) is Some ==> (r matches Some(t) && t.node_id == old(
                    self,
                ).spec_node_id() && t.id == old(self).next_id() + 1 && t.tr@ == (
                crate::bank::TransactionModel::Transfer {
                    from: toks[1],
                    to: toks[3],
                    amount: spec_parse_usize(toks[4])->0,
                })))
                &&& (!(toks.len() == 3 && toks[0] == "DEPOSIT"@ && spec_parse_usize(
                    toks[2],
                ) is Some) && !(toks.len() == 5 && toks[0] == "TRANSFER"@ && toks[2] == "->"@
                    && spec_parse_usize(toks[4]) is Some) ==> r is None && *final(self) == *old(self))
            }),
            final(self).spec_node_id() == old(self).spec_node_id(),
            old(self).next_id() <= final(self).next_id() <= old(self).next_id() + 1,
    {
        let toks = tokenize(line);
        if toks.len() == 3 {
            proof {
                assert(toks@.map_values(|t: String| t@)[0] == toks@[0]@);
                assert(toks@.map_values(|t: String| t@)[1] == toks@[1]@);
                assert(toks@.map_values(|t: String| t@)[2] == toks@[2]@);
            }
            if str_equal(toks[0].as_str(), "DEPOSIT") {
                match parse_usize(toks[2].as_str()) {
                    Some(amount) => {
                        return Some(self.new_deposit(toks[1].as_str(), amount));
                    },
                    None => {
                        return None;
                    },
                }
            }
            return None;
        }
        if toks.len() == 5 {
            proof {
                assert(toks@.map_values(|t: String| t@)[0] == toks@[0]@);
                assert(toks@.map_values(|t: String| t@)[1] == toks@[1]@);
                assert(toks@.map_values(|t: String| t@)[2] == toks@[2]@);
                assert(toks@.map_values(|t: String| t@)[3] == toks@[3]@);
                assert(toks@.map_values(|t: String| t@)[4] == toks@[4]@);
            }
            if str_equal(toks[0].as_str(), "TRANSFER") && str_equal(toks[2].as_str(), "->") {
                match parse_usize(toks[4].as_str()) {
                    Some(amount) => {
                        return Some(self.new_transfer(toks[1].as_str(), toks[3].as_str(), amount));
                    },
                    None => {
                        return None;
                    },
                }
            }
            return None;
        }
        None
    }
}

} // verus!
