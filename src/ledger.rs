use vstd::prelude::*;

use crate::seqs::lemma_prefix;

use crate::bytes::bytes_eq;
use crate::config::{Amount, LockedVote, Payment};
use crate::governance::{ProposalRecord, VoterLocks};
use crate::proposal::Action;

verus! {

pub open spec fn same_unit(p: Payment, token: Seq<u8>, nonce: u64) -> bool {
    p.token@ == token && p.nonce == nonce
}

/// The amount of the unit `(token, nonce)` that `ps` carry.
pub open spec fn payments_amount(ps: Seq<Payment>, token: Seq<u8>, nonce: u64) -> nat
    decreases ps.len(),
{
    if ps.len() == 0 {
        0
    } else {
        payments_amount(ps.drop_last(), token, nonce) + if same_unit(ps.last(), token, nonce) {
            ps.last().amount as nat
        } else {
            0nat
        }
    }
}

/// The amount of the unit that the actions ask to send, summed over the
/// whole batch.
pub open spec fn requested_amount(actions: Seq<Action>, token: Seq<u8>, nonce: u64) -> nat
    decreases actions.len(),
{
    if actions.len() == 0 {
        0
    } else {
        requested_amount(actions.drop_last(), token, nonce) + payments_amount(actions.last().payments@, token, nonce)
    }
}

pub open spec fn votes_amount(vs: Seq<LockedVote>, token: Seq<u8>, nonce: u64) -> nat
    decreases vs.len(),
{
    if vs.len() == 0 {
        0
    } else {
        votes_amount(vs.drop_last(), token, nonce) + if same_unit(vs.last().payment, token, nonce) {
            vs.last().payment.amount as nat
        } else {
            0nat
        }
    }
}

pub open spec fn voters_amount(ls: Seq<VoterLocks>, token: Seq<u8>, nonce: u64) -> nat
    decreases ls.len(),
{
    if ls.len() == 0 {
        0
    } else {
        voters_amount(ls.drop_last(), token, nonce) + votes_amount(ls.last().votes@, token, nonce)
    }
}

/// The amount of the unit held back for votes: every locked vote counts
/// until it is withdrawn.
pub open spec fn guarded_amount(recs: Seq<ProposalRecord>, token: Seq<u8>, nonce: u64) -> nat
    decreases recs.len(),
{
    if recs.len() == 0 {
        0
    } else {
        guarded_amount(recs.drop_last(), token, nonce) + voters_amount(recs.last().locked@, token, nonce)
    }
}

/// The balance listed first for the unit, zero when none is.
pub open spec fn balance_of(balances: Seq<Payment>, token: Seq<u8>, nonce: u64) -> nat
    decreases balances.len(),
{
    if balances.len() == 0 {
        0
    } else if same_unit(balances[0], token, nonce) {
        balances[0].amount as nat
    } else {
        balance_of(balances.drop_first(), token, nonce)
    }
}

/// What the actions ask for of the unit, together with what is held back,
/// fits in the balance.
pub open spec fn unit_available(
    actions: Seq<Action>,
    recs: Seq<ProposalRecord>,
    balances: Seq<Payment>,
    token: Seq<u8>,
    nonce: u64,
) -> bool {
    requested_amount(actions, token, nonce) + guarded_amount(recs, token, nonce) <= balance_of(balances, token, nonce)
}

/// Every unit that any action pays out is available.
pub open spec fn tokens_available(actions: Seq<Action>, recs: Seq<ProposalRecord>, balances: Seq<Payment>) -> bool {
    forall|i: int, j: int|
        0 <= i < actions.len() && 0 <= j < actions[i].payments@.len() ==> #[trigger] unit_available(
            actions,
            recs,
            balances,
            actions[i].payments@[j].token@,
            actions[i].payments@[j].nonce,
        )
}


proof fn lemma_payments_prefix(s: Seq<Payment>, i: int, token: Seq<u8>, nonce: u64)
    requires
        0 <= i <= s.len(),
    ensures
        payments_amount(s.subrange(0, i), token, nonce) <= payments_amount(s, token, nonce),
    decreases s.len() - i,
{
    if i < s.len() {
        lemma_prefix(s, i);
        lemma_payments_prefix(s, i + 1, token, nonce);
    } else {
        assert(s.subrange(0, i) =~= s);
    }
}

proof fn lemma_requested_prefix(s: Seq<Action>, i: int, token: Seq<u8>, nonce: u64)
    requires
        0 <= i <= s.len(),
    ensures
        requested_amount(s.subrange(0, i), token, nonce) <= requested_amount(s, token, nonce),
    decreases s.len() - i,
{
    if i < s.len() {
        lemma_prefix(s, i);
        lemma_requested_prefix(s, i + 1, token, nonce);
    } else {
        assert(s.subrange(0, i) =~= s);
    }
}

proof fn lemma_votes_prefix(s: Seq<LockedVote>, i: int, token: Seq<u8>, nonce: u64)
    requires
        0 <= i <= s.len(),
    ensures
        votes_amount(s.subrange(0, i), token, nonce) <= votes_amount(s, token, nonce),
    decreases s.len() - i,
{
    if i < s.len() {
        lemma_prefix(s, i);
        lemma_votes_prefix(s, i + 1, token, nonce);
    } else {
        assert(s.subrange(0, i) =~= s);
    }
}

proof fn lemma_voters_prefix(s: Seq<VoterLocks>, i: int, token: Seq<u8>, nonce: u64)
    requires
        0 <= i <= s.len(),
    ensures
        voters_amount(s.subrange(0, i), token, nonce) <= voters_amount(s, token, nonce),
    decreases s.len() - i,
{
    if i < s.len() {
        lemma_prefix(s, i);
        lemma_voters_prefix(s, i + 1, token, nonce);
    } else {
        assert(s.subrange(0, i) =~= s);
    }
}

proof fn lemma_guarded_prefix(s: Seq<ProposalRecord>, i: int, token: Seq<u8>, nonce: u64)
    requires
        0 <= i <= s.len(),
    ensures
        guarded_amount(s.subrange(0, i), token, nonce) <= guarded_amount(s, token, nonce),
    decreases s.len() - i,
{
    if i < s.len() {
        lemma_prefix(s, i);
        lemma_guarded_prefix(s, i + 1, token, nonce);
    } else {
        assert(s.subrange(0, i) =~= s);
    }
}

/// The balance of the unit listed in `balances`.
pub fn find_balance(balances: &Vec<Payment>, token: &Vec<u8>, nonce: u64) -> (r: Amount)
    ensures
        r == balance_of(balances@, token@, nonce),
{
    let mut i: usize = 0;
    assert(balances@.subrange(0, balances@.len() as int) =~= balances@);
    while i < balances.len()
        invariant
            0 <= i <= balances.len(),
            balance_of(balances@, token@, nonce) == balance_of(balances@.subrange(i as int, balances@.len() as int), token@, nonce),
        decreases balances.len() - i,
    {
        let ghost rest = balances@.subrange(i as int, balances@.len() as int);
        assert(rest.drop_first() =~= balances@.subrange(i + 1, balances@.len() as int));
        if balances[i].nonce == nonce && bytes_eq(&balances[i].token, token) {
            return balances[i].amount;
        }
        i = i + 1;
    }
    0
}

/// Adds to `acc` what `ps` carry of the unit, as long as the sum stays
/// within `cap`; none when it would not.
fn add_payments_within(ps: &Vec<Payment>, token: &Vec<u8>, nonce: u64, acc: Amount, cap: Amount) -> (r: Option<Amount>)
    requires
        acc <= cap,
    ensures
        r is Some ==> r->0 == acc + payments_amount(ps@, token@, nonce) && r->0 <= cap,
        r is None ==> acc + payments_amount(ps@, token@, nonce) > cap,
{
    let mut total = acc;
    let mut j: usize = 0;
    while j < ps.len()
        invariant
            0 <= j <= ps.len(),
            acc <= total <= cap,
            total == acc + payments_amount(ps@.subrange(0, j as int), token@, nonce),
        decreases ps.len() - j,
    {
        proof {
            lemma_prefix(ps@, j as int);
        }
        if ps[j].nonce == nonce && bytes_eq(&ps[j].token, token) {
            if ps[j].amount > cap - total {
                proof {
                    lemma_payments_prefix(ps@, j + 1, token@, nonce);
                }
                return None;
            }
            total = total + ps[j].amount;
        }
        j = j + 1;
    }
    assert(ps@.subrange(0, ps@.len() as int) =~= ps@);
    Some(total)
}

fn add_votes_within(vs: &Vec<LockedVote>, token: &Vec<u8>, nonce: u64, acc: Amount, cap: Amount) -> (r: Option<Amount>)
    requires
        acc <= cap,
    ensures
        r is Some ==> r->0 == acc + votes_amount(vs@, token@, nonce) && r->0 <= cap,
        r is None ==> acc + votes_amount(vs@, token@, nonce) > cap,
{
    let mut total = acc;
    let mut j: usize = 0;
    while j < vs.len()
        invariant
            0 <= j <= vs.len(),
            acc <= total <= cap,
            total == acc + votes_amount(vs@.subrange(0, j as int), token@, nonce),
        decreases vs.len() - j,
    {
        proof {
            lemma_prefix(vs@, j as int);
        }
        if vs[j].payment.nonce == nonce && bytes_eq(&vs[j].payment.token, token) {
            if vs[j].payment.amount > cap - total {
                proof {
                    lemma_votes_prefix(vs@, j + 1, token@, nonce);
                }
                return None;
            }
            total = total + vs[j].payment.amount;
        }
        j = j + 1;
    }
    assert(vs@.subrange(0, vs@.len() as int) =~= vs@);
    Some(total)
}

fn add_voters_within(ls: &Vec<VoterLocks>, token: &Vec<u8>, nonce: u64, acc: Amount, cap: Amount) -> (r: Option<Amount>)
    requires
        acc <= cap,
    ensures
        r is Some ==> r->0 == acc + voters_amount(ls@, token@, nonce) && r->0 <= cap,
        r is None ==> acc + voters_amount(ls@, token@, nonce) > cap,
{
    let mut total = acc;
    let mut j: usize = 0;
    while j < ls.len()
        invariant
            0 <= j <= ls.len(),
            acc <= total <= cap,
            total == acc + voters_amount(ls@.subrange(0, j as int), token@, nonce),
        decreases ls.len() - j,
    {
        proof {
            lemma_prefix(ls@, j as int);
        }
        match add_votes_within(&ls[j].votes, token, nonce, total, cap) {
            Some(t) => {
                total = t;
            },
            None => {
                proof {
                    lemma_voters_prefix(ls@, j + 1, token@, nonce);
                }
                return None;
            },
        }
        j = j + 1;
    }
    assert(ls@.subrange(0, ls@.len() as int) =~= ls@);
    Some(total)
}

/// Adds to `acc` what is held back of the unit, within `cap`.
pub fn add_guarded_within(recs: &Vec<ProposalRecord>, token: &Vec<u8>, nonce: u64, acc: Amount, cap: Amount) -> (r: Option<Amount>)
    requires
        acc <= cap,
    ensures
        r is Some ==> r->0 == acc + guarded_amount(recs@, token@, nonce) && r->0 <= cap,
        r is None ==> acc + guarded_amount(recs@, token@, nonce) > cap,
{
    let mut total = acc;
    let mut j: usize = 0;
    while j < recs.len()
        invariant
            0 <= j <= recs.len(),
            acc <= total <= cap,
            total == acc + guarded_amount(recs@.subrange(0, j as int), token@, nonce),
        decreases recs.len() - j,
    {
        proof {
            lemma_prefix(recs@, j as int);
        }
        match add_voters_within(&recs[j].locked, token, nonce, total, cap) {
            Some(t) => {
                total = t;
            },
            None => {
                proof {
                    lemma_guarded_prefix(recs@, j + 1, token@, nonce);
                }
                return None;
            },
        }
        j = j + 1;
    }
    assert(recs@.subrange(0, recs@.len() as int) =~= recs@);
    Some(total)
}

/// The amount held back of the unit, when it fits in an amount.
pub fn guarded_vote_tokens(recs: &Vec<ProposalRecord>, token: &Vec<u8>, nonce: u64) -> (r: Option<Amount>)
    ensures
        r is Some <==> guarded_amount(recs@, token@, nonce) <= u128::MAX,
        r is Some ==> r->0 == guarded_amount(recs@, token@, nonce),
{
    add_guarded_within(recs, token, nonce, 0, u128::MAX)
}

fn requested_within(actions: &Vec<Action>, token: &Vec<u8>, nonce: u64, cap: Amount) -> (r: Option<Amount>)
    ensures
        r is Some ==> r->0 == requested_amount(actions@, token@, nonce) && r->0 <= cap,
        r is None ==> requested_amount(actions@, token@, nonce) > cap,
{
    let mut total: Amount = 0;
    let mut i: usize = 0;
    while i < actions.len()
        invariant
            0 <= i <= actions.len(),
            total <= cap,
            total == requested_amount(actions@.subrange(0, i as int), token@, nonce),
        decreases actions.len() - i,
    {
        proof {
            lemma_prefix(actions@, i as int);
        }
        match add_payments_within(&actions[i].payments, token, nonce, total, cap) {
            Some(t) => {
                total = t;
            },
            None => {
                proof {
                    lemma_requested_prefix(actions@, i + 1, token@, nonce);
                }
                return None;
            },
        }
        i = i + 1;
    }
    assert(actions@.subrange(0, actions@.len() as int) =~= actions@);
    Some(total)
}

fn unit_is_available(
    actions: &Vec<Action>,
    recs: &Vec<ProposalRecord>,
    balances: &Vec<Payment>,
    token: &Vec<u8>,
    nonce: u64,
) -> (r: bool)
    ensures
        r == unit_available(actions@, recs@, balances@, token@, nonce),
{
    let balance = find_balance(balances, token, nonce);
    match requested_within(actions, token, nonce, balance) {
        None => false,
        Some(requested) => add_guarded_within(recs, token, nonce, requested, balance).is_some(),
    }
}

/// Whether the batch can be paid for: for every unit it pays out, the sum
/// it asks for over all actions fits in the balance minus what is held
/// back for votes.
pub fn ensure_tokens_available_for_actions(
    actions: &Vec<Action>,
    recs: &Vec<ProposalRecord>,
    balances: &Vec<Payment>,
) -> (r: bool)
    ensures
        r == tokens_available(actions@, recs@, balances@),
{
    let mut i: usize = 0;
    while i < actions.len()
        invariant
            0 <= i <= actions.len(),
            forall|i2: int, j2: int|
                0 <= i2 < i && 0 <= j2 < actions@[i2].payments@.len() ==> #[trigger] unit_available(
                    actions@,
                    recs@,
                    balances@,
                    actions@[i2].payments@[j2].token@,
                    actions@[i2].payments@[j2].nonce,
                ),
        decreases actions.len() - i,
    {
        let ps = &actions[i].payments;
        let mut j: usize = 0;
        while j < ps.len()
            invariant
                0 <= i < actions.len(),
                ps == actions@[i as int].payments,
                0 <= j <= ps.len(),
                forall|i2: int, j2: int|
                    0 <= i2 < i && 0 <= j2 < actions@[i2].payments@.len() ==> #[trigger] unit_available(
                        actions@,
                        recs@,
                        balances@,
                        actions@[i2].payments@[j2].token@,
                        actions@[i2].payments@[j2].nonce,
                    ),
                forall|j2: int|
                    0 <= j2 < j ==> #[trigger] unit_available(
                        actions@,
                        recs@,
                        balances@,
                        ps@[j2].token@,
                        ps@[j2].nonce,
                    ),
            decreases ps.len() - j,
        {
            if !unit_is_available(actions, recs, balances, &ps[j].token, ps[j].nonce) {
                return false;
            }
            j = j + 1;
        }
        i = i + 1;
    }
    true
}

} // verus!
