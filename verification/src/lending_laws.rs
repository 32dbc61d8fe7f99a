//! What holds of the lending contract, whoever calls it.

use crate::contract_presets::{shortfall, transfer_msg, LendingPreset, LendingTokens, Pool};
use crate::decimal::{decimal_product, decimal_quotient, opt_sum, Decimal};
use crate::ledger_model::LedgerV;
use crate::node::{MsgV, NodeV};
use vstd::prelude::*;

verus! {

impl LendingPreset {
    /// What a node's receipts of both pools are worth, in the token of pool A.
    pub open spec fn collateral(self, c: NodeV, l: LedgerV, t: LendingTokens, id: usize) -> Option<
        Decimal,
    > {
        opt_sum(
            self.held_value(c, l, Pool::A, t, id),
            self.b_in_a(l, self.held_value(c, l, Pool::B, t, id)),
        )
    }
}

/// Whoever borrows gets no more than they asked for and than the pool holds, and owes what they
/// get. What they put up covers what they owe then at the smallest ratio that is allowed.
pub proof fn law_borrowing_is_covered(
    p: LendingPreset,
    c: NodeV,
    l: LedgerV,
    pool: Pool,
    t: LendingTokens,
    caller: usize,
    asked: Decimal,
)
    requires
        p.borrow(c, l, pool, t, caller, asked) is Some,
        (p.borrow(c, l, pool, t, caller, asked)->0).len() > 0,
    ensures
        ({
            let amount = asked.least(c.balance(p.token(pool)));
            let debt = p.debt_with(l, pool, t, caller, amount)->0;
            let bound = decimal_product(debt, p.min_collateral_ratio);
            &&& p.borrow(c, l, pool, t, caller, asked)->0 == seq![
                transfer_msg(c.core.id, caller, p.token(pool), amount),
                MsgV::Issue {
                    token: t.debt(pool),
                    account_id: caller,
                    volume: amount.negated(),
                },
            ]
            &&& 0 < amount.val() <= asked.val()
            &&& amount.val() <= c.balance(p.token(pool)).val()
            &&& debt.val() > 0 ==> p.collateral(c, l, t, caller) is Some && bound is Some && (
            p.collateral(c, l, t, caller)->0).val() >= (bound->0).val()
        }),
{
}

/// Whoever takes out of a pool gets no more than they asked for and than the pool holds, and what
/// is left of what they put up covers what they owe at the smallest ratio that is allowed.
pub proof fn law_withdrawing_is_covered(
    p: LendingPreset,
    c: NodeV,
    l: LedgerV,
    pool: Pool,
    own: (usize, usize),
    rate: Decimal,
    caller: usize,
    asked: Decimal,
)
    requires
        p.withdraw(c, l, pool, own, rate, caller, asked) is Some,
        (p.withdraw(c, l, pool, own, rate, caller, asked)->0).1.len() > 0,
    ensures
        ({
            let actual = p.withdrawable(c, l, pool, own.0, rate, caller, asked)->0;
            let (known, msgs) = p.withdraw(c, l, pool, own, rate, caller, asked)->0;
            let t = LendingTokens::of(pool, own, p.other_tokens(c, l, pool).1->0);
            let needed = crate::contract_presets::in_receipts(actual, rate, l.precision)->0;
            &&& msgs.len() == 2
            &&& msgs[1] == transfer_msg(known.core.id, caller, p.token(pool), actual)
            &&& 0 < actual.val() <= asked.val()
            &&& actual.val() <= c.balance(p.token(pool)).val()
            &&& p.covered_after(known, l, pool, t, caller, actual, needed) == Some(true)
        }),
{
}

/// Paying in gives receipts for all of it, or nothing happens.
pub proof fn law_deposit(
    p: LendingPreset,
    c: NodeV,
    l: LedgerV,
    pool: Pool,
    receipt: usize,
    rate: Decimal,
    caller: usize,
    volume: Decimal,
)
    requires
        p.deposit(c, l, pool, receipt, rate, caller, volume) is Some,
    ensures
        ({
            let msgs = p.deposit(c, l, pool, receipt, rate, caller, volume)->0;
            ||| msgs.len() == 0
            ||| msgs.len() == 2 && msgs[0] == transfer_msg(
                caller,
                c.core.id,
                p.token(pool),
                volume,
            ) && (msgs[1] matches MsgV::Issue { token, account_id, volume: amount } && token
                == receipt && account_id == caller && amount.val() > 0) && l.balance(
                caller,
                p.token(pool),
            ).val() >= volume.val()
        }),
{
}

/// Nobody pays back more than they owe or than they offer, and what they pay is what they owe
/// less.
pub proof fn law_repaying(
    p: LendingPreset,
    c: NodeV,
    l: LedgerV,
    pool: Pool,
    t: LendingTokens,
    caller: usize,
    volume: Decimal,
)
    requires
        p.repay(c, l, pool, t, caller, volume).len() > 0,
    ensures
        ({
            let paid = volume.least(shortfall(l.balance(caller, t.debt(pool))));
            &&& p.repay(c, l, pool, t, caller, volume) == seq![
                transfer_msg(caller, c.core.id, p.token(pool), paid),
                MsgV::Issue { token: t.debt(pool), account_id: caller, volume: paid },
            ]
            &&& 0 < paid.val() <= volume.val()
            &&& paid.val() <= shortfall(l.balance(caller, t.debt(pool))).val()
            &&& l.balance(caller, p.token(pool)).val() >= volume.val()
        }),
{
}

/// An account that owes nothing, or whose receipts cover what it owes at the threshold, is left
/// alone. Any other one that holds receipts loses them all, and with them all it owes.
pub proof fn law_liquidation(
    p: LendingPreset,
    c: NodeV,
    l: LedgerV,
    t: LendingTokens,
    acc: usize,
)
    requires
        p.liquidation(c, l, t, acc) is Some,
    ensures
        ({
            let owes = l.balance(acc, t.debt_a).val() < 0 || l.balance(acc, t.debt_b).val() < 0;
            let debt = p.total_debt(l, t, acc);
            let collateral = p.collateral(c, l, t, acc);
            let health = decimal_quotient(collateral->0, debt->0);
            &&& p.liquidation(c, l, t, acc)->0 == (if owes && (debt->0).val() > 0 && (
            collateral->0).val() > 0 && (health->0).val() < p.liquidation_threshold.val() {
                p.called_in(l, t, acc)
            } else {
                Seq::empty()
            })
        }),
{
}

/// Calling an account in burns all receipts that it holds and forgives all debts that it has at that
/// moment.
pub proof fn law_called_in(p: LendingPreset, l: LedgerV, t: LendingTokens, acc: usize, i: int)
    requires
        0 <= i < p.called_in(l, t, acc).len(),
    ensures
        p.called_in(l, t, acc)[i] matches MsgV::Issue { token, account_id, volume } && account_id
            == acc && volume == l.balance(acc, token).negated() && (token == t.receipt_a || token
            == t.receipt_b || token == t.debt_a || token == t.debt_b),
{
}

/// Interest is charged to accounts that owe, at least one unit each, and makes them owe more.
pub proof fn law_interest(p: LendingPreset, l: LedgerV, debt: usize, rate: Decimal, k: nat, i: int)
    requires
        k <= l.accounts.len(),
        p.interest_msgs(l, debt, rate, k) is Some,
        0 <= i < (p.interest_msgs(l, debt, rate, k)->0).len(),
    ensures
        (p.interest_msgs(l, debt, rate, k)->0)[i] matches MsgV::Issue {
            token,
            account_id,
            volume,
        } && token == debt && l.accounts.contains(account_id) && l.balance(account_id, debt).val()
            < 0 && exists|interest: Decimal|
            volume == interest.negated() && interest.val() > 0 && interest.val() >= (
            Decimal::unit_of(l.precision)->0).val(),
    decreases k,
{
    if k > 0 {
        let prev = p.interest_msgs(l, debt, rate, (k - 1) as nat);
        let acc = l.accounts[k - 1];
        let bal = l.balance(acc, debt);
        if i < (prev->0).len() {
            law_interest(p, l, debt, rate, (k - 1) as nat, i);
        } else {
            let due = crate::decimal::opt_truncated(
                decimal_product(bal.negated(), rate),
                l.precision,
            );
            let interest = (due->0).greatest(Decimal::unit_of(l.precision)->0);
            assert(l.accounts.contains(acc));
            assert((p.interest_msgs(l, debt, rate, k)->0)[i] == MsgV::Issue {
                token: debt,
                account_id: acc,
                volume: interest.negated(),
            });
            assert(interest.val() > 0 && interest.val() >= (Decimal::unit_of(
                l.precision,
            )->0).val());
        }
    }
}

} // verus!
