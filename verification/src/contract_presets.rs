//! Ready-made contracts.
//!
//! The lending contract keeps two pools. Who pays into a pool gets receipts for a share of it;
//! who borrows from a pool gets a negative amount of its debt token. Receipts of both pools count
//! as collateral for debts of both.

use crate::contract::{Contract, ContractLogic};
use crate::decimal::{
    decimal_difference, decimal_product, decimal_quotient, decimal_sum, opt_difference,
    opt_product, opt_quotient, opt_sum, opt_truncated, Decimal,
};
use crate::ledger::Ledger;
use crate::ledger_model::LedgerV;
use crate::node::{msgs_view, Msg, MsgV, Node, NodeV};
use crate::reader::EngineReader;
use crate::rpte_model::PRICE_BASE;
use vstd::prelude::*;

verus! {

/// Where the contract keeps the id of the receipts of pool A.
pub const KEY_RECEIPT_A: usize = usize::MAX - 1;

/// Where the contract keeps the id of the receipts of pool B.
pub const KEY_RECEIPT_B: usize = usize::MAX - 2;

/// Where the contract keeps the id of the debt token of pool A.
pub const KEY_DEBT_A: usize = usize::MAX - 3;

/// Where the contract keeps the id of the debt token of pool B.
pub const KEY_DEBT_B: usize = usize::MAX - 4;

/// A lending contract with two pools.
#[derive(Clone)]
pub struct LendingPreset {
    /// The token of pool A.
    pub asset_token_a: usize,
    /// The token of pool B.
    pub asset_token_b: usize,
    /// The name of the receipts of pool A.
    pub receipt_a_name: String,
    /// The name of the receipts of pool B.
    pub receipt_b_name: String,
    /// The name of the debt token of pool A.
    pub debt_a_name: String,
    /// The name of the debt token of pool B.
    pub debt_b_name: String,
    /// How many times a debt must be covered to be taken up.
    pub min_collateral_ratio: Decimal,
    /// How many times a debt must be covered not to be called in.
    pub liquidation_threshold: Decimal,
    /// The utilization of a pool at which interest turns steep.
    pub optimal_utilization: Decimal,
    /// The interest of a pool that nothing is borrowed from.
    pub base_rate: Decimal,
    /// What interest rises by up to the optimal utilization.
    pub slope1: Decimal,
    /// What interest rises by from there to full utilization.
    pub slope2: Decimal,
}

/// One of the two pools.
#[derive(Clone, Copy, Debug, PartialEq, Eq, Structural)]
pub enum Pool {
    A,
    B,
}

/// The tokens of the contract.
#[derive(Clone, Copy, Debug)]
pub struct LendingTokens {
    pub receipt_a: usize,
    pub receipt_b: usize,
    pub debt_a: usize,
    pub debt_b: usize,
}

/// How far a number lies below zero.
pub open spec fn shortfall(v: Decimal) -> Decimal {
    if v.val() < 0 {
        v.negated()
    } else {
        Decimal::of(0, 0)
    }
}

/// How far a number lies below zero.
fn shortfall_of(v: Decimal) -> (r: Decimal)
    ensures
        r == shortfall(v),
{
    proof {
        Decimal::lemma_zero();
    }
    if v < Decimal::zero() {
        v.neg()
    } else {
        Decimal::zero()
    }
}

/// The token of a name, from where the contract keeps it or else by its name, and the contract
/// after it was kept.
pub open spec fn known_token(c: NodeV, l: LedgerV, name: Seq<char>, key: usize) -> (
    NodeV,
    Option<usize>,
) {
    let kept = c.balance(key);
    if kept.val() > 0 {
        (
            c,
            match kept.whole() {
                Some(id) => Some(id as usize),
                None => None,
            },
        )
    } else {
        match l.token_by_name(name) {
            Some(id) => (c.with_balance(key, Decimal::of((id as i64) as int, 0)), Some(id)),
            None => (c, None),
        }
    }
}

/// The token of a name, from where the contract keeps it or else by its name.
fn cached_receipt_id(contract: &mut Contract, reader: &Ledger, name: &str, cache_key: usize) -> (r: Option<
    usize,
>)
    ensures
        (final(contract)@, r) == known_token(old(contract)@, reader@, name@, cache_key),
{
    proof {
        Decimal::lemma_zero();
    }
    let kept = contract.balance(cache_key);
    if kept > Decimal::zero() {
        return match kept.to_u64() {
            Some(id) => Some(id as usize),
            None => None,
        };
    }
    match reader.get_token_by_name(name) {
        Some(id) => {
            contract.set_balance(cache_key, Decimal::new(id as i64, 0));
            Some(id)
        },
        None => None,
    }
}

/// The part of a pool's value that an amount of its receipts stands for, nothing where there are
/// none.
pub open spec fn share_value(value: Option<Decimal>, held: Option<Decimal>, supply: Decimal) -> Option<
    Decimal,
> {
    if supply.val() == 0 {
        Some(Decimal::of(0, 0))
    } else {
        opt_quotient(opt_product(value, held), Some(supply))
    }
}

/// What a receipt is worth.
pub open spec fn receipt_rate(value: Option<Decimal>, supply: Decimal) -> Option<Decimal> {
    if supply.val() == 0 {
        Some(Decimal::of(1, 0))
    } else {
        match value {
            Some(v) => if v.val() == 0 {
                Some(Decimal::of(1, 0))
            } else {
                decimal_quotient(v, supply)
            },
            None => None,
        }
    }
}

/// An amount of a token in receipts at a rate, cut off at the precision.
pub open spec fn in_receipts(amount: Decimal, rate: Decimal, precision: u8) -> Option<Decimal> {
    if rate.val() == 0 {
        Some(amount.truncated(precision as nat))
    } else {
        opt_truncated(decimal_quotient(amount, rate), precision)
    }
}

impl LendingPreset {
    pub open spec fn token(self, p: Pool) -> usize {
        match p {
            Pool::A => self.asset_token_a,
            Pool::B => self.asset_token_b,
        }
    }

    /// The interest at a utilization: it rises in two straight lines that meet at the optimal
    /// one.
    pub open spec fn rate_at(self, utilization: Decimal) -> Option<Decimal> {
        if utilization.val() < self.optimal_utilization.val() {
            let rise = if self.optimal_utilization.val() == 0 {
                Some(Decimal::of(0, 0))
            } else {
                opt_quotient(
                    decimal_product(self.slope1, utilization),
                    Some(self.optimal_utilization),
                )
            };
            opt_sum(Some(self.base_rate), rise)
        } else {
            let span = decimal_difference(Decimal::of(1, 0), self.optimal_utilization);
            match span {
                Some(s) => {
                    let rise = if s.val() == 0 {
                        Some(Decimal::of(0, 0))
                    } else {
                        opt_quotient(
                            opt_product(
                                Some(self.slope2),
                                decimal_difference(utilization, self.optimal_utilization),
                            ),
                            Some(s),
                        )
                    };
                    opt_sum(decimal_sum(self.base_rate, self.slope1), rise)
                },
                None => None,
            }
        }
    }

    /// An amount of the token of pool B in that of pool A.
    pub open spec fn b_in_a(self, l: LedgerV, amount: Option<Decimal>) -> Option<Decimal> {
        match amount {
            Some(v) => l.converted(self.asset_token_b, self.asset_token_a, v),
            None => None,
        }
    }

    /// What a pool is worth: what it holds and what is owed to it.
    pub open spec fn pool_value(self, c: NodeV, l: LedgerV, p: Pool, t: LendingTokens) -> Option<
        Decimal,
    > {
        decimal_sum(c.balance(self.token(p)), shortfall(l.total_supply(t.debt(p))))
    }

    /// What the receipts of a pool that a node holds are worth.
    pub open spec fn held_value(self, c: NodeV, l: LedgerV, p: Pool, t: LendingTokens, id: usize) -> Option<
        Decimal,
    > {
        share_value(
            self.pool_value(c, l, p, t),
            Some(l.balance(id, t.receipt(p))),
            l.total_supply(t.receipt(p)),
        )
    }

    // ---- creation ----

    /// The messages of creation: the four tokens and the four virtual pairs.
    pub open spec fn creation_msgs(self, id: usize) -> Seq<MsgV> {
        seq![
            token_msg(self.receipt_a_name@, false),
            token_msg(self.receipt_b_name@, false),
            token_msg(self.debt_a_name@, true),
            token_msg(self.debt_b_name@, true),
            pair_msg(id, 0, self.asset_token_a, self.receipt_a_name@, false),
            pair_msg(id, 1, self.asset_token_b, self.receipt_b_name@, false),
            pair_msg(id, 2, self.asset_token_a, self.debt_a_name@, true),
            pair_msg(id, 3, self.asset_token_b, self.debt_b_name@, true),
        ]
    }

    // ---- frames ----

    /// The contract's tokens in the order in which a frame looks them up, and the contract after
    /// those were kept that were found.
    pub open spec fn tokens_known(self, c: NodeV, l: LedgerV) -> (NodeV, Option<LendingTokens>) {
        let (c1, receipt_a) = known_token(c, l, self.receipt_a_name@, KEY_RECEIPT_A);
        if receipt_a is None {
            (c1, None)
        } else {
            let (c2, receipt_b) = known_token(c1, l, self.receipt_b_name@, KEY_RECEIPT_B);
            if receipt_b is None {
                (c2, None)
            } else {
                let (c3, debt_a) = known_token(c2, l, self.debt_a_name@, KEY_DEBT_A);
                if debt_a is None {
                    (c3, None)
                } else {
                    let (c4, debt_b) = known_token(c3, l, self.debt_b_name@, KEY_DEBT_B);
                    if debt_b is None {
                        (c4, None)
                    } else {
                        (
                            c4,
                            Some(
                                LendingTokens {
                                    receipt_a: receipt_a->0,
                                    receipt_b: receipt_b->0,
                                    debt_a: debt_a->0,
                                    debt_b: debt_b->0,
                                },
                            ),
                        )
                    }
                }
            }
        }
    }

    /// The interest of the first `k` accounts on what they owe to a pool, at least one unit each.
    pub open spec fn interest_msgs(self, l: LedgerV, debt: usize, rate: Decimal, k: nat) -> Option<
        Seq<MsgV>,
    >
        decreases k,
    {
        if k == 0 {
            Some(Seq::empty())
        } else {
            let prev = self.interest_msgs(l, debt, rate, (k - 1) as nat);
            let acc = l.accounts[k - 1];
            let bal = l.balance(acc, debt);
            if prev is None || bal.val() >= 0 {
                prev
            } else {
                let due = opt_truncated(decimal_product(bal.negated(), rate), l.precision);
                let unit = Decimal::unit_of(l.precision);
                if due is None || unit is None {
                    None
                } else {
                    let interest = (due->0).greatest(unit->0);
                    if interest.val() > 0 {
                        Some(
                            (prev->0).push(
                                MsgV::Issue {
                                    token: debt,
                                    account_id: acc,
                                    volume: interest.negated(),
                                },
                            ),
                        )
                    } else {
                        prev
                    }
                }
            }
        }
    }

    /// The interest that a pool charges in a frame.
    pub open spec fn pool_interest(self, c: NodeV, l: LedgerV, p: Pool, t: LendingTokens) -> Option<
        Seq<MsgV>,
    > {
        let borrowed = shortfall(l.total_supply(t.debt(p)));
        match self.pool_value(c, l, p, t) {
            Some(total) => if total.val() == 0 || borrowed.val() == 0 {
                Some(Seq::empty())
            } else {
                match decimal_quotient(borrowed, total) {
                    Some(utilization) => match self.rate_at(utilization) {
                        Some(rate) => self.interest_msgs(
                            l,
                            t.debt(p),
                            rate,
                            l.accounts.len(),
                        ),
                        None => None,
                    },
                    None => None,
                }
            },
            None => None,
        }
    }

    /// What happens to an account whose debts are not covered well enough: its receipts are
    /// burnt and its debts are forgiven.
    pub open spec fn called_in(self, l: LedgerV, t: LendingTokens, acc: usize) -> Seq<MsgV> {
        burn_if(l, t.receipt_a, acc, l.balance(acc, t.receipt_a).val() > 0) + burn_if(
            l,
            t.receipt_b,
            acc,
            l.balance(acc, t.receipt_b).val() > 0,
        ) + burn_if(l, t.debt_a, acc, l.balance(acc, t.debt_a).val() < 0) + burn_if(
            l,
            t.debt_b,
            acc,
            l.balance(acc, t.debt_b).val() < 0,
        )
    }

    /// The messages by which an account is called in, none where its debts are covered.
    pub open spec fn liquidation(self, c: NodeV, l: LedgerV, t: LendingTokens, acc: usize) -> Option<
        Seq<MsgV>,
    > {
        let owed_a = l.balance(acc, t.debt_a);
        let owed_b = l.balance(acc, t.debt_b);
        if owed_a.val() >= 0 && owed_b.val() >= 0 {
            Some(Seq::empty())
        } else {
            let debt = opt_sum(
                Some(shortfall(owed_a)),
                self.b_in_a(l, Some(shortfall(owed_b))),
            );
            if debt is None {
                None
            } else if (debt->0).val() <= 0 {
                Some(Seq::empty())
            } else {
                let collateral = opt_sum(
                    self.held_value(c, l, Pool::A, t, acc),
                    self.b_in_a(l, self.held_value(c, l, Pool::B, t, acc)),
                );
                if collateral is None {
                    None
                } else if (collateral->0).val() <= 0 {
                    Some(Seq::empty())
                } else {
                    match decimal_quotient(collateral->0, debt->0) {
                        Some(health) => if health.val() >= self.liquidation_threshold.val() {
                            Some(Seq::empty())
                        } else {
                            Some(self.called_in(l, t, acc))
                        },
                        None => None,
                    }
                }
            }
        }
    }

    /// The messages by which those of the first `k` accounts that are not covered are called in.
    pub open spec fn liquidations(self, c: NodeV, l: LedgerV, t: LendingTokens, k: nat) -> Option<
        Seq<MsgV>,
    >
        decreases k,
    {
        if k == 0 {
            Some(Seq::empty())
        } else {
            let prev = self.liquidations(c, l, t, (k - 1) as nat);
            let next = self.liquidation(c, l, t, l.accounts[k - 1]);
            if prev is None || next is None {
                None
            } else {
                Some(prev->0 + next->0)
            }
        }
    }

    /// The contract with the prices that it quotes for the four virtual pairs.
    pub open spec fn prices_quoted(self, c: NodeV, l: LedgerV, t: LendingTokens) -> Option<NodeV> {
        let rate_a = receipt_rate(
            self.pool_value(c, l, Pool::A, t),
            l.total_supply(t.receipt_a),
        );
        let rate_b = receipt_rate(
            self.pool_value(c, l, Pool::B, t),
            l.total_supply(t.receipt_b),
        );
        if rate_a is None || rate_b is None {
            None
        } else {
            Some(
                c.with_balance(PRICE_BASE, rate_a->0).with_balance(
                    (PRICE_BASE + 1) as usize,
                    rate_b->0,
                ).with_balance((PRICE_BASE + 2) as usize, Decimal::of(1, 0)).with_balance(
                    (PRICE_BASE + 3) as usize,
                    Decimal::of(1, 0),
                ),
            )
        }
    }

    /// A frame: interest for both pools, then the accounts that are not covered, then the prices.
    /// Nothing happens until the contract's tokens are registered.
    pub open spec fn frame(self, c: NodeV, l: LedgerV) -> Option<(NodeV, Seq<MsgV>)> {
        let (known, tokens) = self.tokens_known(c, l);
        match tokens {
            Some(t) => {
                let interest_a = self.pool_interest(known, l, Pool::A, t);
                let interest_b = self.pool_interest(known, l, Pool::B, t);
                let called = self.liquidations(known, l, t, l.accounts.len());
                let quoted = self.prices_quoted(known, l, t);
                if interest_a is None || interest_b is None || called is None || quoted is None {
                    None
                } else {
                    Some((quoted->0, interest_a->0 + interest_b->0 + called->0))
                }
            },
            None => Some((known, Seq::empty())),
        }
    }

    // ---- calls ----

    pub open spec fn receipt_name(self, p: Pool) -> Seq<char> {
        match p {
            Pool::A => self.receipt_a_name@,
            Pool::B => self.receipt_b_name@,
        }
    }

    pub open spec fn debt_name(self, p: Pool) -> Seq<char> {
        match p {
            Pool::A => self.debt_a_name@,
            Pool::B => self.debt_b_name@,
        }
    }

    /// What a node owes to both pools, in the token of pool A.
    pub open spec fn total_debt(self, l: LedgerV, t: LendingTokens, id: usize) -> Option<Decimal> {
        opt_sum(
            Some(shortfall(l.balance(id, t.debt_a))),
            self.b_in_a(l, Some(shortfall(l.balance(id, t.debt_b)))),
        )
    }

    /// What would be left of a node's receipts of a pool, were `actual` taken out.
    pub open spec fn value_after(
        self,
        c: NodeV,
        l: LedgerV,
        p: Pool,
        t: LendingTokens,
        id: usize,
        actual: Decimal,
        needed: Decimal,
    ) -> Option<Decimal> {
        match decimal_difference(l.balance(id, t.receipt(p)), needed) {
            Some(left) => share_value(
                opt_difference(self.pool_value(c, l, p, t), Some(actual)),
                Some(left),
                l.total_supply(t.receipt(p)),
            ),
            None => None,
        }
    }

    /// Whether a node's debts would be covered, were `actual` taken out of a pool for `needed`
    /// receipts.
    pub open spec fn covered_after(
        self,
        c: NodeV,
        l: LedgerV,
        p: Pool,
        t: LendingTokens,
        id: usize,
        actual: Decimal,
        needed: Decimal,
    ) -> Option<bool> {
        match self.total_debt(l, t, id) {
            Some(debt) => if debt.val() <= 0 {
                Some(true)
            } else {
                let a = match p {
                    Pool::A => self.value_after(c, l, p, t, id, actual, needed),
                    Pool::B => self.held_value(c, l, Pool::A, t, id),
                };
                let b = match p {
                    Pool::A => self.held_value(c, l, Pool::B, t, id),
                    Pool::B => self.value_after(c, l, p, t, id, actual, needed),
                };
                let collateral = opt_sum(a, self.b_in_a(l, b));
                let bound = decimal_product(debt, self.min_collateral_ratio);
                if collateral is None || bound is None {
                    None
                } else {
                    Some((bound->0).val() <= (collateral->0).val())
                }
            },
            None => None,
        }
    }

    /// The receipt and the debt token of a pool, and the contract after those were kept that were
    /// found.
    pub open spec fn own_tokens(self, c: NodeV, l: LedgerV, p: Pool) -> (
        NodeV,
        Option<(usize, usize)>,
    ) {
        let (c1, receipt) = known_token(c, l, self.receipt_name(p), receipt_key(p));
        if receipt is None {
            (c1, None)
        } else {
            let (c2, debt) = known_token(c1, l, self.debt_name(p), debt_key(p));
            if debt is None {
                (c2, None)
            } else {
                (c2, Some((receipt->0, debt->0)))
            }
        }
    }

    /// The debt and the receipt token of the other pool, and the contract after those were kept
    /// that were found.
    pub open spec fn other_tokens(self, c: NodeV, l: LedgerV, p: Pool) -> (
        NodeV,
        Option<(usize, usize)>,
    ) {
        let o = p.other();
        let (c1, debt) = known_token(c, l, self.debt_name(o), debt_key(o));
        if debt is None {
            (c1, None)
        } else {
            let (c2, receipt) = known_token(c1, l, self.receipt_name(o), receipt_key(o));
            if receipt is None {
                (c2, None)
            } else {
                (c2, Some((receipt->0, debt->0)))
            }
        }
    }

    /// Paying `volume` into a pool: the caller gets receipts for it. Nothing happens where the
    /// caller does not have it or would get no receipt.
    pub open spec fn deposit(
        self,
        c: NodeV,
        l: LedgerV,
        p: Pool,
        receipt: usize,
        rate: Decimal,
        caller: usize,
        volume: Decimal,
    ) -> Option<Seq<MsgV>> {
        let token = self.token(p);
        if l.balance(caller, token).val() < volume.val() {
            Some(Seq::empty())
        } else {
            let receipts = if rate.val() == 0 {
                Some(volume)
            } else {
                in_receipts(volume, rate, l.precision)
            };
            match receipts {
                Some(amount) => if amount.val() <= 0 {
                    Some(Seq::empty())
                } else {
                    Some(
                        seq![
                            transfer_msg(caller, c.core.id, token, volume),
                            MsgV::Issue { token: receipt, account_id: caller, volume: amount },
                        ],
                    )
                },
                None => None,
            }
        }
    }

    /// How much a caller can take out of a pool, asking for `asked`.
    pub open spec fn withdrawable(
        self,
        c: NodeV,
        l: LedgerV,
        p: Pool,
        receipt: usize,
        rate: Decimal,
        caller: usize,
        asked: Decimal,
    ) -> Option<Decimal> {
        let held = l.balance(caller, receipt);
        let most = if rate.val() == 0 {
            Some(held)
        } else {
            opt_truncated(decimal_product(held, rate), l.precision)
        };
        match most {
            Some(m) => Some(asked.least(m).least(c.balance(self.token(p)))),
            None => None,
        }
    }

    /// Taking `asked` out of a pool, as far as the caller's receipts and the pool allow. Nothing
    /// happens where the caller's debts would not be covered any more.
    pub open spec fn withdraw(
        self,
        c: NodeV,
        l: LedgerV,
        p: Pool,
        own: (usize, usize),
        rate: Decimal,
        caller: usize,
        asked: Decimal,
    ) -> Option<(NodeV, Seq<MsgV>)> {
        match self.withdrawable(c, l, p, own.0, rate, caller, asked) {
            Some(actual) => if actual.val() <= 0 {
                Some((c, Seq::empty()))
            } else {
                let (known, other) = self.other_tokens(c, l, p);
                match other {
                    Some(o) => {
                        let t = LendingTokens::of(p, own, o);
                        let needed = in_receipts(actual, rate, l.precision);
                        let debt = self.total_debt(l, t, caller);
                        if needed is None || debt is None {
                            None
                        } else {
                            match self.covered_after(known, l, p, t, caller, actual, needed->0) {
                                Some(true) => Some(
                                    (
                                        known,
                                        seq![
                                            MsgV::Issue {
                                                token: own.0,
                                                account_id: caller,
                                                volume: (needed->0).least(
                                                    l.balance(caller, own.0),
                                                ).negated(),
                                            },
                                            transfer_msg(
                                                known.core.id,
                                                caller,
                                                self.token(p),
                                                actual,
                                            ),
                                        ],
                                    ),
                                ),
                                Some(false) => Some((known, Seq::empty())),
                                None => None,
                            }
                        }
                    },
                    None => Some((known, Seq::empty())),
                }
            },
            None => None,
        }
    }

    /// A call of a pool's exchange: a positive volume is paid in, a negative one is taken out.
    pub open spec fn exchange(
        self,
        c: NodeV,
        l: LedgerV,
        p: Pool,
        caller: usize,
        volume: Decimal,
    ) -> Option<(NodeV, Seq<MsgV>)> {
        if volume.val() == 0 {
            Some((c, Seq::empty()))
        } else {
            let (known, own) = self.own_tokens(c, l, p);
            match own {
                Some((receipt, debt)) => {
                    let value = decimal_sum(
                        known.balance(self.token(p)),
                        shortfall(l.total_supply(debt)),
                    );
                    match receipt_rate(value, l.total_supply(receipt)) {
                        Some(rate) => if volume.val() > 0 {
                            match self.deposit(known, l, p, receipt, rate, caller, volume) {
                                Some(msgs) => Some((known, msgs)),
                                None => None,
                            }
                        } else {
                            self.withdraw(
                                known,
                                l,
                                p,
                                (receipt, debt),
                                rate,
                                caller,
                                volume.negated(),
                            )
                        },
                        None => None,
                    }
                },
                None => Some((known, Seq::empty())),
            }
        }
    }

    /// The contract's tokens in the order in which a loan looks them up, and the contract after
    /// those were kept that were found.
    pub open spec fn loan_tokens(self, c: NodeV, l: LedgerV, p: Pool) -> (
        NodeV,
        Option<LendingTokens>,
    ) {
        let o = p.other();
        let (c1, debt) = known_token(c, l, self.debt_name(p), debt_key(p));
        if debt is None {
            (c1, None)
        } else {
            let (c2, receipt_a) = known_token(c1, l, self.receipt_a_name@, KEY_RECEIPT_A);
            if receipt_a is None {
                (c2, None)
            } else {
                let (c3, receipt_b) = known_token(c2, l, self.receipt_b_name@, KEY_RECEIPT_B);
                if receipt_b is None {
                    (c3, None)
                } else {
                    let (c4, other) = known_token(c3, l, self.debt_name(o), debt_key(o));
                    if other is None {
                        (c4, None)
                    } else {
                        (
                            c4,
                            Some(
                                LendingTokens {
                                    receipt_a: receipt_a->0,
                                    receipt_b: receipt_b->0,
                                    debt_a: if p == Pool::A { debt->0 } else { other->0 },
                                    debt_b: if p == Pool::A { other->0 } else { debt->0 },
                                },
                            ),
                        )
                    }
                }
            }
        }
    }

    /// What a node would owe to both pools, were `more` borrowed from one of them, in the token of
    /// pool A.
    pub open spec fn debt_with(
        self,
        l: LedgerV,
        p: Pool,
        t: LendingTokens,
        id: usize,
        more: Decimal,
    ) -> Option<Decimal> {
        let a = shortfall(l.balance(id, t.debt_a));
        let b = shortfall(l.balance(id, t.debt_b));
        match p {
            Pool::A => opt_sum(decimal_sum(a, more), self.b_in_a(l, Some(b))),
            Pool::B => opt_sum(
                opt_sum(Some(a), self.b_in_a(l, Some(b))),
                self.b_in_a(l, Some(more)),
            ),
        }
    }

    /// Whether a node's debts would be covered, were `more` borrowed from a pool.
    pub open spec fn covered_with(
        self,
        c: NodeV,
        l: LedgerV,
        p: Pool,
        t: LendingTokens,
        id: usize,
        more: Decimal,
    ) -> Option<bool> {
        match self.debt_with(l, p, t, id, more) {
            Some(debt) => if debt.val() <= 0 {
                Some(true)
            } else {
                let collateral = opt_sum(
                    self.held_value(c, l, Pool::A, t, id),
                    self.b_in_a(l, self.held_value(c, l, Pool::B, t, id)),
                );
                match collateral {
                    Some(v) => if v.val() <= 0 {
                        Some(false)
                    } else {
                        match decimal_product(debt, self.min_collateral_ratio) {
                            Some(bound) => Some(bound.val() <= v.val()),
                            None => None,
                        }
                    },
                    None => None,
                }
            },
            None => None,
        }
    }

    /// Paying back `volume`, as far as the caller owes it. Nothing happens where the caller does
    /// not have it.
    pub open spec fn repay(
        self,
        c: NodeV,
        l: LedgerV,
        p: Pool,
        t: LendingTokens,
        caller: usize,
        volume: Decimal,
    ) -> Seq<MsgV> {
        let token = self.token(p);
        let actual = volume.least(shortfall(l.balance(caller, t.debt(p))));
        if l.balance(caller, token).val() < volume.val() || actual.val() <= 0 {
            Seq::empty()
        } else {
            seq![
                transfer_msg(caller, c.core.id, token, actual),
                MsgV::Issue { token: t.debt(p), account_id: caller, volume: actual },
            ]
        }
    }

    /// Borrowing `asked`, as far as the pool has it. Nothing happens where the caller's debts
    /// would not be covered.
    pub open spec fn borrow(
        self,
        c: NodeV,
        l: LedgerV,
        p: Pool,
        t: LendingTokens,
        caller: usize,
        asked: Decimal,
    ) -> Option<Seq<MsgV>> {
        let token = self.token(p);
        let actual = asked.least(c.balance(token));
        if actual.val() <= 0 {
            Some(Seq::empty())
        } else {
            match self.covered_with(c, l, p, t, caller, actual) {
                Some(true) => Some(
                    seq![
                        transfer_msg(c.core.id, caller, token, actual),
                        MsgV::Issue {
                            token: t.debt(p),
                            account_id: caller,
                            volume: actual.negated(),
                        },
                    ],
                ),
                Some(false) => Some(Seq::empty()),
                None => None,
            }
        }
    }

    /// A call of a pool's loans: a positive volume is paid back, a negative one is borrowed.
    pub open spec fn loan(
        self,
        c: NodeV,
        l: LedgerV,
        p: Pool,
        caller: usize,
        volume: Decimal,
    ) -> Option<(NodeV, Seq<MsgV>)> {
        if volume.val() == 0 {
            Some((c, Seq::empty()))
        } else {
            let (known, tokens) = self.loan_tokens(c, l, p);
            match tokens {
                Some(t) => if volume.val() > 0 {
                    Some((known, self.repay(known, l, p, t, caller, volume)))
                } else {
                    match self.borrow(known, l, p, t, caller, volume.negated()) {
                        Some(msgs) => Some((known, msgs)),
                        None => None,
                    }
                },
                None => Some((known, Seq::empty())),
            }
        }
    }
}

impl Pool {
    pub open spec fn other(self) -> Pool {
        match self {
            Pool::A => Pool::B,
            Pool::B => Pool::A,
        }
    }
}

pub open spec fn receipt_key(p: Pool) -> usize {
    match p {
        Pool::A => KEY_RECEIPT_A,
        Pool::B => KEY_RECEIPT_B,
    }
}

pub open spec fn debt_key(p: Pool) -> usize {
    match p {
        Pool::A => KEY_DEBT_A,
        Pool::B => KEY_DEBT_B,
    }
}

impl LendingTokens {
    pub open spec fn receipt(self, p: Pool) -> usize {
        match p {
            Pool::A => self.receipt_a,
            Pool::B => self.receipt_b,
        }
    }

    pub open spec fn debt(self, p: Pool) -> usize {
        match p {
            Pool::A => self.debt_a,
            Pool::B => self.debt_b,
        }
    }

    /// The receipts and the debt tokens of a pool and of the other one.
    pub open spec fn of(p: Pool, own: (usize, usize), other: (usize, usize)) -> LendingTokens {
        match p {
            Pool::A => LendingTokens {
                receipt_a: own.0,
                receipt_b: other.0,
                debt_a: own.1,
                debt_b: other.1,
            },
            Pool::B => LendingTokens {
                receipt_a: other.0,
                receipt_b: own.0,
                debt_a: other.1,
                debt_b: own.1,
            },
        }
    }
}

pub open spec fn transfer_msg(src_id: usize, dst_id: usize, token: usize, volume: Decimal) -> MsgV {
    MsgV::Transfer { src_id, dst_id, token, volume, allow_negative: false }
}

pub open spec fn token_msg(name: Seq<char>, can_be_negative: bool) -> MsgV {
    MsgV::RegisterToken {
        name,
        can_be_negative,
        not_tradable: false,
        virtual_anchor: None,
        swap_whitelist: Seq::empty(),
    }
}

pub open spec fn pair_msg(
    contract_slave_id: usize,
    fn_id: u8,
    quote_token: usize,
    base_token_name: Seq<char>,
    swap_only: bool,
) -> MsgV {
    MsgV::CreateVirtualPair { contract_slave_id, fn_id, quote_token, base_token_name, swap_only }
}

/// The message that takes away all that a node holds of a token, under a condition.
pub open spec fn burn_if(l: LedgerV, token: usize, acc: usize, cond: bool) -> Seq<MsgV> {
    if cond {
        seq![
            MsgV::Issue { token, account_id: acc, volume: l.balance(acc, token).negated() },
        ]
    } else {
        Seq::empty()
    }
}

impl Pool {
    fn get_other(self) -> (r: Pool)
        ensures
            r == self.other(),
    {
        match self {
            Pool::A => Pool::B,
            Pool::B => Pool::A,
        }
    }

    fn get_receipt_key(self) -> (r: usize)
        ensures
            r == receipt_key(self),
    {
        match self {
            Pool::A => KEY_RECEIPT_A,
            Pool::B => KEY_RECEIPT_B,
        }
    }

    fn get_debt_key(self) -> (r: usize)
        ensures
            r == debt_key(self),
    {
        match self {
            Pool::A => KEY_DEBT_A,
            Pool::B => KEY_DEBT_B,
        }
    }
}

impl LendingTokens {
    fn get_receipt(&self, p: Pool) -> (r: usize)
        ensures
            r == self.receipt(p),
    {
        match p {
            Pool::A => self.receipt_a,
            Pool::B => self.receipt_b,
        }
    }

    fn get_debt(&self, p: Pool) -> (r: usize)
        ensures
            r == self.debt(p),
    {
        match p {
            Pool::A => self.debt_a,
            Pool::B => self.debt_b,
        }
    }
}

/// The part of a pool's value that an amount of its receipts stands for.
fn value_of_share(value: Option<Decimal>, held: Decimal, supply: Decimal) -> (r: Option<Decimal>)
    ensures
        r == share_value(value, Some(held), supply),
{
    if supply.is_zero() {
        return Some(Decimal::zero());
    }
    value?.checked_mul(held)?.checked_div(supply)
}

/// What a receipt is worth.
fn rate_of_receipt(value: Option<Decimal>, supply: Decimal) -> (r: Option<Decimal>)
    ensures
        r == receipt_rate(value, supply),
{
    if supply.is_zero() {
        return Some(Decimal::one());
    }
    let v = value?;
    if v.is_zero() {
        return Some(Decimal::one());
    }
    v.checked_div(supply)
}

/// An amount of a token in receipts at a rate.
fn to_receipts(amount: Decimal, rate: Decimal, precision: u8) -> (r: Option<Decimal>)
    ensures
        r == in_receipts(amount, rate, precision),
{
    if rate.is_zero() {
        Some(amount.truncate(precision))
    } else {
        Some(amount.checked_div(rate)?.truncate(precision))
    }
}

/// A request to transfer.
fn transfer_of(src_id: usize, dst_id: usize, token: usize, volume: Decimal) -> (r: Msg)
    ensures
        r@ == transfer_msg(src_id, dst_id, token, volume),
{
    Msg::Transfer { src_id, dst_id, token, volume, allow_negative: false }
}

/// A request to register a token.
fn token_of(name: &String, can_be_negative: bool) -> (r: Msg)
    ensures
        r@ == token_msg(name@, can_be_negative),
{
    let swap_whitelist: Vec<usize> = Vec::new();
    assert(swap_whitelist@ =~= Seq::empty());
    Msg::RegisterToken {
        name: name.clone(),
        can_be_negative,
        not_tradable: false,
        virtual_anchor: None,
        swap_whitelist,
    }
}

/// A request to make a virtual pair.
fn pair_of(contract_slave_id: usize, fn_id: u8, quote_token: usize, name: &String, swap_only: bool) -> (r: Msg)
    ensures
        r@ == pair_msg(contract_slave_id, fn_id, quote_token, name@, swap_only),
{
    Msg::CreateVirtualPair {
        contract_slave_id,
        fn_id,
        quote_token,
        base_token_name: name.clone(),
        swap_only,
    }
}

/// Adds the message that takes away all that a node holds of a token, under a condition.
fn push_burn_if(msgs: &mut Vec<Msg>, reader: &Ledger, token: usize, acc: usize, cond: bool)
    ensures
        msgs_view(final(msgs)@) == msgs_view(old(msgs)@) + burn_if(reader@, token, acc, cond),
{
    if cond {
        let volume = reader.node_balance(acc, token).neg();
        msgs.push(Msg::Issue { token, account_id: acc, volume });
    }
    assert(msgs_view(msgs@) =~= msgs_view(old(msgs)@) + burn_if(reader@, token, acc, cond));
}

/// No messages.
fn nothing() -> (r: Vec<Msg>)
    ensures
        msgs_view(r@) == Seq::<MsgV>::empty(),
{
    let r: Vec<Msg> = Vec::new();
    assert(msgs_view(r@) =~= Seq::empty());
    r
}

/// Two messages.
fn both(a: Msg, b: Msg) -> (r: Vec<Msg>)
    ensures
        msgs_view(r@) == seq![a@, b@],
{
    let mut r: Vec<Msg> = Vec::new();
    r.push(a);
    r.push(b);
    assert(msgs_view(r@) =~= seq![a@, b@]);
    r
}

impl LendingPreset {
    /// A lending contract with two pools and the usual rates of interest.
    pub fn new_bidirectional(
        asset_token_a: usize,
        asset_token_b: usize,
        receipt_a_name: &str,
        receipt_b_name: &str,
        debt_a_name: &str,
        debt_b_name: &str,
        min_collateral_ratio: Decimal,
        liquidation_threshold: Decimal,
    ) -> (r: LendingPreset)
        ensures
            r.asset_token_a == asset_token_a,
            r.asset_token_b == asset_token_b,
            r.receipt_a_name@ == receipt_a_name@,
            r.receipt_b_name@ == receipt_b_name@,
            r.debt_a_name@ == debt_a_name@,
            r.debt_b_name@ == debt_b_name@,
            r.min_collateral_ratio == min_collateral_ratio,
            r.liquidation_threshold == liquidation_threshold,
            r.optimal_utilization == Decimal::of(8, 1),
            r.base_rate == Decimal::of(28, 8),
            r.slope1 == Decimal::of(28, 8),
            r.slope2 == Decimal::of(15, 7),
    {
        LendingPreset {
            asset_token_a,
            asset_token_b,
            receipt_a_name: receipt_a_name.to_owned(),
            receipt_b_name: receipt_b_name.to_owned(),
            debt_a_name: debt_a_name.to_owned(),
            debt_b_name: debt_b_name.to_owned(),
            min_collateral_ratio,
            liquidation_threshold,
            optimal_utilization: Decimal::new(8, 1),
            base_rate: Decimal::new(28, 8),
            slope1: Decimal::new(28, 8),
            slope2: Decimal::new(15, 7),
        }
    }

    /// The contract's program, to be deployed.
    pub fn build(&self) -> (r: LendingPreset)
        ensures
            r.asset_token_a == self.asset_token_a,
            r.asset_token_b == self.asset_token_b,
            r.receipt_a_name@ == self.receipt_a_name@,
            r.receipt_b_name@ == self.receipt_b_name@,
            r.debt_a_name@ == self.debt_a_name@,
            r.debt_b_name@ == self.debt_b_name@,
            r.min_collateral_ratio == self.min_collateral_ratio,
            r.liquidation_threshold == self.liquidation_threshold,
            r.optimal_utilization == self.optimal_utilization,
            r.base_rate == self.base_rate,
            r.slope1 == self.slope1,
            r.slope2 == self.slope2,
    {
        LendingPreset {
            asset_token_a: self.asset_token_a,
            asset_token_b: self.asset_token_b,
            receipt_a_name: self.receipt_a_name.clone(),
            receipt_b_name: self.receipt_b_name.clone(),
            debt_a_name: self.debt_a_name.clone(),
            debt_b_name: self.debt_b_name.clone(),
            min_collateral_ratio: self.min_collateral_ratio,
            liquidation_threshold: self.liquidation_threshold,
            optimal_utilization: self.optimal_utilization,
            base_rate: self.base_rate,
            slope1: self.slope1,
            slope2: self.slope2,
        }
    }

    fn get_token(&self, p: Pool) -> (r: usize)
        ensures
            r == self.token(p),
    {
        match p {
            Pool::A => self.asset_token_a,
            Pool::B => self.asset_token_b,
        }
    }

    fn get_receipt_name(&self, p: Pool) -> (r: &str)
        ensures
            r@ == self.receipt_name(p),
    {
        match p {
            Pool::A => self.receipt_a_name.as_str(),
            Pool::B => self.receipt_b_name.as_str(),
        }
    }

    fn get_debt_name(&self, p: Pool) -> (r: &str)
        ensures
            r@ == self.debt_name(p),
    {
        match p {
            Pool::A => self.debt_a_name.as_str(),
            Pool::B => self.debt_b_name.as_str(),
        }
    }

    /// The interest at a utilization. `None` where a number overflows.
    pub fn calc_rate(&self, utilization: Decimal) -> (r: Option<Decimal>)
        ensures
            r == self.rate_at(utilization),
    {
        if utilization < self.optimal_utilization {
            let rise = if self.optimal_utilization.is_zero() {
                Decimal::zero()
            } else {
                self.slope1.checked_mul(utilization)?.checked_div(self.optimal_utilization)?
            };
            self.base_rate.checked_add(rise)
        } else {
            let span = Decimal::one().checked_sub(self.optimal_utilization)?;
            let rise = if span.is_zero() {
                Decimal::zero()
            } else {
                self.slope2.checked_mul(
                    utilization.checked_sub(self.optimal_utilization)?,
                )?.checked_div(span)?
            };
            self.base_rate.checked_add(self.slope1)?.checked_add(rise)
        }
    }

    /// An amount of the token of pool B in that of pool A.
    fn convert_b(&self, reader: &Ledger, amount: Decimal) -> (r: Option<Decimal>)
        ensures
            r == self.b_in_a(reader@, Some(amount)),
    {
        reader.convert_value(self.asset_token_b, self.asset_token_a, amount)
    }

    /// What a pool is worth.
    fn value_of_pool(&self, contract: &Contract, reader: &Ledger, p: Pool, t: &LendingTokens) -> (r: Option<
        Decimal,
    >)
        ensures
            r == self.pool_value(contract@, reader@, p, *t),
    {
        let borrowed = shortfall_of(reader.token_total_supply(t.get_debt(p)));
        contract.balance(self.get_token(p)).checked_add(borrowed)
    }

    /// What the receipts of a pool that a node holds are worth.
    fn value_held(
        &self,
        contract: &Contract,
        reader: &Ledger,
        p: Pool,
        t: &LendingTokens,
        id: usize,
    ) -> (r: Option<Decimal>)
        ensures
            r == self.held_value(contract@, reader@, p, *t, id),
    {
        value_of_share(
            self.value_of_pool(contract, reader, p, t),
            reader.node_balance(id, t.get_receipt(p)),
            reader.token_total_supply(t.get_receipt(p)),
        )
    }

    /// The contract's tokens.
    fn find_tokens(&self, contract: &mut Contract, reader: &Ledger) -> (r: Option<LendingTokens>)
        ensures
            (final(contract)@, r) == self.tokens_known(old(contract)@, reader@),
    {
        let receipt_a = cached_receipt_id(
            contract,
            reader,
            self.receipt_a_name.as_str(),
            KEY_RECEIPT_A,
        )?;
        let receipt_b = cached_receipt_id(
            contract,
            reader,
            self.receipt_b_name.as_str(),
            KEY_RECEIPT_B,
        )?;
        let debt_a = cached_receipt_id(contract, reader, self.debt_a_name.as_str(), KEY_DEBT_A)?;
        let debt_b = cached_receipt_id(contract, reader, self.debt_b_name.as_str(), KEY_DEBT_B)?;
        Some(LendingTokens { receipt_a, receipt_b, debt_a, debt_b })
    }

    /// The interest of all accounts on what they owe to a pool.
    fn charge_interest(&self, reader: &Ledger, debt: usize, rate: Decimal) -> (r: Option<Vec<Msg>>)
        ensures
            ({
                let out = self.interest_msgs(reader@, debt, rate, reader@.accounts.len());
                &&& r is Some == out is Some
                &&& r is Some ==> msgs_view((r->0)@) == out->0
            }),
    {
        let accounts = reader.get_all_accounts();
        let precision = reader.precision();
        proof {
            Decimal::lemma_zero();
        }
        let mut msgs = nothing();
        let mut i: usize = 0;
        while i < accounts.len()
            invariant
                i <= accounts@.len(),
                accounts@ == reader@.accounts,
                precision == reader@.precision,
                Decimal::of(0, 0).val() == 0,
                self.interest_msgs(reader@, debt, rate, i as nat) == Some(msgs_view(msgs@)),
            decreases accounts@.len() - i,
        {
            let acc = accounts[i];
            let bal = reader.node_balance(acc, debt);
            if bal < Decimal::zero() {
                let product = bal.neg().checked_mul(rate);
                let unit = Decimal::unit(precision);
                if product.is_none() || unit.is_none() {
                    proof {
                        lemma_interest_none(*self, reader@, debt, rate, (i + 1) as nat);
                    }
                    return None;
                }
                let interest = product.unwrap().truncate(precision).max(unit.unwrap());
                if interest > Decimal::zero() {
                    let ghost before = msgs_view(msgs@);
                    msgs.push(Msg::Issue { token: debt, account_id: acc, volume: interest.neg() });
                    assert(msgs_view(msgs@) =~= before.push(
                        MsgV::Issue { token: debt, account_id: acc, volume: interest.negated() },
                    ));
                }
            }
            i = i + 1;
        }
        Some(msgs)
    }

    /// The interest that a pool charges in a frame.
    fn charge_pool(&self, contract: &Contract, reader: &Ledger, p: Pool, t: &LendingTokens) -> (r: Option<
        Vec<Msg>,
    >)
        ensures
            ({
                let out = self.pool_interest(contract@, reader@, p, *t);
                &&& r is Some == out is Some
                &&& r is Some ==> msgs_view((r->0)@) == out->0
            }),
    {
        let borrowed = shortfall_of(reader.token_total_supply(t.get_debt(p)));
        let total = self.value_of_pool(contract, reader, p, t)?;
        if total.is_zero() || borrowed.is_zero() {
            return Some(nothing());
        }
        let utilization = borrowed.checked_div(total)?;
        let rate = self.calc_rate(utilization)?;
        self.charge_interest(reader, t.get_debt(p), rate)
    }

    /// The messages by which an account is called in, none where its debts are covered.
    fn liquidate(&self, contract: &Contract, reader: &Ledger, t: &LendingTokens, acc: usize) -> (r: Option<
        Vec<Msg>,
    >)
        ensures
            ({
                let out = self.liquidation(contract@, reader@, *t, acc);
                &&& r is Some == out is Some
                &&& r is Some ==> msgs_view((r->0)@) == out->0
            }),
    {
        proof {
            Decimal::lemma_zero();
        }
        let zero = Decimal::zero();
        let owed_a = reader.node_balance(acc, t.debt_a);
        let owed_b = reader.node_balance(acc, t.debt_b);
        if owed_a >= zero && owed_b >= zero {
            return Some(nothing());
        }
        let debt_b = self.convert_b(reader, shortfall_of(owed_b))?;
        let debt = shortfall_of(owed_a).checked_add(debt_b)?;
        if debt <= zero {
            return Some(nothing());
        }
        let a = self.value_held(contract, reader, Pool::A, t, acc)?;
        let b = self.value_held(contract, reader, Pool::B, t, acc)?;
        let collateral = a.checked_add(self.convert_b(reader, b)?)?;
        if collateral <= zero {
            return Some(nothing());
        }
        let health = collateral.checked_div(debt)?;
        if health >= self.liquidation_threshold {
            return Some(nothing());
        }
        let mut msgs = nothing();
        let has_a = reader.node_balance(acc, t.receipt_a) > zero;
        let has_b = reader.node_balance(acc, t.receipt_b) > zero;
        push_burn_if(&mut msgs, reader, t.receipt_a, acc, has_a);
        push_burn_if(&mut msgs, reader, t.receipt_b, acc, has_b);
        push_burn_if(&mut msgs, reader, t.debt_a, acc, owed_a < zero);
        push_burn_if(&mut msgs, reader, t.debt_b, acc, owed_b < zero);
        assert(msgs_view(msgs@) =~= self.called_in(reader@, *t, acc));
        Some(msgs)
    }

    /// The messages by which the accounts that are not covered are called in.
    fn liquidate_all(&self, contract: &Contract, reader: &Ledger, t: &LendingTokens) -> (r: Option<
        Vec<Msg>,
    >)
        ensures
            ({
                let out = self.liquidations(contract@, reader@, *t, reader@.accounts.len());
                &&& r is Some == out is Some
                &&& r is Some ==> msgs_view((r->0)@) == out->0
            }),
    {
        let accounts = reader.get_all_accounts();
        let mut msgs = nothing();
        let mut i: usize = 0;
        while i < accounts.len()
            invariant
                i <= accounts@.len(),
                accounts@ == reader@.accounts,
                self.liquidations(contract@, reader@, *t, i as nat) == Some(msgs_view(msgs@)),
            decreases accounts@.len() - i,
        {
            match self.liquidate(contract, reader, t, accounts[i]) {
                Some(next) => {
                    let ghost before = msgs_view(msgs@);
                    let ghost added = msgs_view(next@);
                    let mut more: Vec<Msg> = next;
                    msgs.append(&mut more);
                    assert(msgs_view(msgs@) =~= before + added);
                },
                None => {
                    proof {
                        lemma_liquidations_none(*self, contract@, reader@, *t, (i + 1) as nat);
                    }
                    return None;
                },
            }
            i = i + 1;
        }
        Some(msgs)
    }

    /// Has the contract quote its prices.
    fn quote_prices(&self, contract: &mut Contract, reader: &Ledger, t: &LendingTokens) -> (r: Option<
        (),
    >)
        ensures
            ({
                let out = self.prices_quoted(old(contract)@, reader@, *t);
                &&& r is Some == out is Some
                &&& r is Some ==> final(contract)@ == out->0
            }),
    {
        let rate_a = rate_of_receipt(
            self.value_of_pool(contract, reader, Pool::A, t),
            reader.token_total_supply(t.receipt_a),
        )?;
        let rate_b = rate_of_receipt(
            self.value_of_pool(contract, reader, Pool::B, t),
            reader.token_total_supply(t.receipt_b),
        )?;
        contract.set_balance(PRICE_BASE, rate_a);
        contract.set_balance(PRICE_BASE + 1, rate_b);
        contract.set_balance(PRICE_BASE + 2, Decimal::one());
        contract.set_balance(PRICE_BASE + 3, Decimal::one());
        Some(())
    }

    /// The receipt and the debt token of a pool.
    fn find_own(&self, contract: &mut Contract, reader: &Ledger, p: Pool) -> (r: Option<
        (usize, usize),
    >)
        ensures
            (final(contract)@, r) == self.own_tokens(old(contract)@, reader@, p),
    {
        let receipt = cached_receipt_id(
            contract,
            reader,
            self.get_receipt_name(p),
            p.get_receipt_key(),
        )?;
        let debt = cached_receipt_id(contract, reader, self.get_debt_name(p), p.get_debt_key())?;
        Some((receipt, debt))
    }

    /// The receipt and the debt token of the other pool.
    fn find_other(&self, contract: &mut Contract, reader: &Ledger, p: Pool) -> (r: Option<
        (usize, usize),
    >)
        ensures
            (final(contract)@, r) == self.other_tokens(old(contract)@, reader@, p),
    {
        let o = p.get_other();
        let debt = cached_receipt_id(contract, reader, self.get_debt_name(o), o.get_debt_key())?;
        let receipt = cached_receipt_id(
            contract,
            reader,
            self.get_receipt_name(o),
            o.get_receipt_key(),
        )?;
        Some((receipt, debt))
    }

    /// What would be left of a node's receipts of a pool, were `actual` taken out.
    fn value_left(
        &self,
        contract: &Contract,
        reader: &Ledger,
        p: Pool,
        t: &LendingTokens,
        id: usize,
        actual: Decimal,
        needed: Decimal,
    ) -> (r: Option<Decimal>)
        ensures
            r == self.value_after(contract@, reader@, p, *t, id, actual, needed),
    {
        let left = reader.node_balance(id, t.get_receipt(p)).checked_sub(needed)?;
        let value = match self.value_of_pool(contract, reader, p, t) {
            Some(v) => v.checked_sub(actual),
            None => None,
        };
        value_of_share(value, left, reader.token_total_supply(t.get_receipt(p)))
    }

    /// Whether a node's debts would be covered, were `actual` taken out of a pool for `needed`
    /// receipts.
    fn is_covered_after(
        &self,
        contract: &Contract,
        reader: &Ledger,
        p: Pool,
        t: &LendingTokens,
        id: usize,
        actual: Decimal,
        needed: Decimal,
    ) -> (r: Option<bool>)
        ensures
            r == self.covered_after(contract@, reader@, p, *t, id, actual, needed),
    {
        proof {
            Decimal::lemma_zero();
        }
        let debt_b = self.convert_b(
            reader,
            shortfall_of(reader.node_balance(id, t.debt_b)),
        )?;
        let debt = shortfall_of(reader.node_balance(id, t.debt_a)).checked_add(debt_b)?;
        if debt <= Decimal::zero() {
            return Some(true);
        }
        let a = match p {
            Pool::A => self.value_left(contract, reader, p, t, id, actual, needed)?,
            Pool::B => self.value_held(contract, reader, Pool::A, t, id)?,
        };
        let b = match p {
            Pool::A => self.value_held(contract, reader, Pool::B, t, id)?,
            Pool::B => self.value_left(contract, reader, p, t, id, actual, needed)?,
        };
        let collateral = a.checked_add(self.convert_b(reader, b)?)?;
        let bound = debt.checked_mul(self.min_collateral_ratio)?;
        Some(bound <= collateral)
    }

    /// Pays `volume` into a pool.
    fn do_deposit(
        &self,
        contract: &Contract,
        reader: &Ledger,
        p: Pool,
        receipt: usize,
        rate: Decimal,
        caller: usize,
        volume: Decimal,
    ) -> (r: Option<Vec<Msg>>)
        ensures
            ({
                let out = self.deposit(contract@, reader@, p, receipt, rate, caller, volume);
                &&& r is Some == out is Some
                &&& r is Some ==> msgs_view((r->0)@) == out->0
            }),
    {
        proof {
            Decimal::lemma_zero();
        }
        let token = self.get_token(p);
        if reader.node_balance(caller, token) < volume {
            return Some(nothing());
        }
        let amount = if rate.is_zero() {
            volume
        } else {
            to_receipts(volume, rate, reader.precision())?
        };
        if amount <= Decimal::zero() {
            return Some(nothing());
        }
        Some(
            both(
                transfer_of(caller, contract.get_id(), token, volume),
                Msg::Issue { token: receipt, account_id: caller, volume: amount },
            ),
        )
    }

    /// Takes `asked` out of a pool, as far as the caller's receipts and the pool allow.
    fn do_withdraw(
        &self,
        contract: &mut Contract,
        reader: &Ledger,
        p: Pool,
        own: (usize, usize),
        rate: Decimal,
        caller: usize,
        asked: Decimal,
    ) -> (r: Option<Vec<Msg>>)
        ensures
            ({
                let out = self.withdraw(old(contract)@, reader@, p, own, rate, caller, asked);
                &&& r is Some == out is Some
                &&& r is Some ==> (final(contract)@, msgs_view((r->0)@)) == out->0
            }),
    {
        proof {
            Decimal::lemma_zero();
        }
        let token = self.get_token(p);
        let precision = reader.precision();
        let held = reader.node_balance(caller, own.0);
        let most = if rate.is_zero() {
            held
        } else {
            held.checked_mul(rate)?.truncate(precision)
        };
        let actual = asked.min(most).min(contract.balance(token));
        if actual <= Decimal::zero() {
            return Some(nothing());
        }
        let other = match self.find_other(contract, reader, p) {
            Some(o) => o,
            None => return Some(nothing()),
        };
        let t = match p {
            Pool::A => LendingTokens {
                receipt_a: own.0,
                receipt_b: other.0,
                debt_a: own.1,
                debt_b: other.1,
            },
            Pool::B => LendingTokens {
                receipt_a: other.0,
                receipt_b: own.0,
                debt_a: other.1,
                debt_b: own.1,
            },
        };
        let needed = to_receipts(actual, rate, precision)?;
        if !self.is_covered_after(contract, reader, p, &t, caller, actual, needed)? {
            return Some(nothing());
        }
        let burnt = needed.min(held).neg();
        Some(
            both(
                Msg::Issue { token: own.0, account_id: caller, volume: burnt },
                transfer_of(contract.get_id(), caller, token, actual),
            ),
        )
    }

    /// A call of a pool's exchange.
    fn do_exchange(
        &self,
        contract: &mut Contract,
        reader: &Ledger,
        p: Pool,
        caller: usize,
        volume: Decimal,
    ) -> (r: Option<Vec<Msg>>)
        ensures
            ({
                let out = self.exchange(old(contract)@, reader@, p, caller, volume);
                &&& r is Some == out is Some
                &&& r is Some ==> (final(contract)@, msgs_view((r->0)@)) == out->0
            }),
    {
        proof {
            Decimal::lemma_zero();
        }
        if volume.is_zero() {
            return Some(nothing());
        }
        let own = match self.find_own(contract, reader, p) {
            Some(o) => o,
            None => return Some(nothing()),
        };
        let borrowed = shortfall_of(reader.token_total_supply(own.1));
        let value = contract.balance(self.get_token(p)).checked_add(borrowed);
        let rate = rate_of_receipt(value, reader.token_total_supply(own.0))?;
        if volume > Decimal::zero() {
            self.do_deposit(contract, reader, p, own.0, rate, caller, volume)
        } else {
            self.do_withdraw(contract, reader, p, own, rate, caller, volume.neg())
        }
    }

    /// The contract's tokens, as a loan looks them up.
    fn find_loan_tokens(&self, contract: &mut Contract, reader: &Ledger, p: Pool) -> (r: Option<
        LendingTokens,
    >)
        ensures
            (final(contract)@, r) == self.loan_tokens(old(contract)@, reader@, p),
    {
        let o = p.get_other();
        let debt = cached_receipt_id(contract, reader, self.get_debt_name(p), p.get_debt_key())?;
        let receipt_a = cached_receipt_id(
            contract,
            reader,
            self.receipt_a_name.as_str(),
            KEY_RECEIPT_A,
        )?;
        let receipt_b = cached_receipt_id(
            contract,
            reader,
            self.receipt_b_name.as_str(),
            KEY_RECEIPT_B,
        )?;
        let other = cached_receipt_id(contract, reader, self.get_debt_name(o), o.get_debt_key())?;
        let (debt_a, debt_b) = match p {
            Pool::A => (debt, other),
            Pool::B => (other, debt),
        };
        Some(LendingTokens { receipt_a, receipt_b, debt_a, debt_b })
    }

    /// Whether a node's debts would be covered, were `more` borrowed from a pool.
    fn is_covered_with(
        &self,
        contract: &Contract,
        reader: &Ledger,
        p: Pool,
        t: &LendingTokens,
        id: usize,
        more: Decimal,
    ) -> (r: Option<bool>)
        ensures
            r == self.covered_with(contract@, reader@, p, *t, id, more),
    {
        proof {
            Decimal::lemma_zero();
        }
        let owed_a = shortfall_of(reader.node_balance(id, t.debt_a));
        let owed_b = self.convert_b(reader, shortfall_of(reader.node_balance(id, t.debt_b)))?;
        let debt = match p {
            Pool::A => owed_a.checked_add(more)?.checked_add(owed_b)?,
            Pool::B => owed_a.checked_add(owed_b)?.checked_add(self.convert_b(reader, more)?)?,
        };
        if debt <= Decimal::zero() {
            return Some(true);
        }
        let a = self.value_held(contract, reader, Pool::A, t, id)?;
        let b = self.value_held(contract, reader, Pool::B, t, id)?;
        let collateral = a.checked_add(self.convert_b(reader, b)?)?;
        if collateral <= Decimal::zero() {
            return Some(false);
        }
        let bound = debt.checked_mul(self.min_collateral_ratio)?;
        Some(bound <= collateral)
    }

    /// A call of a pool's loans.
    fn do_loan(
        &self,
        contract: &mut Contract,
        reader: &Ledger,
        p: Pool,
        caller: usize,
        volume: Decimal,
    ) -> (r: Option<Vec<Msg>>)
        ensures
            ({
                let out = self.loan(old(contract)@, reader@, p, caller, volume);
                &&& r is Some == out is Some
                &&& r is Some ==> (final(contract)@, msgs_view((r->0)@)) == out->0
            }),
    {
        proof {
            Decimal::lemma_zero();
        }
        if volume.is_zero() {
            return Some(nothing());
        }
        let t = match self.find_loan_tokens(contract, reader, p) {
            Some(t) => t,
            None => return Some(nothing()),
        };
        let token = self.get_token(p);
        if volume > Decimal::zero() {
            let owed = shortfall_of(reader.node_balance(caller, t.get_debt(p)));
            let actual = volume.min(owed);
            if reader.node_balance(caller, token) < volume || actual <= Decimal::zero() {
                return Some(nothing());
            }
            Some(
                both(
                    transfer_of(caller, contract.get_id(), token, actual),
                    Msg::Issue { token: t.get_debt(p), account_id: caller, volume: actual },
                ),
            )
        } else {
            let actual = volume.neg().min(contract.balance(token));
            if actual <= Decimal::zero() {
                return Some(nothing());
            }
            if !self.is_covered_with(contract, reader, p, &t, caller, actual)? {
                return Some(nothing());
            }
            Some(
                both(
                    transfer_of(contract.get_id(), caller, token, actual),
                    Msg::Issue { token: t.get_debt(p), account_id: caller, volume: actual.neg() },
                ),
            )
        }
    }
}

/// Where the interest of some accounts overflows, that of more does.
proof fn lemma_interest_none(p: LendingPreset, l: LedgerV, debt: usize, rate: Decimal, k: nat)
    requires
        k <= l.accounts.len(),
        p.interest_msgs(l, debt, rate, k) is None,
    ensures
        p.interest_msgs(l, debt, rate, l.accounts.len()) is None,
    decreases l.accounts.len() - k,
{
    if k < l.accounts.len() {
        lemma_interest_none(p, l, debt, rate, k + 1);
    }
}

/// Where calling in some accounts overflows, calling in more does.
proof fn lemma_liquidations_none(p: LendingPreset, c: NodeV, l: LedgerV, t: LendingTokens, k: nat)
    requires
        k <= l.accounts.len(),
        p.liquidations(c, l, t, k) is None,
    ensures
        p.liquidations(c, l, t, l.accounts.len()) is None,
    decreases l.accounts.len() - k,
{
    if k < l.accounts.len() {
        lemma_liquidations_none(p, c, l, t, k + 1);
    }
}

impl ContractLogic for LendingPreset {
    open spec fn created(&self, c: NodeV, l: LedgerV, step: u64) -> Option<(NodeV, Seq<MsgV>)> {
        Some((c, self.creation_msgs(c.core.id)))
    }

    open spec fn updated(&self, c: NodeV, l: LedgerV, step: u64) -> Option<(NodeV, Seq<MsgV>)> {
        self.frame(c, l)
    }

    open spec fn ended(&self, c: NodeV, l: LedgerV, step: u64) -> Option<(NodeV, Seq<MsgV>)> {
        Some((c, Seq::empty()))
    }

    open spec fn called(
        &self,
        c: NodeV,
        l: LedgerV,
        fn_id: u8,
        caller: usize,
        volume: Decimal,
    ) -> Option<(NodeV, Seq<MsgV>)> {
        if fn_id == 0 {
            self.exchange(c, l, Pool::A, caller, volume)
        } else if fn_id == 1 {
            self.exchange(c, l, Pool::B, caller, volume)
        } else if fn_id == 2 {
            self.loan(c, l, Pool::A, caller, volume)
        } else if fn_id == 3 {
            self.loan(c, l, Pool::B, caller, volume)
        } else {
            Some((c, Seq::empty()))
        }
    }

    fn on_create(&self, contract: &mut Contract, _reader: &Ledger, _step_count: u64) -> (r: Option<
        Vec<Msg>,
    >) {
        let id = contract.get_id();
        let mut msgs: Vec<Msg> = Vec::new();
        msgs.push(token_of(&self.receipt_a_name, false));
        msgs.push(token_of(&self.receipt_b_name, false));
        msgs.push(token_of(&self.debt_a_name, true));
        msgs.push(token_of(&self.debt_b_name, true));
        msgs.push(pair_of(id, 0, self.asset_token_a, &self.receipt_a_name, false));
        msgs.push(pair_of(id, 1, self.asset_token_b, &self.receipt_b_name, false));
        msgs.push(pair_of(id, 2, self.asset_token_a, &self.debt_a_name, true));
        msgs.push(pair_of(id, 3, self.asset_token_b, &self.debt_b_name, true));
        assert(msgs_view(msgs@) =~= self.creation_msgs(id));
        Some(msgs)
    }

    fn on_update(&self, contract: &mut Contract, reader: &Ledger, _step_count: u64) -> (r: Option<
        Vec<Msg>,
    >) {
        let t = match self.find_tokens(contract, reader) {
            Some(t) => t,
            None => return Some(nothing()),
        };
        let mut msgs = self.charge_pool(contract, reader, Pool::A, &t)?;
        let mut interest_b = self.charge_pool(contract, reader, Pool::B, &t)?;
        let mut called = self.liquidate_all(contract, reader, &t)?;
        let ghost a = msgs_view(msgs@);
        let ghost b = msgs_view(interest_b@);
        let ghost c = msgs_view(called@);
        msgs.append(&mut interest_b);
        msgs.append(&mut called);
        assert(msgs_view(msgs@) =~= a + b + c);
        self.quote_prices(contract, reader, &t)?;
        Some(msgs)
    }

    fn on_end(&self, _contract: &mut Contract, _reader: &Ledger, _step_count: u64) -> (r: Option<
        Vec<Msg>,
    >) {
        Some(nothing())
    }

    fn on_called(
        &self,
        contract: &mut Contract,
        reader: &Ledger,
        fn_id: u8,
        caller_id: usize,
        volume: Decimal,
    ) -> (r: Option<Vec<Msg>>) {
        if fn_id == 0 {
            self.do_exchange(contract, reader, Pool::A, caller_id, volume)
        } else if fn_id == 1 {
            self.do_exchange(contract, reader, Pool::B, caller_id, volume)
        } else if fn_id == 2 {
            self.do_loan(contract, reader, Pool::A, caller_id, volume)
        } else if fn_id == 3 {
            self.do_loan(contract, reader, Pool::B, caller_id, volume)
        } else {
            Some(nothing())
        }
    }
}

} // verus!
