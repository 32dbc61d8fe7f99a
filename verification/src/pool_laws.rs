//! What the lending contract gives and takes: receipts at the worth of a pool, loans against
//! collateral, and interest.

use crate::contract::ContractLogic;
use crate::contract_presets::{
    LendingPreset, LendingTokens, Pool, KEY_DEBT_A, KEY_DEBT_B, KEY_RECEIPT_A, KEY_RECEIPT_B,
};
use crate::decimal::{
    decimal_difference, decimal_product, decimal_quotient, decimal_sum, Decimal, MAX_SCALE,
};
use crate::ledger_model::LedgerV;
use crate::node::{MsgV, NodeV};
use crate::number_laws::{
    above_zero, lemma_cut_by_less, product_over, product_under, quotient_over, quotient_under,
    sum_off,
};
use crate::rpte_model::PRICE_BASE;
use vstd::prelude::*;

verus! {

/// Whether a number is another one but for at most `over` more or `under` less.
pub open spec fn near(x: int, y: int, over: int, under: int) -> bool {
    y - under <= x <= y + over
}

/// The amount that a number below zero stands for.
pub open spec fn owed(v: Decimal) -> Decimal {
    if v.val() < 0 {
        v.negated()
    } else {
        Decimal::of(0, 0)
    }
}

/// Whether a pool that holds `cash` and whose debt token has this supply is worth `v`: what it
/// holds and what is owed to it.
pub open spec fn worth(cash: Decimal, debts: Decimal, v: Decimal) -> bool {
    let off = sum_off(cash, owed(debts));
    near(v.val(), cash.val() + above_zero(-debts.val()), off, off)
}

/// Whether a receipt of a pool that is worth `v` is worth `rate`: all receipts together are worth
/// what the pool is. The first receipts are worth one.
pub open spec fn rate_for(v: Decimal, supply: Decimal, rate: Decimal) -> bool {
    let one = Decimal::step(0);
    if supply.val() == 0 || v.val() == 0 {
        rate.val() == one
    } else {
        near(
            rate.val() * supply.val(),
            v.val() * one,
            quotient_over(v, supply),
            quotient_under(v, supply),
        )
    }
}

/// Whether a pool is worth `v` and a receipt of it `rate`. What it is worth does not matter while
/// there are no receipts.
pub open spec fn rate_of_pool(
    cash: Decimal,
    debts: Decimal,
    supply: Decimal,
    v: Decimal,
    rate: Decimal,
) -> bool {
    &&& supply.val() != 0 ==> worth(cash, debts, v)
    &&& rate_for(v, supply, rate)
}

/// Whether an amount is worth `receipts` at a rate, but for less than one unit.
pub open spec fn converts_to(amount: Decimal, rate: Decimal, receipts: int, unit: int) -> bool {
    let one = Decimal::step(0);
    &&& receipts * rate.val() <= amount.val() * one + quotient_over(amount, rate)
    &&& (receipts + unit) * rate.val() > amount.val() * one - quotient_under(amount, rate)
}

/// Whether receipts are worth `amount` at a rate, but for less than one unit.
pub open spec fn redeems_for(receipts: Decimal, rate: Decimal, amount: int, unit: int) -> bool {
    let one = Decimal::step(0);
    &&& amount * one <= receipts.val() * rate.val() + product_over(receipts, rate)
    &&& (amount + unit) * one > receipts.val() * rate.val() - product_under(receipts, rate)
}

/// Whether a token is the one that a contract keeps under a key or, where it keeps none, the one of
/// a name.
pub open spec fn kept_or_named(
    c: NodeV,
    l: LedgerV,
    name: Seq<char>,
    key: usize,
    id: usize,
) -> bool {
    if c.balance(key).val() > 0 {
        c.balance(key).whole() matches Some(w) && w as usize == id
    } else {
        l.token_by_name(name) == Some(id)
    }
}

/// Whether a token is that of a pool's receipts.
pub open spec fn is_receipt(p: LendingPreset, c: NodeV, l: LedgerV, pool: Pool, id: usize) -> bool {
    match pool {
        Pool::A => kept_or_named(c, l, p.receipt_a_name@, KEY_RECEIPT_A, id),
        Pool::B => kept_or_named(c, l, p.receipt_b_name@, KEY_RECEIPT_B, id),
    }
}

/// Whether a token is that of the debts to a pool.
pub open spec fn is_debt(p: LendingPreset, c: NodeV, l: LedgerV, pool: Pool, id: usize) -> bool {
    match pool {
        Pool::A => kept_or_named(c, l, p.debt_a_name@, KEY_DEBT_A, id),
        Pool::B => kept_or_named(c, l, p.debt_b_name@, KEY_DEBT_B, id),
    }
}

/// The token that a pool lends.
pub open spec fn lent(p: LendingPreset, pool: Pool) -> usize {
    match pool {
        Pool::A => p.asset_token_a,
        Pool::B => p.asset_token_b,
    }
}

/// Whether the numbers that a call of the contract works with are ones that can be held.
pub open spec fn held_numbers(c: NodeV, l: LedgerV) -> bool {
    &&& l.precision <= MAX_SCALE
    &&& forall|t: usize| (#[trigger] c.balance(t)).valid()
    &&& forall|id: usize, t: usize| (#[trigger] l.balance(id, t)).valid()
    &&& forall|t: usize| (#[trigger] l.total_supply(t)).valid()
}

/// The function of a pool's receipts.
pub open spec fn receipt_fn(pool: Pool) -> u8 {
    match pool {
        Pool::A => 0,
        Pool::B => 1,
    }
}

/// The function of a pool's loans.
pub open spec fn loan_fn(pool: Pool) -> u8 {
    match pool {
        Pool::A => 2,
        Pool::B => 3,
    }
}

/// What a deposit comes to: the caller pays all of it in and gets what it is worth in receipts, at
/// a rate at which all receipts are worth the pool. Nothing happens only where the caller has less,
/// or where it is worth less than one unit of receipts.
pub open spec fn deposited(
    c: NodeV,
    l: LedgerV,
    token: usize,
    receipt: usize,
    debt: usize,
    caller: usize,
    volume: Decimal,
    msgs: Seq<MsgV>,
    v: Decimal,
    rate: Decimal,
) -> bool {
    let unit = Decimal::step(l.precision as nat);
    &&& rate_of_pool(c.balance(token), l.total_supply(debt), l.total_supply(receipt), v, rate)
    &&& if msgs.len() == 0 {
        l.balance(caller, token).val() < volume.val() || (rate.val() != 0 && unit * rate.val()
            > volume.val() * Decimal::step(0) - quotient_under(volume, rate)) || rate.val() < 0
    } else {
        &&& msgs.len() == 2
        &&& l.balance(caller, token).val() >= volume.val()
        &&& msgs[0] == (MsgV::Transfer {
            src_id: caller,
            dst_id: c.core.id,
            token,
            volume,
            allow_negative: false,
        })
        &&& msgs[1] matches MsgV::Issue { token: issued, account_id, volume: receipts } && issued
            == receipt && account_id == caller && receipts.val() > 0 && if rate.val() == 0 {
            receipts.val() == volume.val()
        } else {
            converts_to(volume, rate, receipts.val(), unit)
        }
    }
}

/// Paying into a pool gives receipts at the rate at which all receipts together are worth the pool:
/// what it holds and what is owed to it. So what accounts owe more makes a receipt worth more.
pub proof fn law_deposit_at_the_worth(
    p: LendingPreset,
    c: NodeV,
    l: LedgerV,
    pool: Pool,
    caller: usize,
    volume: Decimal,
    receipt: usize,
    debt: usize,
)
    requires
        held_numbers(c, l),
        volume.valid(),
        volume.val() > 0,
        is_receipt(p, c, l, pool, receipt),
        is_debt(p, c, l, pool, debt),
        p.called(c, l, receipt_fn(pool), caller, volume) is Some,
    ensures
        ({
            let (n, msgs) = p.called(c, l, receipt_fn(pool), caller, volume)->0;
            exists|v: Decimal, rate: Decimal| #[trigger]
                deposited(n, l, lent(p, pool), receipt, debt, caller, volume, msgs, v, rate)
        }),
{
    let (n, msgs) = p.called(c, l, receipt_fn(pool), caller, volume)->0;
    let (known, own) = p.own_tokens(c, l, pool);
    assert(n == known && own == Some((receipt, debt)));
    let cash = known.balance(lent(p, pool));
    let supply = l.total_supply(receipt);
    let total = decimal_sum(cash, crate::contract_presets::shortfall(l.total_supply(debt)));
    let v = total->0;
    let rate = crate::contract_presets::receipt_rate(total, supply)->0;
    lemma_pool_rate(cash, l.total_supply(debt), supply);
    let amount = decimal_quotient(volume, rate);
    volume.lemma_quotient(rate);
    if rate.val() != 0 && amount is Some {
        lemma_converted(volume, rate, l.precision);
    }
    assert(deposited(n, l, lent(p, pool), receipt, debt, caller, volume, msgs, v, rate));
}

/// A pool is worth what it holds and what is owed to it.
proof fn lemma_worth(cash: Decimal, debts: Decimal)
    requires
        debts.valid(),
        decimal_sum(cash, crate::contract_presets::shortfall(debts)) is Some,
    ensures
        worth(cash, debts, decimal_sum(cash, crate::contract_presets::shortfall(debts))->0),
{
    Decimal::lemma_zero();
    debts.lemma_negated();
}

/// A rate is the quotient of the worth and the supply.
proof fn lemma_pool_rate(cash: Decimal, debts: Decimal, supply: Decimal)
    requires
        debts.valid(),
        crate::contract_presets::receipt_rate(
            decimal_sum(cash, crate::contract_presets::shortfall(debts)),
            supply,
        ) is Some,
    ensures
        ({
            let total = decimal_sum(cash, crate::contract_presets::shortfall(debts));
            rate_of_pool(
                cash,
                debts,
                supply,
                total->0,
                crate::contract_presets::receipt_rate(total, supply)->0,
            )
        }),
{
    Decimal::lemma_of(1, 0);
    assert(1 * Decimal::step(0) == Decimal::step(0)) by (nonlinear_arith);
    if supply.val() != 0 {
        lemma_worth(cash, debts);
    }
}

/// A quotient that is cut off converts an amount, but for less than one unit.
proof fn lemma_converted(amount: Decimal, rate: Decimal, precision: u8)
    requires
        precision <= MAX_SCALE,
        amount.val() > 0,
        rate.val() != 0,
        decimal_quotient(amount, rate) is Some,
    ensures
        ({
            let q = (decimal_quotient(amount, rate)->0).truncated(precision as nat);
            &&& rate.val() > 0 ==> q.val() >= 0 && converts_to(
                amount,
                rate,
                q.val(),
                Decimal::step(precision as nat),
            )
            &&& rate.val() < 0 ==> q.val() <= 0
        }),
{
    let v = decimal_quotient(amount, rate)->0;
    amount.lemma_quotient(rate);
    lemma_cut_by_less(v, precision);
    let q = v.truncated(precision as nat);
    let (a, r) = (amount.val(), rate.val());
    let u = Decimal::step(precision as nat);
    if r > 0 {
        assert(a * r > 0) by (nonlinear_arith)
            requires
                a > 0,
                r > 0,
        ;
        let x = v.val();
        let y = q.val();
        assert(y * r <= x * r && (y + u) * r > x * r) by (nonlinear_arith)
            requires
                r > 0,
                y <= x < y + u,
        ;
    } else {
        assert(a * r < 0) by (nonlinear_arith)
            requires
                a > 0,
                r < 0,
        ;
    }
}

/// The more a pool is worth, the more a receipt of it is, where the numbers are not off by as much
/// as that.
pub proof fn law_worth_raises_the_rate(
    v: Decimal,
    more: Decimal,
    supply: Decimal,
    rate: Decimal,
    next: Decimal,
)
    requires
        supply.val() > 0,
        v.val() != 0,
        more.val() != 0,
        rate_for(v, supply, rate),
        rate_for(more, supply, next),
        (more.val() - v.val()) * Decimal::step(0) > quotient_over(v, supply) + quotient_under(
            more,
            supply,
        ),
    ensures
        next.val() > rate.val(),
{
    let (a, b, x) = (rate.val(), next.val(), supply.val());
    let w = Decimal::step(0);
    let (y, z) = (v.val(), more.val());
    assert((z - y) * w == z * w - y * w) by (nonlinear_arith);
    assert(b > a) by (nonlinear_arith)
        requires
            x > 0,
            b * x > a * x,
    ;
}

/// The tokens of a contract.
pub open spec fn are_tokens(p: LendingPreset, c: NodeV, l: LedgerV, t: LendingTokens) -> bool {
    &&& is_receipt(p, c, l, Pool::A, t.receipt_a)
    &&& is_receipt(p, c, l, Pool::B, t.receipt_b)
    &&& is_debt(p, c, l, Pool::A, t.debt_a)
    &&& is_debt(p, c, l, Pool::B, t.debt_b)
}

/// The receipts of a pool.
pub open spec fn receipt_of(t: LendingTokens, pool: Pool) -> usize {
    match pool {
        Pool::A => t.receipt_a,
        Pool::B => t.receipt_b,
    }
}

/// The debt token of a pool.
pub open spec fn debt_of(t: LendingTokens, pool: Pool) -> usize {
    match pool {
        Pool::A => t.debt_a,
        Pool::B => t.debt_b,
    }
}

/// Whether `held` of all receipts of something that is worth `v` are worth `x`: as much of it as
/// they are of all receipts.
pub open spec fn share_is(v: Decimal, held: Decimal, supply: Decimal, x: Decimal) -> bool {
    if supply.val() == 0 {
        x.val() == 0
    } else {
        decimal_product(v, held) matches Some(m) && near(
            x.val() * supply.val(),
            m.val() * Decimal::step(0),
            quotient_over(m, supply),
            quotient_under(m, supply),
        )
    }
}

/// Whether the receipts of a pool that a node holds are worth `x`, the pool being worth `v`.
pub open spec fn holds_worth(
    p: LendingPreset,
    c: NodeV,
    l: LedgerV,
    t: LendingTokens,
    pool: Pool,
    id: usize,
    v: Decimal,
    x: Decimal,
) -> bool {
    let supply = l.total_supply(receipt_of(t, pool));
    &&& supply.val() != 0 ==> worth(c.balance(lent(p, pool)), l.total_supply(debt_of(t, pool)), v)
    &&& share_is(v, l.balance(id, receipt_of(t, pool)), supply, x)
}

/// Whether the receipts of a pool that a node holds would be worth `x`, were `actual` taken out for
/// `needed` of them: the pool and what the node holds are less by that.
pub open spec fn would_hold_worth(
    p: LendingPreset,
    c: NodeV,
    l: LedgerV,
    t: LendingTokens,
    pool: Pool,
    id: usize,
    actual: Decimal,
    needed: Decimal,
    v: Decimal,
    x: Decimal,
) -> bool {
    let supply = l.total_supply(receipt_of(t, pool));
    let held = l.balance(id, receipt_of(t, pool));
    &&& supply.val() != 0 ==> worth(c.balance(lent(p, pool)), l.total_supply(debt_of(t, pool)), v)
    &&& decimal_difference(held, needed) matches Some(rest) && if supply.val() == 0 {
        x.val() == 0
    } else {
        decimal_difference(v, actual) matches Some(less) && share_is(less, rest, supply, x)
    }
}

/// Whether two amounts, the second in the token of pool B, are `d` in the token of pool A.
pub open spec fn together(p: LendingPreset, l: LedgerV, a: Decimal, b: Decimal, d: Decimal) -> bool {
    l.converted(p.asset_token_b, p.asset_token_a, b) matches Some(y) && near(
        d.val(),
        a.val() + y.val(),
        sum_off(a, y),
        sum_off(a, y),
    )
}

/// Whether a node owes `d` to both pools, in the token of pool A.
pub open spec fn owes(p: LendingPreset, l: LedgerV, t: LendingTokens, id: usize, d: Decimal) -> bool {
    together(p, l, owed(l.balance(id, t.debt_a)), owed(l.balance(id, t.debt_b)), d)
}

/// Whether a node would owe `d` to both pools with `more` from one of them, `s` being what it owes
/// without the last part of it.
pub open spec fn would_owe(
    p: LendingPreset,
    l: LedgerV,
    t: LendingTokens,
    pool: Pool,
    id: usize,
    more: Decimal,
    s: Decimal,
    d: Decimal,
) -> bool {
    let a = owed(l.balance(id, t.debt_a));
    let b = owed(l.balance(id, t.debt_b));
    match pool {
        Pool::A => near(s.val(), a.val() + more.val(), sum_off(a, more), sum_off(a, more))
            && together(p, l, s, b, d),
        Pool::B => together(p, l, a, b, s) && together(p, l, s, more, d),
    }
}

/// Whether collateral of `k` is enough for a debt of `d` at a ratio.
pub open spec fn enough(k: Decimal, d: Decimal, ratio: Decimal) -> bool {
    k.val() * Decimal::step(0) >= d.val() * ratio.val() - product_under(d, ratio)
}

/// Whether collateral of `k` is not enough for a debt of `d` at a ratio.
pub open spec fn too_little(k: Decimal, d: Decimal, ratio: Decimal) -> bool {
    k.val() * Decimal::step(0) < d.val() * ratio.val() + product_over(d, ratio)
}

/// The numbers that a decision on collateral rests on: what the pools are worth, what the receipts
/// of each are worth, both together, and the debt.
pub struct Position {
    pub value_a: Decimal,
    pub value_b: Decimal,
    pub share_a: Decimal,
    pub share_b: Decimal,
    pub collateral: Decimal,
    pub before: Decimal,
    pub debt: Decimal,
}

/// Whether a position is that of a node with its receipts of both pools.
pub open spec fn stakes(
    p: LendingPreset,
    c: NodeV,
    l: LedgerV,
    t: LendingTokens,
    id: usize,
    x: Position,
) -> bool {
    &&& holds_worth(p, c, l, t, Pool::A, id, x.value_a, x.share_a)
    &&& holds_worth(p, c, l, t, Pool::B, id, x.value_b, x.share_b)
    &&& together(p, l, x.share_a, x.share_b, x.collateral)
}

/// Whether a position is that of a node with its receipts of both pools, were `actual` taken out of
/// one of them for `needed` receipts.
pub open spec fn would_stake(
    p: LendingPreset,
    c: NodeV,
    l: LedgerV,
    t: LendingTokens,
    pool: Pool,
    id: usize,
    actual: Decimal,
    needed: Decimal,
    x: Position,
) -> bool {
    &&& match pool {
        Pool::A => would_hold_worth(
            p,
            c,
            l,
            t,
            Pool::A,
            id,
            actual,
            needed,
            x.value_a,
            x.share_a,
        ) && holds_worth(p, c, l, t, Pool::B, id, x.value_b, x.share_b),
        Pool::B => would_hold_worth(
            p,
            c,
            l,
            t,
            Pool::B,
            id,
            actual,
            needed,
            x.value_b,
            x.share_b,
        ) && holds_worth(p, c, l, t, Pool::A, id, x.value_a, x.share_a),
    }
    &&& together(p, l, x.share_a, x.share_b, x.collateral)
}

/// What taking out of a pool comes to. The caller gets all that they asked for, that their receipts
/// are worth and that the pool holds, whichever is least, and gives the receipts that it is worth,
/// at a rate at which all receipts are worth the pool. Nothing happens only where that is nothing,
/// or where what is left would be too little for what the caller owes.
pub open spec fn withdrawn(
    p: LendingPreset,
    c: NodeV,
    l: LedgerV,
    t: LendingTokens,
    pool: Pool,
    caller: usize,
    asked: int,
    msgs: Seq<MsgV>,
    rate: Decimal,
    v: Decimal,
    actual: Decimal,
    needed: Decimal,
    x: Position,
) -> bool {
    let unit = Decimal::step(l.precision as nat);
    let one = Decimal::step(0);
    let held = l.balance(caller, receipt_of(t, pool));
    let cash = c.balance(lent(p, pool));
    &&& rate_of_pool(
        cash,
        l.total_supply(debt_of(t, pool)),
        l.total_supply(receipt_of(t, pool)),
        v,
        rate,
    )
    &&& actual.val() <= asked && actual.val() <= cash.val()
    &&& if rate.val() == 0 {
        &&& actual.val() <= held.val()
        &&& actual.val() == asked || actual.val() == cash.val() || actual.val() == held.val()
    } else if rate.val() > 0 && held.val() >= 0 {
        &&& actual.val() * one <= held.val() * rate.val() + product_over(held, rate)
        &&& actual.val() == asked || actual.val() == cash.val() || redeems_for(
            held,
            rate,
            actual.val(),
            unit,
        )
    } else {
        true
    }
    &&& if msgs.len() == 0 {
        actual.val() <= 0 || (owes(p, l, t, caller, x.debt) && x.debt.val() > 0 && would_stake(
            p,
            c,
            l,
            t,
            pool,
            caller,
            actual,
            needed,
            x,
        ) && too_little(x.collateral, x.debt, p.min_collateral_ratio))
    } else {
        &&& msgs.len() == 2
        &&& actual.val() > 0
        &&& rate.val() > 0 ==> converts_to(actual, rate, needed.val(), unit)
        &&& msgs[0] matches MsgV::Issue { token, account_id, volume } && token == receipt_of(
            t,
            pool,
        ) && account_id == caller && volume.val() == -(if needed.val() < held.val() {
            needed.val()
        } else {
            held.val()
        })
        &&& msgs[1] == (MsgV::Transfer {
            src_id: c.core.id,
            dst_id: caller,
            token: lent(p, pool),
            volume: actual,
            allow_negative: false,
        })
        &&& owes(p, l, t, caller, x.debt)
        &&& x.debt.val() > 0 ==> would_stake(p, c, l, t, pool, caller, actual, needed, x) && enough(
            x.collateral,
            x.debt,
            p.min_collateral_ratio,
        )
    }
}

proof fn lemma_owed(v: Decimal)
    requires
        v.valid(),
    ensures
        owed(v) == crate::contract_presets::shortfall(v),
        owed(v).val() == above_zero(-v.val()),
        owed(v).valid(),
{
    Decimal::lemma_zero();
    Decimal::lemma_of(0, 0);
    v.lemma_negated();
}

/// What a node holds of a pool.
proof fn lemma_holds_worth(
    p: LendingPreset,
    c: NodeV,
    l: LedgerV,
    t: LendingTokens,
    pool: Pool,
    id: usize,
)
    requires
        held_numbers(c, l),
        p.held_value(c, l, pool, t, id) is Some,
    ensures
        holds_worth(
            p,
            c,
            l,
            t,
            pool,
            id,
            p.pool_value(c, l, pool, t)->0,
            p.held_value(c, l, pool, t, id)->0,
        ),
{
    Decimal::lemma_zero();
    if l.total_supply(receipt_of(t, pool)).val() != 0 {
        lemma_worth(c.balance(lent(p, pool)), l.total_supply(debt_of(t, pool)));
    }
}

proof fn lemma_would_hold_worth(
    p: LendingPreset,
    c: NodeV,
    l: LedgerV,
    t: LendingTokens,
    pool: Pool,
    id: usize,
    actual: Decimal,
    needed: Decimal,
)
    requires
        held_numbers(c, l),
        p.value_after(c, l, pool, t, id, actual, needed) is Some,
    ensures
        would_hold_worth(
            p,
            c,
            l,
            t,
            pool,
            id,
            actual,
            needed,
            p.pool_value(c, l, pool, t)->0,
            p.value_after(c, l, pool, t, id, actual, needed)->0,
        ),
{
    Decimal::lemma_zero();
    if l.total_supply(receipt_of(t, pool)).val() != 0 {
        lemma_worth(c.balance(lent(p, pool)), l.total_supply(debt_of(t, pool)));
    }
}

/// Values compare like their products with one.
proof fn lemma_in_products(a: Decimal, b: Decimal)
    ensures
        a.val() >= b.val() <==> a.val() * Decimal::step(0) >= b.val() * Decimal::step(0),
{
    let w = Decimal::step(0);
    Decimal::lemma_steps(0, 0);
    let (x, y) = (a.val(), b.val());
    assert(x >= y <==> x * w >= y * w) by (nonlinear_arith)
        requires
            w > 0,
    ;
}

/// What the decision on a withdrawal rests on.
proof fn lemma_covered_after(
    p: LendingPreset,
    c: NodeV,
    l: LedgerV,
    t: LendingTokens,
    pool: Pool,
    id: usize,
    actual: Decimal,
    needed: Decimal,
) -> (x: Position)
    requires
        held_numbers(c, l),
        p.covered_after(c, l, pool, t, id, actual, needed) is Some,
    ensures
        owes(p, l, t, id, x.debt),
        x.debt.val() > 0 ==> would_stake(p, c, l, t, pool, id, actual, needed, x),
        p.covered_after(c, l, pool, t, id, actual, needed) == Some(true) ==> x.debt.val() > 0
            ==> enough(x.collateral, x.debt, p.min_collateral_ratio),
        p.covered_after(c, l, pool, t, id, actual, needed) == Some(false) ==> x.debt.val() > 0
            && too_little(x.collateral, x.debt, p.min_collateral_ratio),
{
    lemma_owed(l.balance(id, t.debt_a));
    lemma_owed(l.balance(id, t.debt_b));
    let debt = p.total_debt(l, t, id)->0;
    let a = match pool {
        Pool::A => p.value_after(c, l, pool, t, id, actual, needed),
        Pool::B => p.held_value(c, l, Pool::A, t, id),
    };
    let b = match pool {
        Pool::A => p.held_value(c, l, Pool::B, t, id),
        Pool::B => p.value_after(c, l, pool, t, id, actual, needed),
    };
    let x = Position {
        value_a: p.pool_value(c, l, Pool::A, t)->0,
        value_b: p.pool_value(c, l, Pool::B, t)->0,
        share_a: a->0,
        share_b: b->0,
        collateral: crate::decimal::opt_sum(a, p.b_in_a(l, b))->0,
        before: debt,
        debt,
    };
    if debt.val() > 0 {
        lemma_would_hold_worth(p, c, l, t, pool, id, actual, needed);
        lemma_holds_worth(p, c, l, t, pool.other(), id);
        lemma_in_products(x.collateral, decimal_product(debt, p.min_collateral_ratio)->0);
    }
    x
}

/// Taking out of a pool gives what receipts are worth, at the rate at which all receipts together
/// are worth the pool, as long as what is left is enough for what the caller owes.
pub proof fn law_withdrawal_at_the_worth(
    p: LendingPreset,
    c: NodeV,
    l: LedgerV,
    pool: Pool,
    caller: usize,
    volume: Decimal,
    t: LendingTokens,
)
    requires
        held_numbers(c, l),
        volume.valid(),
        volume.val() < 0,
        are_tokens(p, c, l, t),
        p.asset_token_a < KEY_DEBT_B,
        p.asset_token_b < KEY_DEBT_B,
        p.called(c, l, receipt_fn(pool), caller, volume) is Some,
    ensures
        ({
            let (n, msgs) = p.called(c, l, receipt_fn(pool), caller, volume)->0;
            exists|rate: Decimal, v: Decimal, actual: Decimal, needed: Decimal, x: Position|
                #[trigger]
                withdrawn(
                    p,
                    n,
                    l,
                    t,
                    pool,
                    caller,
                    -volume.val(),
                    msgs,
                    rate,
                    v,
                    actual,
                    needed,
                    x,
                )
        }),
{
    let (n, msgs) = p.called(c, l, receipt_fn(pool), caller, volume)->0;
    let (k0, own) = p.own_tokens(c, l, pool);
    let receipt = receipt_of(t, pool);
    let debt = debt_of(t, pool);
    lemma_tokens_of_pool(p, c, l, t, pool);
    let asked = volume.negated();
    volume.lemma_negated();
    let cash = k0.balance(lent(p, pool));
    let supply = l.total_supply(receipt);
    let total = decimal_sum(cash, crate::contract_presets::shortfall(l.total_supply(debt)));
    let v = total->0;
    let rate = crate::contract_presets::receipt_rate(total, supply)->0;
    lemma_pool_rate(cash, l.total_supply(debt), supply);
    let held = l.balance(caller, receipt);
    let actual = p.withdrawable(k0, l, pool, receipt, rate, caller, asked)->0;
    if rate.val() != 0 {
        lemma_redeemed(held, rate, l.precision);
        let most = (decimal_product(held, rate)->0).truncated(l.precision as nat);
        lemma_in_products(most, actual);
    }
    let needed = crate::contract_presets::in_receipts(actual, rate, l.precision)->0;
    if actual.val() > 0 {
        assert(n == p.other_tokens(k0, l, pool).0);
        if rate.val() > 0 {
            lemma_converted(actual, rate, l.precision);
        }
        let x = lemma_covered_after(p, n, l, t, pool, caller, actual, needed);
        assert(needed.valid()) by {
            actual.lemma_quotient(rate);
            if rate.val() == 0 {
                lemma_cut_by_less(actual, l.precision);
            } else {
                lemma_cut_by_less((decimal_quotient(actual, rate)->0), l.precision);
            }
        }
        needed.least(held).lemma_negated();
        assert(withdrawn(
            p,
            n,
            l,
            t,
            pool,
            caller,
            -volume.val(),
            msgs,
            rate,
            v,
            actual,
            needed,
            x,
        ));
    } else {
        let x: Position = arbitrary();
        assert(withdrawn(
            p,
            n,
            l,
            t,
            pool,
            caller,
            -volume.val(),
            msgs,
            rate,
            v,
            actual,
            needed,
            x,
        ));
    }
}

/// What receipts are worth, cut off, but for less than one unit.
proof fn lemma_redeemed(held: Decimal, rate: Decimal, precision: u8)
    requires
        precision <= MAX_SCALE,
        rate.val() != 0,
        decimal_product(held, rate) is Some,
    ensures
        (decimal_product(held, rate)->0).truncated(precision as nat).valid(),
        rate.val() > 0 && held.val() >= 0 ==> redeems_for(
            held,
            rate,
            (decimal_product(held, rate)->0).truncated(precision as nat).val(),
            Decimal::step(precision as nat),
        ),
{
    let m = decimal_product(held, rate)->0;
    held.lemma_product(rate);
    lemma_cut_by_less(m, precision);
    let (h, r) = (held.val(), rate.val());
    let x = m.val();
    let y = m.truncated(precision as nat).val();
    let u = Decimal::step(precision as nat);
    let w = Decimal::step(0);
    if r > 0 && h >= 0 {
        assert(h * r >= 0) by (nonlinear_arith)
            requires
                r > 0,
                h >= 0,
        ;
        assert(y * w <= x * w && (y + u) * w > x * w) by (nonlinear_arith)
            requires
                w > 0,
                y <= x < y + u,
        ;
    }
}

/// The tokens that a call looks up are those of its pool and of the other one. Keeping them changes
/// nothing else of the contract.
proof fn lemma_tokens_of_pool(
    p: LendingPreset,
    c: NodeV,
    l: LedgerV,
    t: LendingTokens,
    pool: Pool,
)
    requires
        held_numbers(c, l),
        are_tokens(p, c, l, t),
        p.asset_token_a < KEY_DEBT_B,
        p.asset_token_b < KEY_DEBT_B,
    ensures
        ({
            let (k0, own) = p.own_tokens(c, l, pool);
            let (n, other) = p.other_tokens(k0, l, pool);
            let (m, all) = p.loan_tokens(c, l, pool);
            &&& own == Some((receipt_of(t, pool), debt_of(t, pool)))
            &&& other == Some((receipt_of(t, pool.other()), debt_of(t, pool.other())))
            &&& all == Some(t)
            &&& LendingTokens::of(pool, own->0, other->0) == t
            &&& held_numbers(k0, l) && held_numbers(n, l) && held_numbers(m, l)
            &&& n.core.id == c.core.id && k0.core.id == c.core.id && m.core.id == c.core.id
            &&& n.balance(p.asset_token_a) == k0.balance(p.asset_token_a)
            &&& n.balance(p.asset_token_b) == k0.balance(p.asset_token_b)
        }),
{
    let o = pool.other();
    lemma_kept(c, l, p.receipt_name(pool), crate::contract_presets::receipt_key(pool));
    let c1 = crate::contract_presets::known_token(
        c,
        l,
        p.receipt_name(pool),
        crate::contract_presets::receipt_key(pool),
    ).0;
    lemma_kept(c1, l, p.debt_name(pool), crate::contract_presets::debt_key(pool));
    let k0 = p.own_tokens(c, l, pool).0;
    lemma_kept(k0, l, p.debt_name(o), crate::contract_presets::debt_key(o));
    let c2 = crate::contract_presets::known_token(
        k0,
        l,
        p.debt_name(o),
        crate::contract_presets::debt_key(o),
    ).0;
    lemma_kept(c2, l, p.receipt_name(o), crate::contract_presets::receipt_key(o));
    lemma_kept(c, l, p.debt_name(pool), crate::contract_presets::debt_key(pool));
    let d1 = crate::contract_presets::known_token(
        c,
        l,
        p.debt_name(pool),
        crate::contract_presets::debt_key(pool),
    ).0;
    lemma_kept(d1, l, p.receipt_a_name@, KEY_RECEIPT_A);
    let d2 = crate::contract_presets::known_token(d1, l, p.receipt_a_name@, KEY_RECEIPT_A).0;
    lemma_kept(d2, l, p.receipt_b_name@, KEY_RECEIPT_B);
    let d3 = crate::contract_presets::known_token(d2, l, p.receipt_b_name@, KEY_RECEIPT_B).0;
    lemma_kept(d3, l, p.debt_name(o), crate::contract_presets::debt_key(o));
}

/// Keeping a token changes nothing else of the contract.
proof fn lemma_kept(c: NodeV, l: LedgerV, name: Seq<char>, key: usize)
    requires
        held_numbers(c, l),
    ensures
        ({
            let (n, found) = crate::contract_presets::known_token(c, l, name, key);
            &&& held_numbers(n, l)
            &&& n.core.id == c.core.id
            &&& forall|k: usize| k != key ==> #[trigger] n.balance(k) == c.balance(k)
            &&& forall|id: usize| #[trigger]
                kept_or_named(c, l, name, key, id) <==> found == Some(id)
        }),
{
    let (n, found) = crate::contract_presets::known_token(c, l, name, key);
    assert forall|k: usize| k != key implies #[trigger] n.balance(k) == c.balance(k) by {}
    assert forall|k: usize| (#[trigger] n.balance(k)).valid() by {
        if k != key {
            assert(n.balance(k) == c.balance(k));
        } else if n != c {
            let id = l.token_by_name(name)->0;
            Decimal::lemma_of((id as i64) as int, 0);
            assert(n.balance(key) == Decimal::of((id as i64) as int, 0));
        } else {
            assert(c.balance(k).valid());
        }
    }
}

// ---- loans ----

/// What a loan comes to. The caller gets all that they asked for or that the pool holds, whichever
/// is less, and owes as much more. Nothing happens only where that is nothing, or where the
/// caller's receipts of both pools would be too little for what they would owe to both.
pub open spec fn borrowed(
    p: LendingPreset,
    c: NodeV,
    l: LedgerV,
    t: LendingTokens,
    pool: Pool,
    caller: usize,
    asked: int,
    msgs: Seq<MsgV>,
    amount: Decimal,
    x: Position,
) -> bool {
    let cash = c.balance(lent(p, pool));
    &&& amount.val() == if asked < cash.val() {
        asked
    } else {
        cash.val()
    }
    &&& if msgs.len() == 0 {
        amount.val() <= 0 || (would_owe(p, l, t, pool, caller, amount, x.before, x.debt)
            && x.debt.val() > 0 && stakes(p, c, l, t, caller, x) && (x.collateral.val() <= 0
            || too_little(x.collateral, x.debt, p.min_collateral_ratio)))
    } else {
        &&& msgs.len() == 2
        &&& amount.val() > 0
        &&& msgs[0] == (MsgV::Transfer {
            src_id: c.core.id,
            dst_id: caller,
            token: lent(p, pool),
            volume: amount,
            allow_negative: false,
        })
        &&& msgs[1] matches MsgV::Issue { token, account_id, volume } && token == debt_of(t, pool)
            && account_id == caller && volume.val() == -amount.val()
        &&& would_owe(p, l, t, pool, caller, amount, x.before, x.debt)
        &&& x.debt.val() > 0 ==> stakes(p, c, l, t, caller, x) && x.collateral.val() > 0 && enough(
            x.collateral,
            x.debt,
            p.min_collateral_ratio,
        )
    }
}

/// A loan is given in full, as far as the pool has it, where the caller's receipts of both pools
/// are enough for what they then owe to both, and not otherwise.
pub proof fn law_loan_against_collateral(
    p: LendingPreset,
    c: NodeV,
    l: LedgerV,
    pool: Pool,
    caller: usize,
    volume: Decimal,
    t: LendingTokens,
)
    requires
        held_numbers(c, l),
        volume.valid(),
        volume.val() < 0,
        are_tokens(p, c, l, t),
        p.asset_token_a < KEY_DEBT_B,
        p.asset_token_b < KEY_DEBT_B,
        p.called(c, l, loan_fn(pool), caller, volume) is Some,
    ensures
        ({
            let (n, msgs) = p.called(c, l, loan_fn(pool), caller, volume)->0;
            exists|amount: Decimal, x: Position| #[trigger]
                borrowed(p, n, l, t, pool, caller, -volume.val(), msgs, amount, x)
        }),
{
    let (n, msgs) = p.called(c, l, loan_fn(pool), caller, volume)->0;
    lemma_tokens_of_pool(p, c, l, t, pool);
    let asked = volume.negated();
    volume.lemma_negated();
    let amount = asked.least(n.balance(lent(p, pool)));
    assert(amount.valid());
    amount.lemma_negated();
    assert(p.borrow(n, l, pool, t, caller, asked) == Some(msgs));
    let x = if amount.val() > 0 {
        lemma_covered_with(p, n, l, t, pool, caller, amount)
    } else {
        arbitrary()
    };
    assert(borrowed(p, n, l, t, pool, caller, -volume.val(), msgs, amount, x));
}

/// What the decision on a loan rests on.
proof fn lemma_covered_with(
    p: LendingPreset,
    c: NodeV,
    l: LedgerV,
    t: LendingTokens,
    pool: Pool,
    id: usize,
    amount: Decimal,
) -> (x: Position)
    requires
        held_numbers(c, l),
        p.covered_with(c, l, pool, t, id, amount) is Some,
    ensures
        would_owe(p, l, t, pool, id, amount, x.before, x.debt),
        x.debt.val() > 0 ==> stakes(p, c, l, t, id, x),
        p.covered_with(c, l, pool, t, id, amount) == Some(true) ==> x.debt.val() > 0
            ==> x.collateral.val() > 0 && enough(x.collateral, x.debt, p.min_collateral_ratio),
        p.covered_with(c, l, pool, t, id, amount) == Some(false) ==> x.debt.val() > 0 && (
        x.collateral.val() <= 0 || too_little(x.collateral, x.debt, p.min_collateral_ratio)),
{
    let a = owed(l.balance(id, t.debt_a));
    lemma_owed(l.balance(id, t.debt_a));
    lemma_owed(l.balance(id, t.debt_b));
    let debt = p.debt_with(l, pool, t, id, amount)->0;
    let x = Position {
        value_a: p.pool_value(c, l, Pool::A, t)->0,
        value_b: p.pool_value(c, l, Pool::B, t)->0,
        share_a: p.held_value(c, l, Pool::A, t, id)->0,
        share_b: p.held_value(c, l, Pool::B, t, id)->0,
        collateral: p.collateral(c, l, t, id)->0,
        before: match pool {
            Pool::A => decimal_sum(a, amount)->0,
            Pool::B => p.total_debt(l, t, id)->0,
        },
        debt,
    };
    if debt.val() > 0 {
        lemma_holds_worth(p, c, l, t, Pool::A, id);
        lemma_holds_worth(p, c, l, t, Pool::B, id);
        lemma_in_products(x.collateral, decimal_product(debt, p.min_collateral_ratio)->0);
    }
    x
}

/// What is paid back is all that the caller offers or all that they owe to the pool, whichever is
/// less, and makes them owe as much less. Nothing happens only where the caller has less than they
/// offer, or owes nothing.
pub proof fn law_repayment(
    p: LendingPreset,
    c: NodeV,
    l: LedgerV,
    pool: Pool,
    caller: usize,
    volume: Decimal,
    t: LendingTokens,
)
    requires
        held_numbers(c, l),
        volume.valid(),
        volume.val() > 0,
        are_tokens(p, c, l, t),
        p.asset_token_a < KEY_DEBT_B,
        p.asset_token_b < KEY_DEBT_B,
    ensures
        p.called(c, l, loan_fn(pool), caller, volume) is Some,
        ({
            let (n, msgs) = p.called(c, l, loan_fn(pool), caller, volume)->0;
            let due = -l.balance(caller, debt_of(t, pool)).val();
            if l.balance(caller, lent(p, pool)).val() < volume.val() || due <= 0 {
                msgs.len() == 0
            } else {
                &&& msgs.len() == 2
                &&& msgs[0] matches MsgV::Transfer {
                    src_id,
                    dst_id,
                    token,
                    volume: paid,
                    allow_negative,
                } && src_id == caller && dst_id == c.core.id && token == lent(p, pool)
                    && !allow_negative && paid.val() == if volume.val() < due {
                    volume.val()
                } else {
                    due
                }
                &&& msgs[1] matches MsgV::Issue { token, account_id, volume: less } && token
                    == debt_of(t, pool) && account_id == caller && less.val() == if volume.val()
                    < due {
                    volume.val()
                } else {
                    due
                }
            }
        }),
{
    lemma_tokens_of_pool(p, c, l, t, pool);
    lemma_owed(l.balance(caller, debt_of(t, pool)));
}

// ---- frames ----

/// Whether the interest that is charged at a utilization is `rate`, having risen by `rise`: from
/// the base rate in a straight line to the first slope more at the optimal utilization, and from
/// there in a straight line to the second slope more at full utilization.
pub open spec fn interest_at(
    p: LendingPreset,
    utilization: Decimal,
    rise: Decimal,
    rate: Decimal,
) -> bool {
    let one = Decimal::step(0);
    let best = p.optimal_utilization;
    if utilization.val() < best.val() {
        &&& if best.val() == 0 {
            rise.val() == 0
        } else {
            decimal_product(p.slope1, utilization) matches Some(m) && near(
                rise.val() * best.val(),
                m.val() * one,
                quotient_over(m, best),
                quotient_under(m, best),
            )
        }
        &&& near(
            rate.val(),
            p.base_rate.val() + rise.val(),
            sum_off(p.base_rate, rise),
            sum_off(p.base_rate, rise),
        )
    } else {
        &&& decimal_difference(Decimal::of(1, 0), best) matches Some(span) && if span.val() == 0 {
            rise.val() == 0
        } else {
            decimal_difference(utilization, best) matches Some(past) && decimal_product(
                p.slope2,
                past,
            ) matches Some(m) && near(
                rise.val() * span.val(),
                m.val() * one,
                quotient_over(m, span),
                quotient_under(m, span),
            )
        }
        &&& decimal_sum(p.base_rate, p.slope1) matches Some(knee) && near(
            knee.val(),
            p.base_rate.val() + p.slope1.val(),
            sum_off(p.base_rate, p.slope1),
            sum_off(p.base_rate, p.slope1),
        ) && near(rate.val(), knee.val() + rise.val(), sum_off(knee, rise), sum_off(knee, rise))
    }
}

/// Interest rises in two straight lines that meet at the optimal utilization.
pub proof fn law_interest_rate(p: LendingPreset, utilization: Decimal)
    requires
        p.rate_at(utilization) is Some,
    ensures
        exists|rise: Decimal| #[trigger]
            interest_at(p, utilization, rise, p.rate_at(utilization)->0),
{
    Decimal::lemma_zero();
    let best = p.optimal_utilization;
    let rise = if utilization.val() < best.val() {
        if best.val() == 0 {
            Decimal::of(0, 0)
        } else {
            decimal_quotient(decimal_product(p.slope1, utilization)->0, best)->0
        }
    } else {
        let span = decimal_difference(Decimal::of(1, 0), best)->0;
        if span.val() == 0 {
            Decimal::of(0, 0)
        } else {
            let past = decimal_difference(utilization, best)->0;
            decimal_quotient(decimal_product(p.slope2, past)->0, span)->0
        }
    };
    assert(interest_at(p, utilization, rise, p.rate_at(utilization)->0));
}

/// The accounts that owe a token.
pub open spec fn debtors(l: LedgerV, debt: usize) -> Seq<usize> {
    l.accounts.filter(|id: usize| l.balance(id, debt).val() < 0)
}

/// Whether a message makes an account owe the interest of what it owes at a rate, cut off, but at
/// least one unit.
pub open spec fn charges(l: LedgerV, debt: usize, rate: Decimal, id: usize, m: MsgV) -> bool {
    let unit = Decimal::step(l.precision as nat);
    let one = Decimal::step(0);
    let due = l.balance(id, debt).negated();
    m matches MsgV::Issue { token, account_id, volume } && token == debt && account_id == id
        && -volume.val() >= unit && (-volume.val() == unit || -volume.val() * one <= due.val()
        * rate.val() + product_over(due, rate)) && (-volume.val() + unit) * one > due.val()
        * rate.val() - product_under(due, rate)
}

/// Whether messages charge all debtors of a pool, one after the other.
pub open spec fn charges_all(l: LedgerV, debt: usize, rate: Decimal, msgs: Seq<MsgV>) -> bool {
    &&& msgs.len() == debtors(l, debt).len()
    &&& forall|i: int|
        0 <= i < msgs.len() ==> charges(l, debt, rate, debtors(l, debt)[i], #[trigger] msgs[i])
}

/// What interest a pool charges: where nothing is lent, none; otherwise that of its utilization, to
/// all debtors.
pub open spec fn interest_charged(
    p: LendingPreset,
    c: NodeV,
    l: LedgerV,
    t: LendingTokens,
    pool: Pool,
    msgs: Seq<MsgV>,
    v: Decimal,
    utilization: Decimal,
    rise: Decimal,
    rate: Decimal,
) -> bool {
    let debts = l.total_supply(debt_of(t, pool));
    &&& worth(c.balance(lent(p, pool)), debts, v)
    &&& if debts.val() >= 0 || v.val() == 0 {
        msgs.len() == 0
    } else {
        &&& near(
            utilization.val() * v.val(),
            -debts.val() * Decimal::step(0),
            quotient_over(debts.negated(), v),
            quotient_under(debts.negated(), v),
        )
        &&& interest_at(p, utilization, rise, rate)
        &&& charges_all(l, debt_of(t, pool), rate, msgs)
    }
}

proof fn lemma_interest_of(p: LendingPreset, c: NodeV, l: LedgerV, t: LendingTokens, pool: Pool)
    requires
        held_numbers(c, l),
        p.pool_interest(c, l, pool, t) is Some,
    ensures
        exists|v: Decimal, utilization: Decimal, rise: Decimal, rate: Decimal| #[trigger]
            interest_charged(
                p,
                c,
                l,
                t,
                pool,
                p.pool_interest(c, l, pool, t)->0,
                v,
                utilization,
                rise,
                rate,
            ),
{
    let debts = l.total_supply(debt_of(t, pool));
    let msgs = p.pool_interest(c, l, pool, t)->0;
    lemma_owed(debts);
    lemma_worth(c.balance(lent(p, pool)), debts);
    let v = p.pool_value(c, l, pool, t)->0;
    if debts.val() >= 0 || v.val() == 0 {
        let (a, b, d) = (arbitrary(), arbitrary(), arbitrary());
        assert(interest_charged(p, c, l, t, pool, msgs, v, a, b, d));
    } else {
        let utilization = decimal_quotient(owed(debts), v)->0;
        let rate = p.rate_at(utilization)->0;
        law_interest_rate(p, utilization);
        let rise = choose|rise: Decimal| #[trigger] interest_at(p, utilization, rise, rate);
        lemma_charges_all(p, l, debt_of(t, pool), rate, l.accounts.len());
        assert(l.accounts.take(l.accounts.len() as int) =~= l.accounts);
        assert(interest_charged(p, c, l, t, pool, msgs, v, utilization, rise, rate));
    }
}

proof fn lemma_charges_all(p: LendingPreset, l: LedgerV, debt: usize, rate: Decimal, k: nat)
    requires
        l.precision <= MAX_SCALE,
        forall|id: usize, t: usize| (#[trigger] l.balance(id, t)).valid(),
        k <= l.accounts.len(),
        p.interest_msgs(l, debt, rate, k) is Some,
    ensures
        ({
            let msgs = p.interest_msgs(l, debt, rate, k)->0;
            let ids = l.accounts.take(k as int).filter(
                |id: usize| l.balance(id, debt).val() < 0,
            );
            &&& msgs.len() == ids.len()
            &&& forall|i: int|
                0 <= i < msgs.len() ==> charges(l, debt, rate, ids[i], #[trigger] msgs[i])
        }),
    decreases k,
{
    reveal(Seq::filter);
    let f = |id: usize| l.balance(id, debt).val() < 0;
    if k > 0 {
        lemma_charges_all(p, l, debt, rate, (k - 1) as nat);
        assert(l.accounts.take(k as int).drop_last() =~= l.accounts.take(k - 1));
        let acc = l.accounts[k - 1];
        assert(l.accounts.take(k as int).last() == acc);
        let bal = l.balance(acc, debt);
        let ids = l.accounts.take(k - 1).filter(f);
        if bal.val() < 0 {
            let due = bal.negated();
            bal.lemma_negated();
            let m = decimal_product(due, rate)->0;
            due.lemma_product(rate);
            lemma_cut_by_less(m, l.precision);
            let cut = m.truncated(l.precision as nat);
            let unit = Decimal::of(1, l.precision as nat);
            Decimal::lemma_of(1, l.precision as nat);
            let u = Decimal::step(l.precision as nat);
            assert(1 * u == u) by (nonlinear_arith);
            let interest = cut.greatest(unit);
            interest.lemma_negated();
            let w = Decimal::step(0);
            let (x, y, z) = (m.val(), cut.val(), interest.val());
            assert(z * w <= x * w || z == u) by (nonlinear_arith)
                requires
                    w > 0,
                    z == u || (z == y && (y <= x || y <= 0)),
                    z >= u,
                    u > 0,
            ;
            assert((z + u) * w > x * w) by (nonlinear_arith)
                requires
                    w > 0,
                    z >= y,
                    x < y + u,
            ;
        }
    } else {
        assert(l.accounts.take(0).filter(f) =~= Seq::<usize>::empty());
    }
}

/// Whether a message takes away all that an account holds of a token.
pub open spec fn takes_all(l: LedgerV, id: usize, token: usize, m: MsgV) -> bool {
    m matches MsgV::Issue { token: issued, account_id, volume } && issued == token && account_id
        == id && volume.val() == -l.balance(id, token).val()
}

/// Whether a message takes away all that an account holds of one of four tokens.
pub open spec fn takes_all_of_one(l: LedgerV, t: LendingTokens, id: usize, m: MsgV) -> bool {
    ||| takes_all(l, id, t.receipt_a, m)
    ||| takes_all(l, id, t.receipt_b, m)
    ||| takes_all(l, id, t.debt_a, m)
    ||| takes_all(l, id, t.debt_b, m)
}

/// Whether messages take away all that an account holds of a token, where it is to be.
pub open spec fn taken(l: LedgerV, id: usize, token: usize, due: bool, msgs: Seq<MsgV>) -> bool {
    due ==> exists|i: int| 0 <= i < msgs.len() && #[trigger] takes_all(l, id, token, msgs[i])
}

/// What becomes of an account in a frame. One that owes more than its receipts cover at the
/// threshold loses all its receipts of both pools and all its debts to both; nothing happens to any
/// other one, nor to one that has no collateral at all.
pub open spec fn called_in_or_not(
    p: LendingPreset,
    c: NodeV,
    l: LedgerV,
    t: LendingTokens,
    id: usize,
    msgs: Seq<MsgV>,
    x: Position,
) -> bool {
    let one = Decimal::step(0);
    let in_debt = l.balance(id, t.debt_a).val() < 0 || l.balance(id, t.debt_b).val() < 0;
    if msgs.len() == 0 {
        ||| !in_debt
        ||| owes(p, l, t, id, x.debt) && x.debt.val() <= 0
        ||| owes(p, l, t, id, x.debt) && stakes(p, c, l, t, id, x) && (x.collateral.val() <= 0
            || x.collateral.val() * one >= p.liquidation_threshold.val() * x.debt.val()
            - quotient_over(x.collateral, x.debt))
    } else {
        &&& in_debt
        &&& owes(p, l, t, id, x.debt) && x.debt.val() > 0
        &&& stakes(p, c, l, t, id, x) && x.collateral.val() > 0
        &&& x.collateral.val() * one < p.liquidation_threshold.val() * x.debt.val()
            + quotient_under(x.collateral, x.debt)
        &&& taken(l, id, t.receipt_a, l.balance(id, t.receipt_a).val() > 0, msgs)
        &&& taken(l, id, t.receipt_b, l.balance(id, t.receipt_b).val() > 0, msgs)
        &&& taken(l, id, t.debt_a, l.balance(id, t.debt_a).val() < 0, msgs)
        &&& taken(l, id, t.debt_b, l.balance(id, t.debt_b).val() < 0, msgs)
        &&& forall|i: int| 0 <= i < msgs.len() ==> takes_all_of_one(l, t, id, #[trigger] msgs[i])
    }
}

proof fn lemma_liquidation(
    p: LendingPreset,
    c: NodeV,
    l: LedgerV,
    t: LendingTokens,
    id: usize,
) -> (x: Position)
    requires
        held_numbers(c, l),
        p.liquidation(c, l, t, id) is Some,
    ensures
        called_in_or_not(p, c, l, t, id, p.liquidation(c, l, t, id)->0, x),
{
    lemma_owed(l.balance(id, t.debt_a));
    lemma_owed(l.balance(id, t.debt_b));
    let x = Position {
        value_a: p.pool_value(c, l, Pool::A, t)->0,
        value_b: p.pool_value(c, l, Pool::B, t)->0,
        share_a: p.held_value(c, l, Pool::A, t, id)->0,
        share_b: p.held_value(c, l, Pool::B, t, id)->0,
        collateral: p.collateral(c, l, t, id)->0,
        before: p.total_debt(l, t, id)->0,
        debt: p.total_debt(l, t, id)->0,
    };
    let in_debt = l.balance(id, t.debt_a).val() < 0 || l.balance(id, t.debt_b).val() < 0;
    if in_debt && x.debt.val() > 0 {
        lemma_holds_worth(p, c, l, t, Pool::A, id);
        lemma_holds_worth(p, c, l, t, Pool::B, id);
        if x.collateral.val() > 0 {
            let health = decimal_quotient(x.collateral, x.debt)->0;
            let (h, d, r) = (health.val(), x.debt.val(), p.liquidation_threshold.val());
            assert(h >= r ==> h * d >= r * d) by (nonlinear_arith)
                requires
                    d > 0,
            ;
            assert(h < r ==> h * d < r * d) by (nonlinear_arith)
                requires
                    d > 0,
            ;
            if h < r {
                lemma_called_in(p, l, t, id);
            }
        }
    }
    x
}

proof fn lemma_called_in(p: LendingPreset, l: LedgerV, t: LendingTokens, id: usize)
    requires
        forall|id: usize, t: usize| (#[trigger] l.balance(id, t)).valid(),
    ensures
        ({
            let msgs = p.called_in(l, t, id);
            &&& taken(l, id, t.receipt_a, l.balance(id, t.receipt_a).val() > 0, msgs)
            &&& taken(l, id, t.receipt_b, l.balance(id, t.receipt_b).val() > 0, msgs)
            &&& taken(l, id, t.debt_a, l.balance(id, t.debt_a).val() < 0, msgs)
            &&& taken(l, id, t.debt_b, l.balance(id, t.debt_b).val() < 0, msgs)
            &&& forall|i: int|
                0 <= i < msgs.len() ==> takes_all_of_one(l, t, id, #[trigger] msgs[i])
        }),
{
    let msgs = p.called_in(l, t, id);
    l.balance(id, t.receipt_a).lemma_negated();
    l.balance(id, t.receipt_b).lemma_negated();
    l.balance(id, t.debt_a).lemma_negated();
    l.balance(id, t.debt_b).lemma_negated();
    let a: int = if l.balance(id, t.receipt_a).val() > 0 {
        1
    } else {
        0
    };
    let b: int = if l.balance(id, t.receipt_b).val() > 0 {
        1
    } else {
        0
    };
    let d: int = if l.balance(id, t.debt_a).val() < 0 {
        1
    } else {
        0
    };
    if l.balance(id, t.receipt_a).val() > 0 {
        assert(takes_all(l, id, t.receipt_a, msgs[0]));
    }
    if l.balance(id, t.receipt_b).val() > 0 {
        assert(takes_all(l, id, t.receipt_b, msgs[a]));
    }
    if l.balance(id, t.debt_a).val() < 0 {
        assert(takes_all(l, id, t.debt_a, msgs[a + b]));
    }
    if l.balance(id, t.debt_b).val() < 0 {
        assert(takes_all(l, id, t.debt_b, msgs[a + b + d]));
    }
}

/// Pieces put after each other.
pub open spec fn joined(pieces: Seq<Seq<MsgV>>) -> Seq<MsgV>
    decreases pieces.len(),
{
    if pieces.len() == 0 {
        Seq::empty()
    } else {
        joined(pieces.drop_last()) + pieces.last()
    }
}

/// Whether messages are those by which accounts are called in, piece by piece, one piece for each
/// of the first accounts.
pub open spec fn calls_in(
    p: LendingPreset,
    c: NodeV,
    l: LedgerV,
    t: LendingTokens,
    msgs: Seq<MsgV>,
    pieces: Seq<Seq<MsgV>>,
    xs: Seq<Position>,
) -> bool {
    &&& pieces.len() == xs.len()
    &&& msgs == joined(pieces)
    &&& forall|i: int|
        0 <= i < pieces.len() ==> called_in_or_not(
            p,
            c,
            l,
            t,
            l.accounts[i],
            #[trigger] pieces[i],
            xs[i],
        )
}

proof fn lemma_calls_in(p: LendingPreset, c: NodeV, l: LedgerV, t: LendingTokens, k: nat) -> (r: (
    Seq<Seq<MsgV>>,
    Seq<Position>,
))
    requires
        held_numbers(c, l),
        k <= l.accounts.len(),
        p.liquidations(c, l, t, k) is Some,
    ensures
        r.0.len() == k,
        calls_in(p, c, l, t, p.liquidations(c, l, t, k)->0, r.0, r.1),
    decreases k,
{
    if k == 0 {
        (Seq::empty(), Seq::empty())
    } else {
        let (pieces, xs) = lemma_calls_in(p, c, l, t, (k - 1) as nat);
        let id = l.accounts[k - 1];
        let x = lemma_liquidation(p, c, l, t, id);
        let next = p.liquidation(c, l, t, id)->0;
        assert(pieces.push(next).drop_last() =~= pieces);
        (pieces.push(next), xs.push(x))
    }
}

/// Whether a contract quotes the worth of the receipts of a pool for the function of the receipts.
pub open spec fn quotes(
    p: LendingPreset,
    c: NodeV,
    l: LedgerV,
    t: LendingTokens,
    pool: Pool,
    price: Decimal,
    v: Decimal,
) -> bool {
    rate_of_pool(
        c.balance(lent(p, pool)),
        l.total_supply(debt_of(t, pool)),
        l.total_supply(receipt_of(t, pool)),
        v,
        price,
    )
}

/// What a frame of the contract comes to, `c` being the contract with its tokens kept: the interest
/// of both pools, then the accounts that are called in, and the prices that it quotes: for receipts
/// what they are worth, for debts one.
pub open spec fn frame_is(
    p: LendingPreset,
    c: NodeV,
    l: LedgerV,
    t: LendingTokens,
    n: NodeV,
    interest_a: Seq<MsgV>,
    interest_b: Seq<MsgV>,
    pieces: Seq<Seq<MsgV>>,
    xs: Seq<Position>,
) -> bool {
    &&& exists|v: Decimal, u: Decimal, s: Decimal, r: Decimal| #[trigger]
        interest_charged(p, c, l, t, Pool::A, interest_a, v, u, s, r)
    &&& exists|v: Decimal, u: Decimal, s: Decimal, r: Decimal| #[trigger]
        interest_charged(p, c, l, t, Pool::B, interest_b, v, u, s, r)
    &&& pieces.len() == l.accounts.len()
    &&& calls_in(p, c, l, t, joined(pieces), pieces, xs)
    &&& exists|v: Decimal| #[trigger] quotes(p, c, l, t, Pool::A, n.balance(PRICE_BASE), v)
    &&& exists|v: Decimal| #[trigger]
        quotes(p, c, l, t, Pool::B, n.balance((PRICE_BASE + 1) as usize), v)
    &&& n.balance((PRICE_BASE + 2) as usize).val() == Decimal::step(0)
    &&& n.balance((PRICE_BASE + 3) as usize).val() == Decimal::step(0)
}

/// A frame of the contract charges the interest of both pools, calls in the accounts whose receipts
/// do not cover what they owe, and quotes what receipts are worth.
pub proof fn law_lending_frame(
    p: LendingPreset,
    c: NodeV,
    l: LedgerV,
    step: u64,
    t: LendingTokens,
)
    requires
        held_numbers(c, l),
        are_tokens(p, c, l, t),
        p.updated(c, l, step) is Some,
    ensures
        ({
            let (n, msgs) = p.updated(c, l, step)->0;
            exists|
                k: NodeV,
                interest_a: Seq<MsgV>,
                interest_b: Seq<MsgV>,
                pieces: Seq<Seq<MsgV>>,
                xs: Seq<Position>,
            |
                #[trigger]
                frame_is(p, k, l, t, n, interest_a, interest_b, pieces, xs) && msgs == interest_a
                    + interest_b + joined(pieces) && k.core.id == c.core.id && forall|key: usize|
                    key < KEY_DEBT_B ==> #[trigger] k.balance(key) == c.balance(key)
        }),
{
    let (n, msgs) = p.updated(c, l, step)->0;
    let (k, tokens) = p.tokens_known(c, l);
    lemma_tokens_known(p, c, l, t);
    let a = p.pool_interest(k, l, Pool::A, t)->0;
    let b = p.pool_interest(k, l, Pool::B, t)->0;
    lemma_interest_of(p, k, l, t, Pool::A);
    lemma_interest_of(p, k, l, t, Pool::B);
    let (pieces, xs) = lemma_calls_in(p, k, l, t, l.accounts.len());
    Decimal::lemma_of(1, 0);
    assert(1 * Decimal::step(0) == Decimal::step(0)) by (nonlinear_arith);
    lemma_pool_rate(
        k.balance(p.asset_token_a),
        l.total_supply(t.debt_a),
        l.total_supply(t.receipt_a),
    );
    lemma_pool_rate(
        k.balance(p.asset_token_b),
        l.total_supply(t.debt_b),
        l.total_supply(t.receipt_b),
    );
    assert(quotes(
        p,
        k,
        l,
        t,
        Pool::A,
        n.balance(PRICE_BASE),
        p.pool_value(k, l, Pool::A, t)->0,
    ));
    assert(quotes(
        p,
        k,
        l,
        t,
        Pool::B,
        n.balance((PRICE_BASE + 1) as usize),
        p.pool_value(k, l, Pool::B, t)->0,
    ));
    assert(frame_is(p, k, l, t, n, a, b, pieces, xs));
}

/// The tokens that a frame looks up.
proof fn lemma_tokens_known(p: LendingPreset, c: NodeV, l: LedgerV, t: LendingTokens)
    requires
        held_numbers(c, l),
        are_tokens(p, c, l, t),
    ensures
        ({
            let (k, tokens) = p.tokens_known(c, l);
            &&& tokens == Some(t)
            &&& held_numbers(k, l)
            &&& k.core.id == c.core.id
            &&& forall|key: usize| key < KEY_DEBT_B ==> #[trigger] k.balance(key) == c.balance(key)
        }),
{
    lemma_kept(c, l, p.receipt_a_name@, KEY_RECEIPT_A);
    let c1 = crate::contract_presets::known_token(c, l, p.receipt_a_name@, KEY_RECEIPT_A).0;
    lemma_kept(c1, l, p.receipt_b_name@, KEY_RECEIPT_B);
    let c2 = crate::contract_presets::known_token(c1, l, p.receipt_b_name@, KEY_RECEIPT_B).0;
    lemma_kept(c2, l, p.debt_a_name@, KEY_DEBT_A);
    let c3 = crate::contract_presets::known_token(c2, l, p.debt_a_name@, KEY_DEBT_A).0;
    lemma_kept(c3, l, p.debt_b_name@, KEY_DEBT_B);
}

/// The contract begins by asking for the tokens of both pools, whose receipts may not fall below zero
/// while debts may, and then for the pairs at which they are traded for the pool's token: receipts by
/// the function of receipts, and debts, by market orders only, by that of loans.
pub proof fn law_lending_begins(p: LendingPreset, c: NodeV, l: LedgerV, step: u64, pool: Pool)
    ensures
        p.created(c, l, step) matches Some((n, msgs)) && ({
            let i = match pool {
                Pool::A => 0int,
                Pool::B => 1,
            };
            let receipts = match pool {
                Pool::A => p.receipt_a_name@,
                Pool::B => p.receipt_b_name@,
            };
            let debts = match pool {
                Pool::A => p.debt_a_name@,
                Pool::B => p.debt_b_name@,
            };
            &&& n == c
            &&& msgs.len() == 8
            &&& msgs[i] matches MsgV::RegisterToken {
                name,
                can_be_negative,
                not_tradable,
                virtual_anchor,
                swap_whitelist,
            } && name == receipts && !can_be_negative && !not_tradable && virtual_anchor is None
                && swap_whitelist.len() == 0
            &&& msgs[i + 2] matches MsgV::RegisterToken {
                name,
                can_be_negative,
                not_tradable,
                virtual_anchor,
                swap_whitelist,
            } && name == debts && can_be_negative && !not_tradable && virtual_anchor is None
                && swap_whitelist.len() == 0
            &&& msgs[i + 4] == (MsgV::CreateVirtualPair {
                contract_slave_id: c.core.id,
                fn_id: receipt_fn(pool),
                quote_token: lent(p, pool),
                base_token_name: receipts,
                swap_only: false,
            })
            &&& msgs[i + 6] == (MsgV::CreateVirtualPair {
                contract_slave_id: c.core.id,
                fn_id: loan_fn(pool),
                quote_token: lent(p, pool),
                base_token_name: debts,
                swap_only: true,
            })
        }),
{
}

} // verus!
