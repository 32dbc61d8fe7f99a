//! What payments move: transfers, issues and fees.

use crate::decimal::{decimal_product, decimal_sum, Decimal, MAX_SCALE};
use crate::error::Error;
use crate::fee::{Fee, FeeCtx, FeeLogic};
use crate::fee_presets::TakerMakerFee;
use crate::ledger_model::LedgerV;
use crate::node::{KindV, NodeV};
use crate::number_laws::{difference_off, lemma_cut_by_less, product_under, sum_off};
use crate::pool_laws::{near, redeems_for};
use crate::token::TokenV;
use vstd::prelude::*;

verus! {

/// Whether `v` is what is left of an amount without the digits behind the last of `precision`
/// decimal places: it lies between zero and the amount, is less than one unit off, and has no more
/// decimal places.
pub open spec fn cut_to(amount: Decimal, precision: u8, v: Decimal) -> bool {
    let unit = Decimal::step(precision as nat);
    &&& v.valid()
    &&& v.places() <= precision
    &&& amount.val() >= 0 ==> 0 <= v.val() <= amount.val() < v.val() + unit
    &&& amount.val() <= 0 ==> v.val() - unit < amount.val() <= v.val() <= 0
}

proof fn lemma_cut_to(amount: Decimal, precision: u8)
    requires
        amount.valid(),
        precision <= MAX_SCALE,
    ensures
        cut_to(amount, precision, amount.truncated(precision as nat)),
{
    amount.law_truncated(precision as nat);
}

/// Whether two nodes are alike but for their balance of one token.
pub open spec fn alike_but_for(a: NodeV, b: NodeV, token: usize) -> bool {
    &&& a.kind == b.kind
    &&& a.core.id == b.core.id
    &&& a.core.msgs == b.core.msgs
    &&& forall|other: usize| other != token ==> #[trigger] a.balance(other) == b.balance(other)
}

/// Whether two ledgers have nodes in the same number and are alike in all but them.
pub open spec fn alike_but_for_nodes(l: LedgerV, m: LedgerV) -> bool {
    m.nodes.len() == l.nodes.len() && m == (LedgerV { nodes: m.nodes, ..l })
}

/// Whether `v` of a token went from one node to another and nothing else changed.
pub open spec fn moved(
    l: LedgerV,
    m: LedgerV,
    src: usize,
    dst: usize,
    token: usize,
    v: Decimal,
) -> bool {
    let has = l.node(src).balance(token);
    let current = l.node(dst).balance(token);
    &&& alike_but_for_nodes(l, m)
    &&& forall|id: usize| l.has(id) && id != src && id != dst ==> #[trigger] m.node(id) == l.node(id)
    &&& alike_but_for(m.node(src), l.node(src), token)
    &&& alike_but_for(m.node(dst), l.node(dst), token)
    &&& near(
        m.node(src).balance(token).val(),
        has.val() - v.val(),
        difference_off(has, v),
        difference_off(has, v),
    )
    &&& near(
        m.node(dst).balance(token).val(),
        current.val() + v.val(),
        sum_off(current, v),
        sum_off(current, v),
    )
}

/// Whether a transfer may leave a node below zero: it allows that, or the token does.
pub open spec fn may_fall_below_zero(l: LedgerV, token: usize, allow_negative: bool) -> bool {
    allow_negative || (l.has(token) && (l.node(token).kind matches KindV::Token(t)
        && t.can_be_negative))
}

/// Whether an amount, without what it has behind the engine's precision, went from one node to
/// another. Where the balances may not fall below zero, the first node had that much and the second
/// has nothing below zero then.
pub open spec fn paid(
    l: LedgerV,
    m: LedgerV,
    src: usize,
    dst: usize,
    token: usize,
    amount: Decimal,
    free: bool,
    v: Decimal,
) -> bool {
    &&& cut_to(amount, l.precision, v)
    &&& moved(l, m, src, dst, token, v)
    &&& !free ==> l.node(src).balance(token).val() >= v.val()
    &&& !free ==> m.node(dst).balance(token).val() >= 0
}

/// Whether a transfer has to be refused for this reason.
pub open spec fn refused(
    l: LedgerV,
    src: usize,
    dst: usize,
    token: usize,
    amount: Decimal,
    free: bool,
    e: Error,
) -> bool {
    let there = src < l.nodes.len() && dst < l.nodes.len();
    match e {
        Error::TokenNotRegistered(t) => t == token && !l.is_token(token),
        Error::IndexOutOfBounds { id, len } => {
            &&& l.is_token(token) && src != dst && !there
            &&& id == src || id == dst
            &&& id >= src && id >= dst
            &&& len == l.nodes.len() as usize
        },
        Error::InsufficientBalance { node_id, token: t, has, need } => {
            &&& l.is_token(token) && src != dst && there && !free
            &&& node_id == src && t == token
            &&& has == l.node(src).balance(token)
            &&& cut_to(amount, l.precision, need)
            &&& has.val() < need.val()
        },
        Error::NegativeDestination { node_id, token: t, current, volume } => {
            &&& l.is_token(token) && src != dst && there && !free
            &&& node_id == dst && t == token
            &&& current == l.node(dst).balance(token)
            &&& cut_to(amount, l.precision, volume)
            &&& l.node(src).balance(token).val() >= volume.val()
            &&& current.val() + volume.val() < 0
        },
        _ => false,
    }
}

/// A transfer takes the amount from the paying node and gives it to the other, without what the
/// amount has behind the engine's precision, and changes nothing else. It is refused for a token
/// that is not registered, for a node that there is not, and, where the balances may not fall below
/// zero, for a node that has too little or would be left below zero. One to the paying node itself
/// changes nothing.
pub proof fn law_transfer_moves(
    l: LedgerV,
    src: usize,
    dst: usize,
    token: usize,
    amount: Decimal,
    allow_negative: bool,
)
    requires
        l.transferred(src, dst, token, amount, allow_negative) is Some,
        amount.valid(),
        l.precision <= MAX_SCALE,
    ensures
        ({
            let free = may_fall_below_zero(l, token, allow_negative);
            match l.transferred(src, dst, token, amount, allow_negative)->0 {
                Ok(m) => {
                    &&& l.is_token(token)
                    &&& src == dst ==> m == l
                    &&& src != dst ==> l.has(src) && l.has(dst) && exists|v: Decimal| #[trigger]
                        paid(l, m, src, dst, token, amount, free, v)
                },
                Err(e) => refused(l, src, dst, token, amount, free, e),
            }
        }),
{
    let free = may_fall_below_zero(l, token, allow_negative);
    let v = amount.truncated(l.precision as nat);
    lemma_cut_to(amount, l.precision);
    let has = l.node(src).balance(token);
    let current = l.node(dst).balance(token);
    has.lemma_difference(v);
    current.lemma_sum(v);
    match l.transferred(src, dst, token, amount, allow_negative)->0 {
        Ok(m) => {
            if src != dst {
                assert(paid(l, m, src, dst, token, amount, free, v));
            }
        },
        Err(_) => {},
    }
}

/// Whether `v` of a token was issued to a node and nothing else changed.
pub open spec fn issued_to(l: LedgerV, m: LedgerV, id: usize, token: usize, v: Decimal) -> bool {
    let current = l.node(id).balance(token);
    let supply = l.total_supply(token);
    &&& alike_but_for_nodes(l, m)
    &&& forall|i: usize| l.has(i) && i != id && i != token ==> #[trigger] m.node(i) == l.node(i)
    &&& forall|i: usize, t: usize|
        l.has(i) && !(i == id && t == token) ==> #[trigger] m.node(i).balance(t) == l.node(
            i,
        ).balance(t)
    &&& near(
        m.node(id).balance(token).val(),
        current.val() + v.val(),
        sum_off(current, v),
        sum_off(current, v),
    )
    &&& id != token ==> m.node(id).kind == l.node(id).kind
    &&& match l.token(token) {
        Some(t) => {
            &&& m.token(token) == Some(TokenV { total_supply: m.total_supply(token), ..t })
            &&& near(
                m.total_supply(token).val(),
                supply.val() + v.val(),
                sum_off(supply, v),
                sum_off(supply, v),
            )
        },
        None => m.token(token) is None,
    }
}

/// Whether an amount was issued to a node, without what it has behind the engine's precision.
pub open spec fn granted(
    l: LedgerV,
    m: LedgerV,
    id: usize,
    token: usize,
    amount: Decimal,
    v: Decimal,
) -> bool {
    cut_to(amount, l.precision, v) && issued_to(l, m, id, token, v)
}

/// Issuing a token gives the amount to the named node, without what the amount has behind the
/// engine's precision, counts it as issued, and changes nothing else. It is refused where there is
/// no such node or the token is not registered.
pub proof fn law_issue_grants(l: LedgerV, id: usize, token: usize, amount: Decimal)
    requires
        l.issued(id, token, amount) is Some,
        amount.valid(),
        l.precision <= MAX_SCALE,
    ensures
        match l.issued(id, token, amount)->0 {
            Ok(m) => {
                &&& l.has(id)
                &&& l.is_token(token)
                &&& exists|v: Decimal| #[trigger] granted(l, m, id, token, amount, v)
            },
            Err(Error::NodeNotFound { id: i, len }) => i == id && !l.has(id) && len
                == l.nodes.len() as usize,
            Err(Error::TokenNotRegistered(t)) => t == token && l.has(id) && !l.is_token(token),
            Err(_) => false,
        },
{
    let v = amount.truncated(l.precision as nat);
    lemma_cut_to(amount, l.precision);
    match l.issued(id, token, amount)->0 {
        Ok(m) => {
            let sum = decimal_sum(l.node(id).balance(token), v)->0;
            let a = l.with_node(id, l.node(id).with_balance(token, sum));
            assert(a.token(token) == l.token(token));
            assert(granted(l, m, id, token, amount, v));
        },
        Err(_) => {},
    }
}

/// Whether a part of some fees is what one side of a trade pays: a rate of what it received, but
/// for less than one unit, or nothing where that is less than one unit.
pub open spec fn pays(
    node: usize,
    rate: Decimal,
    collector: usize,
    unit: int,
    ctx: FeeCtx,
    part: Seq<Fee>,
) -> bool {
    let token = if node == ctx.buyer_node { ctx.base_token } else { ctx.quote_token };
    let volume = if node == ctx.buyer_node { ctx.base_volume } else { ctx.quote_volume };
    if part.len() == 0 {
        volume.val() * rate.val() < unit * Decimal::step(0) + product_under(volume, rate)
    } else {
        &&& part.len() == 1
        &&& part[0].src_id == node
        &&& part[0].dst_id == collector
        &&& part[0].token == token
        &&& part[0].volume.val() > 0
        &&& redeems_for(volume, rate, part[0].volume.val(), unit)
    }
}

/// Whether fees are made up of what the taker and what the maker of a trade pay.
pub open spec fn both_pay(
    fee: TakerMakerFee,
    unit: int,
    ctx: FeeCtx,
    fees: Seq<Fee>,
    taker: Seq<Fee>,
    maker: Seq<Fee>,
) -> bool {
    &&& fees == taker + maker
    &&& pays(ctx.taker_node, fee.taker_rate, fee.fee_collector, unit, ctx, taker)
    &&& pays(ctx.maker_node, fee.maker_rate, fee.fee_collector, unit, ctx, maker)
}

/// The taker and the maker of a trade each pay their rate of what they received to the collector,
/// in the token that they received: the base token where they bought, the quote token where they
/// sold. The part below one unit is not charged.
pub proof fn law_fees_of_what_was_received(fee: TakerMakerFee, precision: u8, ctx: FeeCtx)
    requires
        fee.owed(precision, ctx) is Some,
        precision <= MAX_SCALE,
        fee.maker_rate.valid(),
        ctx.base_volume.valid(),
        ctx.quote_volume.valid(),
    ensures
        exists|taker: Seq<Fee>, maker: Seq<Fee>| #[trigger]
            both_pay(
                fee,
                Decimal::step(precision as nat),
                ctx,
                fee.owed(precision, ctx)->0,
                taker,
                maker,
            ),
{
    let unit = Decimal::step(precision as nat);
    let fees = fee.owed(precision, ctx)->0;
    let taker = crate::fee::side_fee(
        ctx.taker_node,
        fee.taker_rate,
        fee.fee_collector,
        precision,
        ctx,
    )->0;
    lemma_pays(ctx.taker_node, fee.taker_rate, fee.fee_collector, precision, ctx);
    Decimal::lemma_steps(0, precision as nat);
    if fee.maker_rate.val() == 0 {
        let maker = Seq::<Fee>::empty();
        assert(taker + maker =~= taker);
        assert(unit * Decimal::step(0) > 0) by (nonlinear_arith)
            requires
                unit > 0,
                Decimal::step(0) > 0,
        ;
        assert(both_pay(fee, unit, ctx, fees, taker, maker));
    } else {
        let maker = crate::fee::side_fee(
            ctx.maker_node,
            fee.maker_rate,
            fee.fee_collector,
            precision,
            ctx,
        )->0;
        lemma_pays(ctx.maker_node, fee.maker_rate, fee.fee_collector, precision, ctx);
        assert(both_pay(fee, unit, ctx, fees, taker, maker));
    }
}

/// What one side of a trade pays is its rate of what it received.
proof fn lemma_pays(node: usize, rate: Decimal, collector: usize, precision: u8, ctx: FeeCtx)
    requires
        crate::fee::side_fee(node, rate, collector, precision, ctx) is Some,
        precision <= MAX_SCALE,
    ensures
        pays(
            node,
            rate,
            collector,
            Decimal::step(precision as nat),
            ctx,
            crate::fee::side_fee(node, rate, collector, precision, ctx)->0,
        ),
{
    let unit = Decimal::step(precision as nat);
    let one = Decimal::step(0);
    let volume = if node == ctx.buyer_node { ctx.base_volume } else { ctx.quote_volume };
    volume.lemma_product(rate);
    let product = decimal_product(volume, rate)->0;
    lemma_cut_by_less(product, precision);
    let fee = product.truncated(precision as nat).val();
    let p = product.val();
    assert(fee * one <= p * one || fee <= 0) by (nonlinear_arith)
        requires
            fee <= p || fee <= 0,
            one > 0,
    ;
    assert(p * one < (fee + unit) * one) by (nonlinear_arith)
        requires
            p < fee + unit,
            one > 0,
    ;
    if fee <= 0 {
        assert((fee + unit) * one <= unit * one) by (nonlinear_arith)
            requires
                fee <= 0,
                one > 0,
        ;
    }
}

} // verus!
