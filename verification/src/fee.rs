//! Fees that a pair charges on each of its trades.

use crate::decimal::{decimal_product, Decimal};
use crate::node::{msgs_view, Msg, MsgV};
use vstd::prelude::*;

verus! {

/// What is known of a trade when its fee is due.
#[derive(Clone, Copy, Debug)]
pub struct FeeCtx {
    /// The token that the buyer received.
    pub base_token: usize,
    /// The token that the seller received.
    pub quote_token: usize,
    /// The node that received the base token.
    pub buyer_node: usize,
    /// The node that received the quote token.
    pub seller_node: usize,
    /// The node that took the trade.
    pub taker_node: usize,
    /// The node that had made the offer.
    pub maker_node: usize,
    /// How much of the base token changed hands.
    pub base_volume: Decimal,
    /// How much of the quote token changed hands.
    pub quote_volume: Decimal,
}

/// A transfer that a trade owes.
#[derive(Clone, Copy, Debug)]
pub struct Fee {
    /// The node that pays.
    pub src_id: usize,
    /// The node that is paid.
    pub dst_id: usize,
    /// The token that is paid in.
    pub token: usize,
    /// How much is paid.
    pub volume: Decimal,
}

impl Fee {
    /// The message that asks for the transfer.
    pub open spec fn asked(self) -> MsgV {
        MsgV::Transfer {
            src_id: self.src_id,
            dst_id: self.dst_id,
            token: self.token,
            volume: self.volume,
            allow_negative: false,
        }
    }
}

/// A fee strategy: which transfers a trade owes.
pub trait FeeLogic: Send + Sync {
    /// The transfers that a trade owes, or `None` where a number overflows.
    spec fn owed(&self, precision: u8, ctx: FeeCtx) -> Option<Seq<Fee>>;

    /// The transfers that a trade owes, or `None` where a number overflows. `precision` is that of
    /// the engine.
    fn charge(&self, precision: u8, ctx: FeeCtx) -> (r: Option<Vec<Fee>>)
        ensures
            r is Some == self.owed(precision, ctx) is Some,
            r is Some ==> (r->0)@ == self.owed(precision, ctx)->0,
    ;
}

/// A fee strategy that a pair holds.
pub struct FeeFn {
    /// The strategy.
    pub logic: Box<dyn FeeLogic>,
}

impl FeeFn {
    /// The transfers that a trade owes, or `None` where a number overflows.
    pub open spec fn owed(&self, precision: u8, ctx: FeeCtx) -> Option<Seq<Fee>> {
        self.logic.owed(precision, ctx)
    }

    /// The transfers that a trade owes, or `None` where a number overflows. `precision` is that of
    /// the engine.
    pub fn charge(&self, precision: u8, ctx: FeeCtx) -> (r: Option<Vec<Fee>>)
        ensures
            r is Some == self.owed(precision, ctx) is Some,
            r is Some ==> (r->0)@ == self.owed(precision, ctx)->0,
    {
        self.logic.charge(precision, ctx)
    }
}

/// What one side of a trade pays: a rate of what it received, cut off at the engine's precision,
/// or nothing where that is not positive. `None` where the product overflows.
pub open spec fn side_fee(
    node: usize,
    rate: Decimal,
    fee_collector: usize,
    precision: u8,
    ctx: FeeCtx,
) -> Option<Seq<Fee>> {
    let (token, volume) = if node == ctx.buyer_node {
        (ctx.base_token, ctx.base_volume)
    } else {
        (ctx.quote_token, ctx.quote_volume)
    };
    match decimal_product(volume, rate) {
        Some(product) => {
            let fee = product.truncated(precision as nat);
            if fee.val() > 0 {
                Some(seq![Fee { src_id: node, dst_id: fee_collector, token, volume: fee }])
            } else {
                Some(Seq::empty())
            }
        },
        None => None,
    }
}

/// The messages that ask for transfers.
pub open spec fn asked_for(fees: Seq<Fee>) -> Seq<MsgV> {
    fees.map_values(|fee: Fee| fee.asked())
}

/// The messages that ask for what a trade owes by the pair's fee strategy, if it has one.
pub open spec fn fee_due(fee: Option<FeeFn>, precision: u8, ctx: FeeCtx) -> Option<Seq<MsgV>> {
    match fee {
        Some(f) => match f.owed(precision, ctx) {
            Some(fees) => Some(asked_for(fees)),
            None => None,
        },
        None => Some(Seq::empty()),
    }
}

/// Adds what one side of a trade pays.
pub(crate) fn charge_side(
    fees: &mut Vec<Fee>,
    node: usize,
    rate: Decimal,
    fee_collector: usize,
    precision: u8,
    ctx: FeeCtx,
) -> (r: Option<()>)
    ensures
        r is Some == side_fee(node, rate, fee_collector, precision, ctx) is Some,
        r is Some ==> final(fees)@ == old(fees)@ + side_fee(
            node,
            rate,
            fee_collector,
            precision,
            ctx,
        )->0,
{
    let (token, volume) = if node == ctx.buyer_node {
        (ctx.base_token, ctx.base_volume)
    } else {
        (ctx.quote_token, ctx.quote_volume)
    };
    let fee = volume.checked_mul(rate)?.truncate(precision);
    proof {
        Decimal::lemma_zero();
    }
    if fee > Decimal::zero() {
        fees.push(Fee { src_id: node, dst_id: fee_collector, token, volume: fee });
    }
    assert(fees@ =~= old(fees)@ + side_fee(
        node,
        rate,
        fee_collector,
        precision,
        ctx,
    )->0);
    Some(())
}

/// Asks for transfers.
pub(crate) fn ask_for(fees: Vec<Fee>) -> (r: Vec<Msg>)
    ensures
        msgs_view(r@) == asked_for(fees@),
{
    let mut msgs: Vec<Msg> = Vec::new();
    let mut i: usize = 0;
    while i < fees.len()
        invariant
            i <= fees@.len(),
            msgs_view(msgs@) =~= asked_for(fees@.take(i as int)),
        decreases fees@.len() - i,
    {
        let fee = fees[i];
        msgs.push(
            Msg::Transfer {
                src_id: fee.src_id,
                dst_id: fee.dst_id,
                token: fee.token,
                volume: fee.volume,
                allow_negative: false,
            },
        );
        assert(fees@.take(i + 1) =~= fees@.take(i as int).push(fee));
        assert(asked_for(fees@.take(i + 1)) =~= asked_for(fees@.take(i as int)).push(fee.asked()));
        i = i + 1;
    }
    assert(fees@.take(i as int) =~= fees@);
    msgs
}

} // verus!
