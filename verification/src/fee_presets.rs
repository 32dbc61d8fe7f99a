//! Fee strategies.

use crate::decimal::Decimal;
use crate::fee::{charge_side, side_fee, Fee, FeeCtx, FeeFn, FeeLogic};
use vstd::prelude::*;

verus! {

/// A strategy by which nothing is charged.
#[derive(Clone, Copy, Debug)]
pub struct EmptyFee;

/// A strategy by which the taker and the maker each pay a rate of what they received.
#[derive(Clone, Copy, Debug)]
pub struct TakerMakerFee {
    /// The taker's rate.
    pub taker_rate: Decimal,
    /// The maker's rate.
    pub maker_rate: Decimal,
    /// The node that collects the fees.
    pub fee_collector: usize,
}

impl FeeLogic for EmptyFee {
    open spec fn owed(&self, precision: u8, ctx: FeeCtx) -> Option<Seq<Fee>> {
        Some(Seq::empty())
    }

    fn charge(&self, _precision: u8, _ctx: FeeCtx) -> (r: Option<Vec<Fee>>) {
        Some(Vec::new())
    }
}

impl FeeLogic for TakerMakerFee {
    open spec fn owed(&self, precision: u8, ctx: FeeCtx) -> Option<Seq<Fee>> {
        match side_fee(ctx.taker_node, self.taker_rate, self.fee_collector, precision, ctx) {
            Some(taker) => if self.maker_rate.val() == 0 {
                Some(taker)
            } else {
                match side_fee(
                    ctx.maker_node,
                    self.maker_rate,
                    self.fee_collector,
                    precision,
                    ctx,
                ) {
                    Some(maker) => Some(taker + maker),
                    None => None,
                }
            },
            None => None,
        }
    }

    fn charge(&self, precision: u8, ctx: FeeCtx) -> (r: Option<Vec<Fee>>) {
        let mut fees: Vec<Fee> = Vec::new();
        let collector = self.fee_collector;
        charge_side(&mut fees, ctx.taker_node, self.taker_rate, collector, precision, ctx)?;
        if !self.maker_rate.is_zero() {
            charge_side(&mut fees, ctx.maker_node, self.maker_rate, collector, precision, ctx)?;
        }
        proof {
            let taker = side_fee(ctx.taker_node, self.taker_rate, collector, precision, ctx)->0;
            assert(Seq::<Fee>::empty() + taker =~= taker);
        }
        Some(fees)
    }
}

/// A strategy by which nothing is charged.
pub fn empty_fee() -> (r: FeeFn)
    ensures
        forall|precision: u8, ctx: FeeCtx| #[trigger]
            r.owed(precision, ctx) == EmptyFee.owed(precision, ctx),
{
    FeeFn { logic: Box::new(EmptyFee) }
}

/// A strategy by which the taker and the maker each pay a rate of what they received.
pub fn taker_maker_fee(
    taker_rate: Decimal,
    maker_rate: Decimal,
    fee_collector: usize,
) -> (r: FeeFn)
    ensures
        forall|precision: u8, ctx: FeeCtx| #[trigger]
            r.owed(precision, ctx) == (TakerMakerFee { taker_rate, maker_rate, fee_collector }).owed(
                precision,
                ctx,
            ),
{
    FeeFn { logic: Box::new(TakerMakerFee { taker_rate, maker_rate, fee_collector }) }
}

} // verus!
