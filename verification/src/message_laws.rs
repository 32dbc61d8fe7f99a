//! What nodes send: transfers, requests to close orders, and calls of contracts.

use crate::decimal::{
    decimal_difference, decimal_quotient, decimal_sum, opt_least, opt_product, Decimal,
};
use crate::fee::{fee_due, FeeCtx, FeeFn};
use crate::matching::{
    available, batch_all, batch_round, epsilon, match_all, match_round, opposite, paid_out,
    shared_out, swap_all, swap_round, swap_trade, Batch, Matching, Round, Swapping,
};
use crate::node::{Drt, MsgV, NodeV};
use crate::order::OrderBrief;
use crate::virtual_pair::VirtualTrading;
use vstd::prelude::*;

verus! {

/// Whether a message is of the kinds that pairs send: a transfer that leaves nobody overdrawn, a
/// request to close an order, or a call of a contract.
pub open spec fn tame(m: MsgV) -> bool {
    match m {
        MsgV::Transfer { allow_negative, .. } => !allow_negative,
        MsgV::CloseOrder { .. } => true,
        MsgV::CallContract { .. } => true,
        _ => false,
    }
}

/// Whether all messages are of the kinds that pairs send.
pub open spec fn all_tame(msgs: Seq<MsgV>) -> bool {
    forall|i: int| 0 <= i < msgs.len() ==> tame(#[trigger] msgs[i])
}

proof fn lemma_fee_tame(fee: Option<FeeFn>, precision: u8, ctx: FeeCtx)
    ensures
        fee_due(fee, precision, ctx) matches Some(msgs) ==> all_tame(msgs),
{
}

proof fn lemma_match_tame(m: Matching, precision: u8, unit: Decimal)
    requires
        all_tame(m.t.msgs),
    ensures
        match_all(m, precision, unit) matches Some(n) ==> all_tame(n.t.msgs),
    decreases m.t.pair.book.count(), m.t.pair.book.potential(),
{
    match match_round(m, precision, unit) {
        Round::Next(n) => {
            lemma_match_round_tame(m, precision, unit);
            if crate::matching::smaller(n.t.pair.book, m.t.pair.book) {
                lemma_match_tame(n, precision, unit);
            }
        },
        _ => {},
    }
}

proof fn lemma_match_round_tame(m: Matching, precision: u8, unit: Decimal)
    requires
        all_tame(m.t.msgs),
    ensures
        match_round(m, precision, unit) matches Round::Next(n) ==> all_tame(n.t.msgs),
{
    assert forall|ctx: FeeCtx| #[trigger]
        fee_due(m.t.pair.fee, precision, ctx) is Some implies all_tame(
            fee_due(m.t.pair.fee, precision, ctx)->0,
        ) by {
        lemma_fee_tame(m.t.pair.fee, precision, ctx);
    }
}

proof fn lemma_swap_tame(s: Swapping, precision: u8, unit: Decimal, d: Drt, owner: usize)
    requires
        all_tame(s.t.msgs),
    ensures
        swap_all(s, precision, unit, d, owner) matches Some(n) ==> all_tame(n.t.msgs),
    decreases s.t.pair.book.count(), crate::matching::swap_potential(s),
{
    match swap_round(s, precision, unit, d, owner) {
        Round::Next(n) => {
            assert(all_tame(n.t.msgs)) by {
                assert forall|ctx: FeeCtx| #[trigger]
                    fee_due(s.t.pair.fee, precision, ctx) is Some implies all_tame(
            fee_due(s.t.pair.fee, precision, ctx)->0,
        ) by {
                    lemma_fee_tame(s.t.pair.fee, precision, ctx);
                }
            }
            if crate::matching::swap_smaller(n, s) {
                lemma_swap_tame(n, precision, unit, d, owner);
            }
        },
        _ => {},
    }
}

proof fn lemma_paid_tame(
    b: Batch,
    consumed: Decimal,
    precision: u8,
    d: Drt,
    o: OrderBrief,
    swaps: Seq<(usize, Decimal)>,
    shares: Seq<(usize, Decimal)>,
    i: nat,
)
    requires
        all_tame(b.t.msgs),
    ensures
        paid_out(b, consumed, precision, d, o, swaps, shares, i) matches Some((n, _)) ==> all_tame(
            n.t.msgs,
        ),
    decreases shares.len() - i,
{
    if i < shares.len() {
        let j = shares[i as int].0 as int;
        let paid = shares[i as int].1;
        let owner = swaps[j].0;
        let worth = match d {
            Drt::Buy => decimal_quotient(paid, o.price),
            Drt::Sell => opt_product(Some(paid), Some(o.price)),
        };
        let received = b.t.pair.round(
            opt_least(worth, decimal_difference(o.src_volume, consumed)),
        );
        if received is None {
        } else if (received->0).val() <= epsilon().val() {
            lemma_paid_tame(b, consumed, precision, d, o, swaps, shares, i + 1);
        } else {
            let (base, quote) = match d {
                Drt::Buy => (received->0, paid),
                Drt::Sell => (paid, received->0),
            };
            let t = swap_trade(b.t, precision, d, owner, o, base, quote);
            let rest = decimal_difference(b.remain[j], paid);
            let gone = decimal_sum(consumed, received->0);
            lemma_fee_tame(
                b.t.pair.fee,
                precision,
                crate::matching::swap_fee_ctx(b.t.pair, d, owner, o.id, base, quote),
            );
            if t is Some && rest is Some && gone is Some {
                let n = Batch {
                    t: t->0,
                    transfers: b.transfers + crate::matching::swap_transfers(
                        b.t.pair,
                        d,
                        owner,
                        o.id,
                        paid,
                        received->0,
                    ),
                    closes: b.closes,
                    remain: b.remain.update(j, rest->0),
                };
                lemma_paid_tame(n, gone->0, precision, d, o, swaps, shares, i + 1);
            }
        }
    }
}

proof fn lemma_batch_tame(
    b: Batch,
    precision: u8,
    unit: Decimal,
    d: Drt,
    swaps: Seq<(usize, Decimal)>,
    rounds: nat,
)
    requires
        all_tame(b.t.msgs),
    ensures
        batch_all(b, precision, unit, d, swaps, rounds) matches Some(n) ==> all_tame(n.t.msgs),
    decreases rounds,
{
    if let Some(total) = crate::matching::total_of(b.remain) {
        if total.val() > epsilon().val() && rounds > 0 {
            match batch_round(b, total, precision, unit, d, swaps) {
                Round::Next(n) => {
                    let q = b.t.pair.book.queue(opposite(d));
                    let avail = available(d, q[0], total);
                    if let Some(shares) = shared_out(b.t.pair, unit, avail->0, total, b.remain) {
                        lemma_paid_tame(
                            b,
                            Decimal::of(0, 0),
                            precision,
                            d,
                            q[0],
                            swaps,
                            shares,
                            0,
                        );
                    }
                    lemma_batch_tame(n, precision, unit, d, swaps, (rounds - 1) as nat);
                },
                _ => {},
            }
        }
    }
}

proof fn lemma_traded_tame(
    t: VirtualTrading,
    precision: u8,
    d: Drt,
    taker: usize,
    volume: Decimal,
    call: Option<Decimal>,
)
    requires
        all_tame(t.msgs),
    ensures
        t.traded(precision, d, taker, volume, call) matches Some(n) ==> all_tame(n.msgs),
{
    assert(t.v.fees(precision, d, taker, volume) matches Some(msgs) ==> all_tame(msgs)) by {
        assert forall|ctx: FeeCtx| #[trigger]
            fee_due(t.v.pair.fee, precision, ctx) is Some implies all_tame(
            fee_due(t.v.pair.fee, precision, ctx)->0,
        ) by {
            lemma_fee_tame(t.v.pair.fee, precision, ctx);
        }
    }
}

proof fn lemma_offered_tame(
    t: VirtualTrading,
    precision: u8,
    d: Drt,
    q: Seq<OrderBrief>,
    k: nat,
)
    requires
        all_tame(t.msgs),
    ensures
        t.all_offered(precision, d, q, k) matches Some(n) ==> all_tame(n.msgs),
    decreases k,
{
    if k > 0 {
        lemma_offered_tame(t, precision, d, q, (k - 1) as nat);
        if let Some(n) = t.all_offered(precision, d, q, (k - 1) as nat) {
            let o = q[k - 1];
            lemma_traded_tame(
                n,
                precision,
                d,
                o.id,
                o.src_volume,
                n.v.call_volume(d, o.src_volume),
            );
        }
    }
}

proof fn lemma_virtual_matched_tame(t: VirtualTrading, precision: u8)
    requires
        all_tame(t.msgs),
    ensures
        t.matched(precision) matches Some(n) ==> all_tame(n.msgs),
{
    let buys = t.v.pair.book.buys;
    let sells = t.v.pair.book.sells;
    lemma_offered_tame(t, precision, Drt::Buy, buys, buys.len());
    if let Some(t1) = t.all_offered(precision, Drt::Buy, buys, buys.len()) {
        lemma_offered_tame(t1, precision, Drt::Sell, sells, sells.len());
    }
}

proof fn lemma_virtual_batched_tame(
    t: VirtualTrading,
    precision: u8,
    d: Drt,
    swaps: Seq<(usize, Decimal)>,
    k: nat,
)
    requires
        all_tame(t.msgs),
    ensures
        t.batched(precision, d, swaps, k) matches Some(n) ==> all_tame(n.msgs),
    decreases k,
{
    if k > 0 {
        lemma_virtual_batched_tame(t, precision, d, swaps, (k - 1) as nat);
        if let Some(n) = t.batched(precision, d, swaps, (k - 1) as nat) {
            lemma_traded_tame(
                n,
                precision,
                d,
                swaps[k - 1].0,
                swaps[k - 1].1,
                n.v.batch_volume(d, swaps[k - 1].1),
            );
        }
    }
}

/// Whatever is asked of a pair, it sends nothing but transfers that leave nobody overdrawn,
/// requests to close orders and calls of contracts.
pub proof fn law_pairs_send(
    n: NodeV,
    b: OrderBrief,
    owner: usize,
    d: Drt,
    volume: Decimal,
    swaps: Seq<(usize, Decimal)>,
    precision: u8,
)
    requires
        n.is_pair(),
        all_tame(n.core.msgs),
    ensures
        n.orders_matched(precision) matches Some(m) ==> all_tame(m.core.msgs),
        n.brief_inserted(b, precision) matches Some(m) ==> all_tame(m.core.msgs),
        n.swap_processed(owner, d, volume, precision) matches Some((m, _, _)) ==> all_tame(
            m.core.msgs,
        ),
        n.swaps_processed(d, swaps, precision) matches Some((m, _, _)) ==> all_tame(m.core.msgs),
{
    if n.kind is Virtual {
        let t = n.virtual_trading();
        lemma_virtual_matched_tame(t, precision);
        lemma_virtual_matched_tame(t.with_book(t.v.pair.book.inserted(b)), precision);
        lemma_traded_tame(
            t,
            precision,
            b.direction,
            b.id,
            b.src_volume,
            t.v.call_volume(b.direction, b.src_volume),
        );
        lemma_traded_tame(t, precision, d, owner, volume, t.v.call_volume(d, volume));
        lemma_virtual_batched_tame(t, precision, d, swaps, swaps.len());
    } else {
        let t = n.trading();
        let u = t.with_book(t.pair.book.inserted(b));
        if let Some(unit) = Decimal::unit_of(t.pair.precision) {
            lemma_match_tame(Matching { t, price: t.pair.price }, precision, unit);
            lemma_match_tame(Matching { t: u, price: u.pair.price }, precision, unit);
            lemma_swap_tame(
                Swapping { t, transfers: Seq::empty(), closes: Seq::empty(), remaining: volume },
                precision,
                unit,
                d,
                owner,
            );
            lemma_batch_tame(
                Batch {
                    t,
                    transfers: Seq::empty(),
                    closes: Seq::empty(),
                    remain: swaps.map_values(|s: (usize, Decimal)| s.1),
                },
                precision,
                unit,
                d,
                swaps,
                crate::matching::BATCH_ROUNDS as nat,
            );
        }
    }
}

} // verus!
