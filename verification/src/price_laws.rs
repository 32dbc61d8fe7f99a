//! At what price, and how much, orders trade: limit orders with each other, and market orders with
//! limit orders.

use crate::batch_laws::lemma_units_apart;
use crate::decimal::{
    decimal_difference, decimal_product, decimal_quotient, decimal_sum, Decimal, MAX_SCALE,
};
use crate::fee::{fee_due, Fee, FeeCtx, FeeFn};
use crate::matching::{
    buy_spent, epsilon, fill_base, fill_quote, lemma_match_round, lemma_swap_round, lemma_units,
    limit_trade, match_all, match_round, matched, opposite, settled, swap_all, swap_potential,
    swap_round, swap_trade, swapped, trade_price, Matching, PairV, Round, Swapping, Trading,
};
use crate::node::{Drt, MsgV, SwapTransfer};
use crate::number_laws::{
    difference_off, lemma_cut_by_less, product_over, product_under, quotient_over, quotient_under,
    sum_off,
};
use crate::order::OrderBrief;
use crate::order_book::BookV;
use crate::pool_laws::near;
use crate::trade_log::TraLog;
use vstd::prelude::*;

verus! {

// ---- the volumes of a trade ----

/// What counts as nothing is one in the twelfth decimal place.
pub proof fn law_nothing()
    ensures
        epsilon().val() == Decimal::step(12),
{
    Decimal::lemma_of(1, 12);
}

/// Whether a trade of `base` for `quote` is one at a price, as large as it can be, between somebody
/// who has `cap` of the quote token and somebody who has `limit` of the base token, all numbers
/// being cut off at a unit: neither pays more than they have; what is paid is what the base token is
/// worth at the price, but for less than one unit; and one of the two has nothing left that one more
/// unit could be traded for.
pub open spec fn fills(
    cap: Decimal,
    limit: Decimal,
    price: Decimal,
    base: Decimal,
    quote: Decimal,
    unit: int,
) -> bool {
    let one = Decimal::step(0);
    &&& 0 < base.val() <= limit.val()
    &&& 0 <= quote.val() <= cap.val()
    &&& quote.val() * one <= base.val() * price.val() + product_over(base, price)
    &&& base.val() * price.val() < (quote.val() + unit) * one + product_under(base, price)
        + quotient_over(cap, price)
    &&& limit.val() < base.val() + unit || cap.val() * one < (base.val() + unit) * price.val()
        + quotient_under(cap, price)
}

/// Whether there is nothing to trade at a price: one of the two has too little for more than what
/// counts as nothing.
pub open spec fn nothing_to_trade(
    cap: Decimal,
    limit: Decimal,
    price: Decimal,
    unit: int,
) -> bool {
    let least = epsilon().val() + unit;
    limit.val() < least || cap.val() * Decimal::step(0) < least * price.val() + quotient_under(
        cap,
        price,
    )
}

/// The volumes of a trade.
proof fn lemma_fills(cap: Decimal, limit: Decimal, price: Decimal, precision: u8)
    requires
        cap.valid(),
        limit.valid(),
        precision <= MAX_SCALE,
        price.val() >= 0,
        decimal_quotient(cap, price) is Some,
    ensures
        ({
            let unit = Decimal::step(precision as nat);
            let q = decimal_quotient(cap, price)->0;
            let base = q.least(limit).truncated(precision as nat);
            let m = decimal_product(base, price);
            let quote = (m->0).least(cap).truncated(precision as nat);
            &&& base.valid()
            &&& price.val() > 0
            &&& base.val() <= epsilon().val() ==> nothing_to_trade(cap, limit, price, unit)
            &&& base.val() > 0 && m is Some ==> quote.valid() && fills(
                cap,
                limit,
                price,
                base,
                quote,
                unit,
            )
        }),
{
    let u = Decimal::step(precision as nat);
    let w = Decimal::step(0);
    let p = price.val();
    let q = decimal_quotient(cap, price)->0;
    cap.lemma_quotient(price);
    let least = q.least(limit);
    lemma_cut_by_less(least, precision);
    let base = least.truncated(precision as nat);
    let b = base.val();
    let (qv, c) = (q.val(), cap.val());
    assert((b + u) * p > qv * p || qv >= b + u) by (nonlinear_arith)
        requires
            p > 0,
    ;
    let least_traded = epsilon().val() + u;
    assert(b <= epsilon().val() ==> (b + u) * p <= least_traded * p) by (nonlinear_arith)
        requires
            p > 0,
            least_traded == epsilon().val() + u,
    ;
    if b > 0 {
        let m = decimal_product(base, price)->0;
        base.lemma_product(price);
        assert(b * p > 0) by (nonlinear_arith)
            requires
                p > 0,
                b > 0,
        ;
        assert(qv > 0);
        assert(c > 0) by {
            if c <= 0 {
                assert(c * p <= 0) by (nonlinear_arith)
                    requires
                        p > 0,
                        c <= 0,
                ;
            }
        }
        if decimal_product(base, price) is Some {
            let paid = m.least(cap);
            lemma_cut_by_less(paid, precision);
            let quote = paid.truncated(precision as nat);
            let (x, y, z) = (m.val(), quote.val(), paid.val());
            assert(y * w <= z * w && (y + u) * w > z * w) by (nonlinear_arith)
                requires
                    w > 0,
                    y <= z < y + u,
            ;
            assert(z * w <= x * w) by (nonlinear_arith)
                requires
                    w > 0,
                    z <= x,
            ;
            assert(b * p <= qv * p) by (nonlinear_arith)
                requires
                    p > 0,
                    b <= qv,
            ;
        }
    }
}

// ---- what becomes of orders ----

/// Whether all prices and volumes of a book are numbers that can be held.
pub open spec fn numbers_held(book: BookV) -> bool {
    &&& forall|i: int|
        0 <= i < book.buys.len() ==> (#[trigger] book.buys[i]).price.valid()
            && book.buys[i].src_volume.valid()
    &&& forall|i: int|
        0 <= i < book.sells.len() ==> (#[trigger] book.sells[i]).price.valid()
            && book.sells[i].src_volume.valid()
}

/// Whether the first order of a queue was taken out.
pub open spec fn first_gone(q: Seq<OrderBrief>, r: Seq<OrderBrief>) -> bool {
    q.len() > 0 && r == q.drop_first()
}

/// Whether the first order of a queue has `left` to spend and is otherwise what it was.
pub open spec fn first_left(q: Seq<OrderBrief>, r: Seq<OrderBrief>, left: Decimal) -> bool {
    &&& q.len() > 0 && r.len() == q.len()
    &&& r.drop_first() == q.drop_first()
    &&& r[0].src_volume == left
    &&& r[0].id == q[0].id && r[0].price == q[0].price && r[0].direction == q[0].direction
    &&& r[0].step_count_created == q[0].step_count_created
    &&& r[0].src_token == q[0].src_token && r[0].dst_token == q[0].dst_token
}

/// Whether the first order of a queue, where it is not taken out, is known to have received `got`
/// more.
pub open spec fn receives(q: Seq<OrderBrief>, r: Seq<OrderBrief>, got: Decimal) -> bool {
    let off = sum_off(q[0].dst_volume, got);
    first_gone(q, r) || near(
        r[0].dst_volume.val(),
        q[0].dst_volume.val() + got.val(),
        off,
        off,
    )
}

/// What becomes of the first order of a queue that spends `spent` and has `left` then: it stays with
/// that where more than one unit is left of it (and, for a buy order, where that buys one unit at its
/// own limit), and is taken out otherwise.
pub open spec fn spends(
    d: Drt,
    q: Seq<OrderBrief>,
    r: Seq<OrderBrief>,
    spent: Decimal,
    left: Decimal,
    unit: int,
) -> bool {
    let o = q[0];
    let one = Decimal::step(0);
    let off = difference_off(o.src_volume, spent);
    &&& q.len() > 0
    &&& near(left.val(), o.src_volume.val() - spent.val(), off, off)
    &&& first_gone(q, r) || first_left(q, r, left)
    &&& first_gone(q, r) ==> left.val() <= unit || (d == Drt::Buy && left.val() * one < unit
        * o.price.val() + quotient_under(left, o.price))
    &&& first_left(q, r, left) && !first_gone(q, r) ==> left.val() > unit && (d == Drt::Buy
        ==> left.val() * one + quotient_over(left, o.price) >= unit * o.price.val())
}

/// When a buy order is spent.
pub(crate) proof fn lemma_spent(p: PairV, unit: Decimal, left: Decimal, price: Decimal)
    requires
        p.precision <= MAX_SCALE,
        unit == Decimal::of(1, p.precision as nat),
        left.valid(),
        price.val() > 0,
        buy_spent(p, unit, left, price) is Some,
    ensures
        ({
            let u = Decimal::step(p.precision as nat);
            let one = Decimal::step(0);
            &&& unit.val() == u && u > 0
            &&& buy_spent(p, unit, left, price) == Some(true) ==> left.val() <= u || left.val()
                * one < u * price.val() + quotient_under(left, price)
            &&& buy_spent(p, unit, left, price) == Some(false) ==> left.val() > u && left.val()
                * one + quotient_over(left, price) >= u * price.val()
        }),
{
    let u = Decimal::step(p.precision as nat);
    Decimal::lemma_of(1, p.precision as nat);
    Decimal::lemma_of(0, 0);
    Decimal::lemma_zero();
    assert(1 * u == u) by (nonlinear_arith);
    Decimal::lemma_steps(0, p.precision as nat);
    if left.val() > u {
        let q = decimal_quotient(left, price)->0;
        left.lemma_quotient(price);
        q.law_truncated(p.precision as nat);
        let cut = q.truncated(p.precision as nat);
        let (l, r) = (left.val(), price.val());
        assert(l * r > 0) by (nonlinear_arith)
            requires
                l > 0,
                r > 0,
        ;
        lemma_units_apart(Decimal::of(0, 0), cut, p.precision);
        let x = q.val();
        assert(x < u ==> x * r < u * r) by (nonlinear_arith)
            requires
                r > 0,
        ;
        assert(x >= u ==> x * r >= u * r) by (nonlinear_arith)
            requires
                r > 0,
        ;
    }
}

/// Whether a log of at most `max` entries has one more, and lost its oldest one where it was full.
pub open spec fn logs_more(a: Seq<TraLog>, max: usize, b: Seq<TraLog>, e: TraLog) -> bool {
    if a.len() < max {
        b == a.push(e)
    } else {
        b == a.push(e).skip(1)
    }
}

/// The messages that ask for the fees that a strategy owes for a trade.
pub open spec fn fees_asked(fee: Option<FeeFn>, precision: u8, trade: FeeCtx) -> Seq<MsgV> {
    match fee {
        Some(f) => (f.owed(precision, trade)->0).map_values(
            |x: Fee|
                MsgV::Transfer {
                    src_id: x.src_id,
                    dst_id: x.dst_id,
                    token: x.token,
                    volume: x.volume,
                    allow_negative: false,
                },
        ),
        None => Seq::empty(),
    }
}

/// The request to close an order, where there is one.
pub open spec fn close_asked(gone: bool, id: usize) -> Seq<MsgV> {
    if gone {
        seq![MsgV::CloseOrder { order_id: id }]
    } else {
        Seq::empty()
    }
}

// ---- limit orders ----

/// Whether two orders trade at a price: that of the one that was opened in the earlier frame, or
/// the middle of both where they were opened in one frame.
pub open spec fn priced_by(buy: OrderBrief, sell: OrderBrief, price: Decimal) -> bool {
    let one = Decimal::step(0);
    let two = Decimal::of(2, 0);
    if buy.step_count_created < sell.step_count_created {
        price == buy.price
    } else if sell.step_count_created < buy.step_count_created {
        price == sell.price
    } else {
        decimal_sum(sell.price, buy.price) matches Some(both) && near(
            both.val(),
            sell.price.val() + buy.price.val(),
            sum_off(sell.price, buy.price),
            sum_off(sell.price, buy.price),
        ) && near(
            2 * price.val() * one,
            both.val() * one,
            quotient_over(both, two),
            quotient_under(both, two),
        )
    }
}

/// Whether the best buy order and the best sell order of a pair traded `base` for `quote`. They
/// meet; the price is that of the earlier one; the buyer is sent what they bought and the seller
/// what was paid; the fees are asked for of the one that was opened later as the taker (of the buyer
/// where both were opened in one frame) and the other one as the maker; the trade is logged at its
/// price; and both orders have less left by it and are closed where that is too little.
pub open spec fn limit_traded(
    a: Matching,
    b: Matching,
    precision: u8,
    base: Decimal,
    quote: Decimal,
    buy_left: Decimal,
    sell_left: Decimal,
) -> bool {
    let p = a.t.pair;
    let buy = p.book.buys[0];
    let sell = p.book.sells[0];
    let unit = Decimal::step(p.precision as nat);
    let sell_later = sell.step_count_created > buy.step_count_created;
    let trade = FeeCtx {
        base_token: p.base_token,
        quote_token: p.quote_token,
        buyer_node: buy.id,
        seller_node: sell.id,
        taker_node: if sell_later {
            sell.id
        } else {
            buy.id
        },
        maker_node: if sell_later {
            buy.id
        } else {
            sell.id
        },
        base_volume: base,
        quote_volume: quote,
    };
    &&& p.book.buys.len() > 0 && p.book.sells.len() > 0
    &&& buy.price.val() >= sell.price.val()
    &&& priced_by(buy, sell, b.price)
    &&& fills(buy.src_volume, sell.src_volume, b.price, base, quote, unit)
    &&& b.t.msgs == a.t.msgs + seq![
        MsgV::Transfer {
            src_id: buy.id,
            dst_id: sell.id,
            token: p.quote_token,
            volume: quote,
            allow_negative: false,
        },
        MsgV::Transfer {
            src_id: sell.id,
            dst_id: buy.id,
            token: p.base_token,
            volume: base,
            allow_negative: false,
        },
    ] + fees_asked(p.fee, precision, trade) + close_asked(
        first_gone(p.book.buys, b.t.pair.book.buys),
        buy.id,
    ) + close_asked(first_gone(p.book.sells, b.t.pair.book.sells), sell.id)
    &&& logs_more(
        p.logs,
        p.max_tra_log_length,
        b.t.pair.logs,
        TraLog {
            step_count: p.step_count,
            buy_node: buy.id,
            sell_node: sell.id,
            price: b.price.truncated(p.precision as nat),
            volume: base,
        },
    )
    &&& spends(Drt::Buy, p.book.buys, b.t.pair.book.buys, quote, buy_left, unit)
    &&& spends(Drt::Sell, p.book.sells, b.t.pair.book.sells, base, sell_left, unit)
    &&& receives(p.book.buys, b.t.pair.book.buys, base)
    &&& receives(p.book.sells, b.t.pair.book.sells, quote)
}

/// Whether one of the best two orders of a pair was closed without a trade: it has no price, or
/// there is nothing that the two could trade.
pub open spec fn limit_closed(a: Matching, b: Matching) -> bool {
    let p = a.t.pair;
    let buy = p.book.buys[0];
    let sell = p.book.sells[0];
    let nothing = epsilon().val();
    let unit = Decimal::step(p.precision as nat);
    let buy_closed = first_gone(p.book.buys, b.t.pair.book.buys) && b.t.pair.book.sells
        == p.book.sells && b.t.msgs == a.t.msgs.push(MsgV::CloseOrder { order_id: buy.id });
    let sell_closed = first_gone(p.book.sells, b.t.pair.book.sells) && b.t.pair.book.buys
        == p.book.buys && b.t.msgs == a.t.msgs.push(MsgV::CloseOrder { order_id: sell.id });
    &&& b.t.pair.logs == p.logs
    &&& {
        ||| buy_closed && buy.price.val() <= nothing && b.price == a.price
        ||| sell_closed && sell.price.val() <= nothing && b.price == a.price
        ||| buy_closed && buy.price.val() >= sell.price.val() > nothing && priced_by(
            buy,
            sell,
            b.price,
        ) && nothing_to_trade(buy.src_volume, sell.src_volume, b.price, unit)
    }
}

/// What a round of matching comes to.
pub open spec fn limit_step(a: Matching, b: Matching, precision: u8) -> bool {
    ||| limit_closed(a, b)
    ||| exists|base: Decimal, quote: Decimal, buy_left: Decimal, sell_left: Decimal| #[trigger]
        limit_traded(a, b, precision, base, quote, buy_left, sell_left)
}

/// The price of a trade.
proof fn lemma_priced_by(buy: OrderBrief, sell: OrderBrief)
    requires
        trade_price(buy, sell) is Some,
        buy.price.val() > 0,
        sell.price.val() > 0,
    ensures
        priced_by(buy, sell, trade_price(buy, sell)->0),
        (trade_price(buy, sell)->0).val() >= 0,
{
    if buy.step_count_created == sell.step_count_created {
        let both = decimal_sum(sell.price, buy.price)->0;
        let two = Decimal::of(2, 0);
        let v = trade_price(buy, sell)->0;
        sell.price.lemma_sum(buy.price);
        both.lemma_quotient(two);
        Decimal::lemma_of(2, 0);
        let w = Decimal::step(0);
        let (x, y) = (v.val(), both.val());
        assert(x * (2 * w) == 2 * x * w) by (nonlinear_arith);
        assert(y >= 0 ==> y * (2 * w) >= 0) by (nonlinear_arith)
            requires
                2 * w > 0,
        ;
    }
}

/// A round of matching trades the best two orders at the price of the earlier one, as much as they
/// can, or closes one of them that cannot trade.
pub proof fn law_match_round(m: Matching, precision: u8, unit: Decimal)
    requires
        m.t.pair.book.wf(),
        numbers_held(m.t.pair.book),
        m.t.pair.precision <= MAX_SCALE,
        unit == Decimal::of(1, m.t.pair.precision as nat),
        match_round(m, precision, unit) is Next,
    ensures
        limit_step(m, match_round(m, precision, unit)->Next_0, precision),
        numbers_held((match_round(m, precision, unit)->Next_0).t.pair.book),
        (match_round(m, precision, unit)->Next_0).t.pair.precision == m.t.pair.precision,
{
    let n = match_round(m, precision, unit)->Next_0;
    let p = m.t.pair;
    let b = p.book;
    let buy = b.buys[0];
    let sell = b.sells[0];
    let u = Decimal::step(p.precision as nat);
    b.lemma_cancel_best(Drt::Buy);
    b.lemma_cancel_best(Drt::Sell);
    lemma_units(p.precision);
    assert(buy.price.valid() && sell.price.valid());
    assert(buy.src_volume.valid() && sell.src_volume.valid());
    if buy.price.val() > epsilon().val() && sell.price.val() > epsilon().val() {
        let price = trade_price(buy, sell)->0;
        lemma_priced_by(buy, sell);
        lemma_fills(buy.src_volume, sell.src_volume, price, p.precision);
        let base = (decimal_quotient(buy.src_volume, price)->0).least(sell.src_volume).truncated(
            p.precision as nat,
        );
        let quote = (decimal_product(base, price)->0).least(buy.src_volume).truncated(
            p.precision as nat,
        );
        if base.val() > epsilon().val() {
            lemma_match_trade(m, precision, unit, price, base, quote);
        } else {
            assert(n.t.msgs =~= m.t.msgs.push(MsgV::CloseOrder { order_id: buy.id }));
            lemma_first_gone_held(b.buys);
            assert(limit_closed(m, n));
        }
    } else {
        if buy.price.val() <= epsilon().val() {
            assert(n.t.msgs =~= m.t.msgs.push(MsgV::CloseOrder { order_id: buy.id }));
            lemma_first_gone_held(b.buys);
        } else {
            assert(n.t.msgs =~= m.t.msgs.push(MsgV::CloseOrder { order_id: sell.id }));
            lemma_first_gone_held(b.sells);
        }
        assert(limit_closed(m, n));
    }
}

/// The numbers of a queue without its first order.
pub(crate) proof fn lemma_first_gone_held(q: Seq<OrderBrief>)
    requires
        q.len() > 0,
        forall|i: int|
            0 <= i < q.len() ==> (#[trigger] q[i]).price.valid() && q[i].src_volume.valid(),
    ensures
        forall|i: int|
            0 <= i < q.drop_first().len() ==> (#[trigger] q.drop_first()[i]).price.valid()
                && q.drop_first()[i].src_volume.valid(),
{
    assert forall|i: int| 0 <= i < q.drop_first().len() implies (
    #[trigger] q.drop_first()[i]).price.valid() && q.drop_first()[i].src_volume.valid() by {
        assert(q.drop_first()[i] == q[i + 1]);
    }
}

/// What becomes of the book and the messages once two orders are settled.
proof fn lemma_settled_both(
    t: Trading,
    buy_done: bool,
    buy_left: Decimal,
    buy_got: Decimal,
    sell_done: bool,
    sell_left: Decimal,
    sell_got: Decimal,
)
    requires
        t.pair.book.wf(),
        t.pair.book.buys.len() > 0,
        t.pair.book.sells.len() > 0,
    ensures
        ({
            let b = t.pair.book;
            let buy = b.buys[0];
            let sell = b.sells[0];
            let t1 = settled(t, buy_done, buy.id, buy_left, buy_got);
            let n = settled(t1, sell_done, sell.id, sell_left, sell_got);
            &&& n.pair.book.buys == if buy_done {
                b.buys.drop_first()
            } else {
                b.buys.update(
                    0,
                    OrderBrief { src_volume: buy_left, dst_volume: buy_got, ..buy },
                )
            }
            &&& n.pair.book.sells == if sell_done {
                b.sells.drop_first()
            } else {
                b.sells.update(
                    0,
                    OrderBrief { src_volume: sell_left, dst_volume: sell_got, ..sell },
                )
            }
            &&& n.msgs == t.msgs + close_asked(buy_done, buy.id) + close_asked(sell_done, sell.id)
            &&& n.pair.logs == t.pair.logs
            &&& n.pair.precision == t.pair.precision
        }),
{
    let b = t.pair.book;
    let buy = b.buys[0];
    let sell = b.sells[0];
    b.lemma_cancel_best(Drt::Buy);
    b.lemma_update_best(Drt::Buy, buy_left, buy_got);
    let t1 = settled(t, buy_done, buy.id, buy_left, buy_got);
    let b1 = t1.pair.book;
    assert(b1.sells == b.sells);
    b1.lemma_cancel_best(Drt::Sell);
    b1.lemma_update_best(Drt::Sell, sell_left, sell_got);
    let n = settled(t1, sell_done, sell.id, sell_left, sell_got);
    assert(n.msgs =~= t.msgs + close_asked(buy_done, buy.id) + close_asked(sell_done, sell.id));
}

/// The messages of a trade of two limit orders.
proof fn lemma_limit_msgs(
    m: Matching,
    n: Matching,
    precision: u8,
    base: Decimal,
    quote: Decimal,
    price: Decimal,
    buy_done: bool,
    sell_done: bool,
    t: Trading,
)
    requires
        m.t.pair.book.buys.len() > 0,
        m.t.pair.book.sells.len() > 0,
        limit_trade(
            m,
            precision,
            m.t.pair.book.buys[0],
            m.t.pair.book.sells[0],
            price,
            base,
            quote,
        ) == Some(t),
        n.t.msgs == t.msgs + close_asked(buy_done, m.t.pair.book.buys[0].id) + close_asked(
            sell_done,
            m.t.pair.book.sells[0].id,
        ),
    ensures
        ({
            let p = m.t.pair;
            let buy = p.book.buys[0];
            let sell = p.book.sells[0];
            let sell_later = sell.step_count_created > buy.step_count_created;
            let trade = FeeCtx {
                base_token: p.base_token,
                quote_token: p.quote_token,
                buyer_node: buy.id,
                seller_node: sell.id,
                taker_node: if sell_later {
                    sell.id
                } else {
                    buy.id
                },
                maker_node: if sell_later {
                    buy.id
                } else {
                    sell.id
                },
                base_volume: base,
                quote_volume: quote,
            };
            n.t.msgs == m.t.msgs + seq![
                MsgV::Transfer {
                    src_id: buy.id,
                    dst_id: sell.id,
                    token: p.quote_token,
                    volume: quote,
                    allow_negative: false,
                },
                MsgV::Transfer {
                    src_id: sell.id,
                    dst_id: buy.id,
                    token: p.base_token,
                    volume: base,
                    allow_negative: false,
                },
            ] + fees_asked(p.fee, precision, trade) + close_asked(buy_done, buy.id) + close_asked(
                sell_done,
                sell.id,
            )
        }),
{
    let p = m.t.pair;
    let buy = p.book.buys[0];
    let sell = p.book.sells[0];
    let trade = crate::matching::limit_fee_ctx(p, buy, sell, base, quote);
    lemma_fees_asked(p.fee, precision, trade);
}

/// What is asked for is what is due.
pub(crate) proof fn lemma_fees_asked(fee: Option<FeeFn>, precision: u8, trade: FeeCtx)
    requires
        fee_due(fee, precision, trade) is Some,
    ensures
        fee_due(fee, precision, trade)->0 == fees_asked(fee, precision, trade),
{
    assert(fee_due(fee, precision, trade)->0 =~= fees_asked(fee, precision, trade));
}

#[verifier::spinoff_prover]
#[verifier::rlimit(40)]
proof fn lemma_match_trade(
    m: Matching,
    precision: u8,
    unit: Decimal,
    price: Decimal,
    base: Decimal,
    quote: Decimal,
)
    requires
        m.t.pair.book.wf(),
        numbers_held(m.t.pair.book),
        m.t.pair.precision <= MAX_SCALE,
        unit == Decimal::of(1, m.t.pair.precision as nat),
        match_round(m, precision, unit) is Next,
        m.t.pair.book.buys[0].price.val() > epsilon().val(),
        m.t.pair.book.sells[0].price.val() > epsilon().val(),
        base.val() > epsilon().val(),
        epsilon().val() > 0,
        trade_price(m.t.pair.book.buys[0], m.t.pair.book.sells[0]) == Some(price),
        priced_by(m.t.pair.book.buys[0], m.t.pair.book.sells[0], price),
        decimal_quotient(m.t.pair.book.buys[0].src_volume, price) is Some,
        decimal_product(base, price) is Some,
        base == (decimal_quotient(m.t.pair.book.buys[0].src_volume, price)->0).least(
            m.t.pair.book.sells[0].src_volume,
        ).truncated(m.t.pair.precision as nat),
        quote == (decimal_product(base, price)->0).least(
            m.t.pair.book.buys[0].src_volume,
        ).truncated(m.t.pair.precision as nat),
        fills(
            m.t.pair.book.buys[0].src_volume,
            m.t.pair.book.sells[0].src_volume,
            price,
            base,
            quote,
            Decimal::step(m.t.pair.precision as nat),
        ),
        base.valid(),
        quote.valid(),
    ensures
        limit_step(m, match_round(m, precision, unit)->Next_0, precision),
        numbers_held((match_round(m, precision, unit)->Next_0).t.pair.book),
        (match_round(m, precision, unit)->Next_0).t.pair.precision == m.t.pair.precision,
{
    let n = match_round(m, precision, unit)->Next_0;
    let p = m.t.pair;
    let b = p.book;
    let buy = b.buys[0];
    let sell = b.sells[0];
    let u = Decimal::step(p.precision as nat);
    let t = limit_trade(m, precision, buy, sell, price, base, quote)->0;
    assert(t.pair.book == b);
    let buy_left = decimal_difference(buy.src_volume, quote)->0;
    let sell_left = decimal_difference(sell.src_volume, base)->0;
    buy.src_volume.lemma_difference(quote);
    sell.src_volume.lemma_difference(base);
    let buy_done = buy_spent(t.pair, unit, buy_left, buy.price)->0;
    let sell_done = sell_left.val() <= unit.val();
    lemma_spent(t.pair, unit, buy_left, buy.price);
    let buy_got = decimal_sum(buy.dst_volume, base)->0;
    let sell_got = decimal_sum(sell.dst_volume, quote)->0;
    lemma_settled_both(t, buy_done, buy_left, buy_got, sell_done, sell_left, sell_got);
    let buys = n.t.pair.book.buys;
    let sells = n.t.pair.book.sells;
    let bought = OrderBrief { src_volume: buy_left, dst_volume: buy_got, ..buy };
    let sold = OrderBrief { src_volume: sell_left, dst_volume: sell_got, ..sell };
    lemma_spends(Drt::Buy, b.buys, buys, buy_done, bought);
    lemma_spends(Drt::Sell, b.sells, sells, sell_done, sold);
    assert(n.t.pair.logs == t.pair.logs);
    lemma_limit_msgs(m, n, precision, base, quote, price, buy_done, sell_done, t);
    assert(limit_traded(m, n, precision, base, quote, buy_left, sell_left));
}

/// A queue whose first order was taken out or has another volume.
pub(crate) proof fn lemma_spends(
    d: Drt,
    q: Seq<OrderBrief>,
    r: Seq<OrderBrief>,
    done: bool,
    o: OrderBrief,
)
    requires
        q.len() > 0,
        r == if done {
            q.drop_first()
        } else {
            q.update(0, o)
        },
        o.id == q[0].id && o.price == q[0].price && o.direction == q[0].direction,
        o.step_count_created == q[0].step_count_created,
        o.src_token == q[0].src_token && o.dst_token == q[0].dst_token,
        o.src_volume.valid(),
        forall|i: int|
            0 <= i < q.len() ==> (#[trigger] q[i]).price.valid() && q[i].src_volume.valid(),
    ensures
        done ==> first_gone(q, r),
        !done ==> first_left(q, r, o.src_volume) && !first_gone(q, r),
        forall|i: int|
            0 <= i < r.len() ==> (#[trigger] r[i]).price.valid() && r[i].src_volume.valid(),
{
    if done {
        assert forall|i: int| 0 <= i < r.len() implies (#[trigger] r[i]).price.valid()
            && r[i].src_volume.valid() by {
            assert(r[i] == q[i + 1]);
        }
    } else {
        assert(r.drop_first() =~= q.drop_first());
        assert(r.len() == q.len() && q.drop_first().len() == q.len() - 1);
        assert(q[0].price.valid());
    }
}

/// Whether states follow each other, each by a round of matching.
pub open spec fn limit_steps(trace: Seq<Matching>, precision: u8) -> bool {
    trace.len() > 0 && forall|i: int|
        0 < i < trace.len() ==> limit_step(trace[i - 1], #[trigger] trace[i], precision)
}

proof fn lemma_match_all_steps(m: Matching, precision: u8, unit: Decimal) -> (trace: Seq<Matching>)
    requires
        m.t.pair.book.wf(),
        numbers_held(m.t.pair.book),
        m.t.pair.precision <= MAX_SCALE,
        unit == Decimal::of(1, m.t.pair.precision as nat),
        unit.val() > 0,
        match_all(m, precision, unit) is Some,
    ensures
        limit_steps(trace, precision),
        trace[0] == m,
        trace.last() == match_all(m, precision, unit)->0,
    decreases m.t.pair.book.count(), m.t.pair.book.potential(),
{
    match match_round(m, precision, unit) {
        Round::Next(n) => {
            lemma_match_round(m, precision, unit);
            law_match_round(m, precision, unit);
            let rest = lemma_match_all_steps(n, precision, unit);
            let trace = seq![m] + rest;
            assert forall|i: int| 0 < i < trace.len() implies limit_step(
                trace[i - 1],
                #[trigger] trace[i],
                precision,
            ) by {
                assert(trace[i] == rest[i - 1]);
                if i > 1 {
                    assert(trace[i - 1] == rest[i - 2]);
                }
            }
            trace
        },
        _ => seq![m],
    }
}

/// Matching limit orders is nothing but trades of the best two orders at the price of the earlier
/// one, each as large as it can be, and closing orders that cannot trade. The price of the pair
/// then is that of the last trade.
pub proof fn law_matched_at_the_earlier_price(t: Trading, precision: u8)
    requires
        t.pair.book.wf(),
        numbers_held(t.pair.book),
        matched(t, precision) is Some,
    ensures
        ({
            let r = matched(t, precision)->0;
            exists|trace: Seq<Matching>| #[trigger]
                limit_steps(trace, precision) && trace[0] == (Matching { t, price: t.pair.price })
                    && r.pair.book == trace.last().t.pair.book && r.pair.logs
                    == trace.last().t.pair.logs && r.msgs == trace.last().t.msgs && r.pair.price
                    == trace.last().price.truncated(t.pair.precision as nat)
        }),
{
    lemma_units(t.pair.precision);
    let unit = Decimal::unit_of(t.pair.precision)->0;
    let trace = lemma_match_all_steps(Matching { t, price: t.pair.price }, precision, unit);
    assert(limit_steps(trace, precision));
}

// ---- market orders ----

/// A trade that an owner takes and an order has made, as a fee strategy sees it.
pub open spec fn taken_at(
    p: PairV,
    buys: bool,
    owner: usize,
    maker: usize,
    base: Decimal,
    quote: Decimal,
) -> FeeCtx {
    FeeCtx {
        base_token: p.base_token,
        quote_token: p.quote_token,
        buyer_node: if buys {
            owner
        } else {
            maker
        },
        seller_node: if buys {
            maker
        } else {
            owner
        },
        taker_node: owner,
        maker_node: maker,
        base_volume: base,
        quote_volume: quote,
    }
}

/// Whether a market order traded `base` for `quote` with the best order of the other side. The
/// price is the limit of that order; the owner pays first and then gets what was bought; the fees are
/// asked for of the owner as the taker and of the order as the maker; the trade is logged and sets
/// the price of the pair; and both have less left by it.
pub open spec fn swap_traded(
    a: Swapping,
    b: Swapping,
    precision: u8,
    d: Drt,
    owner: usize,
    base: Decimal,
    quote: Decimal,
    left: Decimal,
) -> bool {
    let p = a.t.pair;
    let q = p.book.queue(opposite(d));
    let r = b.t.pair.book.queue(opposite(d));
    let o = q[0];
    let unit = Decimal::step(p.precision as nat);
    let buys = d == Drt::Buy;
    let (paid, received) = if buys {
        (quote, base)
    } else {
        (base, quote)
    };
    let off = difference_off(a.remaining, paid);
    &&& q.len() > 0
    &&& if buys {
        fills(a.remaining, o.src_volume, o.price, base, quote, unit)
    } else {
        fills(o.src_volume, a.remaining, o.price, base, quote, unit)
    }
    &&& b.transfers == a.transfers + seq![
        SwapTransfer {
            src_id: owner,
            dst_id: o.id,
            token: if buys {
                p.quote_token
            } else {
                p.base_token
            },
            volume: paid,
        },
        SwapTransfer {
            src_id: o.id,
            dst_id: owner,
            token: if buys {
                p.base_token
            } else {
                p.quote_token
            },
            volume: received,
        },
    ]
    &&& logs_more(
        p.logs,
        p.max_tra_log_length,
        b.t.pair.logs,
        TraLog {
            step_count: p.step_count,
            buy_node: if buys {
                owner
            } else {
                o.id
            },
            sell_node: if buys {
                o.id
            } else {
                owner
            },
            price: o.price,
            volume: base,
        },
    )
    &&& b.t.msgs == a.t.msgs + fees_asked(
        p.fee,
        precision,
        taken_at(p, buys, owner, o.id, base, quote),
    )
    &&& b.t.pair.price == o.price.truncated(p.precision as nat)
    &&& near(b.remaining.val(), a.remaining.val() - paid.val(), off, off)
    &&& spends(opposite(d), q, r, received, left, unit)
    &&& first_gone(q, r) || r[0].dst_volume == o.dst_volume
    &&& b.closes == if first_gone(q, r) {
        a.closes.push(o.id)
    } else {
        a.closes
    }
    &&& b.t.pair.book.queue(d) == p.book.queue(d)
}

/// Whether the best order of the other side was closed without a trade: it has no price, or there
/// is nothing that the two could trade.
pub open spec fn swap_closed(a: Swapping, b: Swapping, d: Drt) -> bool {
    let p = a.t.pair;
    let q = p.book.queue(opposite(d));
    let o = q[0];
    let unit = Decimal::step(p.precision as nat);
    &&& first_gone(q, b.t.pair.book.queue(opposite(d)))
    &&& b.t.pair.book.queue(d) == p.book.queue(d)
    &&& b.closes == a.closes.push(o.id)
    &&& b.transfers == a.transfers && b.remaining == a.remaining && b.t.msgs == a.t.msgs
    &&& b.t.pair.logs == p.logs && b.t.pair.price == p.price
    &&& o.price.val() <= epsilon().val() || if d == Drt::Buy {
        nothing_to_trade(a.remaining, o.src_volume, o.price, unit)
    } else {
        nothing_to_trade(o.src_volume, a.remaining, o.price, unit)
    }
}

/// What a round of a market order comes to.
pub open spec fn swap_step(
    a: Swapping,
    b: Swapping,
    precision: u8,
    d: Drt,
    owner: usize,
) -> bool {
    ||| swap_closed(a, b, d)
    ||| exists|base: Decimal, quote: Decimal, left: Decimal| #[trigger]
        swap_traded(a, b, precision, d, owner, base, quote, left)
}

/// A round of a market order trades with the best order of the other side at its limit, as much as
/// they can, or closes one that cannot trade.
#[verifier::spinoff_prover]
#[verifier::rlimit(60)]
pub proof fn law_swap_round(s: Swapping, precision: u8, unit: Decimal, d: Drt, owner: usize)
    requires
        s.t.pair.book.wf(),
        numbers_held(s.t.pair.book),
        s.remaining.valid(),
        s.t.pair.precision <= MAX_SCALE,
        unit == Decimal::of(1, s.t.pair.precision as nat),
        swap_round(s, precision, unit, d, owner) is Next,
    ensures
        swap_step(s, swap_round(s, precision, unit, d, owner)->Next_0, precision, d, owner),
        numbers_held((swap_round(s, precision, unit, d, owner)->Next_0).t.pair.book),
        (swap_round(s, precision, unit, d, owner)->Next_0).remaining.valid(),
        (swap_round(s, precision, unit, d, owner)->Next_0).t.pair.precision
            == s.t.pair.precision,
{
    let n = swap_round(s, precision, unit, d, owner)->Next_0;
    let p = s.t.pair;
    let b = p.book;
    let e = opposite(d);
    let q = b.queue(e);
    let o = q[0];
    let u = Decimal::step(p.precision as nat);
    b.lemma_cancel_best(e);
    lemma_units(p.precision);
    assert(forall|i: int|
        0 <= i < q.len() ==> (#[trigger] q[i]).price.valid() && q[i].src_volume.valid());
    assert(o.price.valid() && o.src_volume.valid());
    lemma_first_gone_held(q);
    let (cap, limit) = match d {
        Drt::Buy => (s.remaining, o.src_volume),
        Drt::Sell => (o.src_volume, s.remaining),
    };
    if o.price.val() > epsilon().val() {
        lemma_fills(cap, limit, o.price, p.precision);
        let base = fill_base(p, d, s.remaining, o)->0;
        let quote = fill_quote(p, d, s.remaining, o, Some(base))->0;
        if base.val() > epsilon().val() {
            lemma_swap_trade(s, precision, unit, d, owner, base, quote);
        } else {
            assert(swap_closed(s, n, d));
        }
    } else {
        assert(swap_closed(s, n, d));
    }
}

#[verifier::spinoff_prover]
#[verifier::rlimit(60)]
proof fn lemma_swap_trade(
    s: Swapping,
    precision: u8,
    unit: Decimal,
    d: Drt,
    owner: usize,
    base: Decimal,
    quote: Decimal,
)
    requires
        s.t.pair.book.wf(),
        numbers_held(s.t.pair.book),
        s.remaining.valid(),
        s.t.pair.precision <= MAX_SCALE,
        unit == Decimal::of(1, s.t.pair.precision as nat),
        swap_round(s, precision, unit, d, owner) is Next,
        s.t.pair.book.queue(opposite(d))[0].price.val() > epsilon().val(),
        epsilon().val() > 0,
        base.val() > epsilon().val(),
        base.valid(),
        quote.valid(),
        fill_base(s.t.pair, d, s.remaining, s.t.pair.book.queue(opposite(d))[0]) == Some(base),
        fill_quote(
            s.t.pair,
            d,
            s.remaining,
            s.t.pair.book.queue(opposite(d))[0],
            Some(base),
        ) == Some(quote),
        match d {
            Drt::Buy => fills(
                s.remaining,
                s.t.pair.book.queue(opposite(d))[0].src_volume,
                s.t.pair.book.queue(opposite(d))[0].price,
                base,
                quote,
                Decimal::step(s.t.pair.precision as nat),
            ),
            Drt::Sell => fills(
                s.t.pair.book.queue(opposite(d))[0].src_volume,
                s.remaining,
                s.t.pair.book.queue(opposite(d))[0].price,
                base,
                quote,
                Decimal::step(s.t.pair.precision as nat),
            ),
        },
    ensures
        swap_step(s, swap_round(s, precision, unit, d, owner)->Next_0, precision, d, owner),
        numbers_held((swap_round(s, precision, unit, d, owner)->Next_0).t.pair.book),
        (swap_round(s, precision, unit, d, owner)->Next_0).remaining.valid(),
        (swap_round(s, precision, unit, d, owner)->Next_0).t.pair.precision
            == s.t.pair.precision,
{
    let n = swap_round(s, precision, unit, d, owner)->Next_0;
    let p = s.t.pair;
    let b = p.book;
    let e = opposite(d);
    let q = b.queue(e);
    let o = q[0];
    b.lemma_cancel_best(e);
    assert(forall|i: int|
        0 <= i < q.len() ==> (#[trigger] q[i]).price.valid() && q[i].src_volume.valid());
    assert(o.price.valid() && o.src_volume.valid());
    let (paid, received) = match d {
        Drt::Buy => (quote, base),
        Drt::Sell => (base, quote),
    };
    let t = swap_trade(s.t, precision, d, owner, o, base, quote)->0;
    let left = decimal_difference(o.src_volume, received)->0;
    let rest = decimal_difference(s.remaining, paid)->0;
    o.src_volume.lemma_difference(received);
    s.remaining.lemma_difference(paid);
    Decimal::lemma_of(1, p.precision as nat);
    let u = Decimal::step(p.precision as nat);
    assert(1 * u == u) by (nonlinear_arith);
    let done = match d {
        Drt::Buy => left.val() <= unit.val(),
        Drt::Sell => buy_spent(t.pair, unit, left, o.price)->0,
    };
    if d == Drt::Sell {
        lemma_spent(t.pair, unit, left, o.price);
    }
    b.lemma_update_best(e, left, o.dst_volume);
    let kept = OrderBrief { src_volume: left, ..o };
    let r = n.t.pair.book.queue(e);
    assert(r == if done {
        q.drop_first()
    } else {
        q.update(0, kept)
    });
    lemma_spends(e, q, r, done, kept);
    lemma_fees_asked(p.fee, precision, taken_at(p, d == Drt::Buy, owner, o.id, base, quote));
    assert(swap_traded(s, n, precision, d, owner, base, quote, left));
}

/// Whether states follow each other, each by a round of a market order.
pub open spec fn swap_steps(
    trace: Seq<Swapping>,
    precision: u8,
    d: Drt,
    owner: usize,
) -> bool {
    trace.len() > 0 && forall|i: int|
        0 < i < trace.len() ==> swap_step(trace[i - 1], #[trigger] trace[i], precision, d, owner)
}

proof fn lemma_swap_all_steps(
    s: Swapping,
    precision: u8,
    unit: Decimal,
    d: Drt,
    owner: usize,
) -> (trace: Seq<Swapping>)
    requires
        s.t.pair.book.wf(),
        numbers_held(s.t.pair.book),
        s.remaining.valid(),
        s.t.pair.precision <= MAX_SCALE,
        unit == Decimal::of(1, s.t.pair.precision as nat),
        unit.val() > 0,
        epsilon().val() > 0,
        swap_all(s, precision, unit, d, owner) is Some,
    ensures
        swap_steps(trace, precision, d, owner),
        trace[0] == s,
        trace.last() == swap_all(s, precision, unit, d, owner)->0,
    decreases s.t.pair.book.count(), swap_potential(s),
{
    match swap_round(s, precision, unit, d, owner) {
        Round::Next(n) => {
            lemma_swap_round(s, precision, unit, d, owner);
            law_swap_round(s, precision, unit, d, owner);
            let rest = lemma_swap_all_steps(n, precision, unit, d, owner);
            let trace = seq![s] + rest;
            assert forall|i: int| 0 < i < trace.len() implies swap_step(
                trace[i - 1],
                #[trigger] trace[i],
                precision,
                d,
                owner,
            ) by {
                assert(trace[i] == rest[i - 1]);
                if i > 1 {
                    assert(trace[i - 1] == rest[i - 2]);
                }
            }
            trace
        },
        _ => seq![s],
    }
}

/// A market order is nothing but trades with the best order of the other side at its limit, each as
/// large as it can be, and closing orders that cannot trade: what it gives and what it gets are in
/// the ratio of the limits that it meets.
pub proof fn law_swapped_at_the_limits(
    t: Trading,
    precision: u8,
    d: Drt,
    owner: usize,
    volume: Decimal,
)
    requires
        t.pair.book.wf(),
        numbers_held(t.pair.book),
        volume.valid(),
        swapped(t, precision, d, owner, volume) is Some,
    ensures
        exists|trace: Seq<Swapping>| #[trigger]
            swap_steps(trace, precision, d, owner) && trace[0] == (Swapping {
                t,
                transfers: Seq::empty(),
                closes: Seq::empty(),
                remaining: volume,
            }) && trace.last() == swapped(t, precision, d, owner, volume)->0,
{
    lemma_units(t.pair.precision);
    let unit = Decimal::unit_of(t.pair.precision)->0;
    let s = Swapping { t, transfers: Seq::empty(), closes: Seq::empty(), remaining: volume };
    let trace = lemma_swap_all_steps(s, precision, unit, d, owner);
    assert(swap_steps(trace, precision, d, owner));
}

} // verus!
