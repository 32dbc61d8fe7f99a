//! How pairs trade whose counterparty is a contract.

use crate::decimal::{decimal_product, decimal_quotient, Decimal, MAX_SCALE};
use crate::matching::{epsilon, swap_fee_ctx, PairV};
use crate::node::{Drt, MsgV};
use crate::number_laws::{product_over, product_under, quotient_over, quotient_under};
use crate::order::OrderBrief;
use crate::order_book::BookV;
use crate::pool_laws::near;
use crate::price_laws::{close_asked, fees_asked, lemma_fees_asked, logs_more, taken_at};
use crate::trade_log::TraLog;
use crate::virtual_pair::{all_cancelled, VirtualTrading, VirtualV};
use vstd::prelude::*;

verus! {

// ---- one trade ----

/// Whether a pair traded with its contract: the contract is called in the name of the taker, the
/// fees are asked for of the taker and of the contract as the maker, the trade is logged at the
/// price of the pair, and nothing else of the pair changes. What the fees are reckoned from is worth
/// each other at that price.
pub open spec fn contract_traded(
    a: VirtualTrading,
    b: VirtualTrading,
    precision: u8,
    d: Drt,
    taker: usize,
    volume: Decimal,
    called: Decimal,
    base: Decimal,
    quote: Decimal,
) -> bool {
    let p = a.v.pair;
    let maker = a.v.contract_slave_id;
    let buys = d == Drt::Buy;
    let one = Decimal::step(0);
    &&& logs_more(
        p.logs,
        p.max_tra_log_length,
        b.v.pair.logs,
        TraLog {
            step_count: p.step_count,
            buy_node: if buys {
                taker
            } else {
                maker
            },
            sell_node: if buys {
                maker
            } else {
                taker
            },
            price: p.price,
            volume,
        },
    )
    &&& b.v == (VirtualV { pair: PairV { logs: b.v.pair.logs, ..p }, ..a.v })
    &&& p.fee is Some && buys ==> quote == volume && near(
        base.val() * p.price.val(),
        volume.val() * one,
        quotient_over(volume, p.price),
        quotient_under(volume, p.price),
    )
    &&& p.fee is Some && !buys ==> base == volume && near(
        quote.val() * one,
        volume.val() * p.price.val(),
        product_over(volume, p.price),
        product_under(volume, p.price),
    )
    &&& b.msgs == a.msgs + seq![
        MsgV::CallContract {
            src_id: taker,
            contract_id: maker,
            fn_id: a.v.fn_id,
            volume: called,
        },
    ] + fees_asked(p.fee, precision, taken_at(p, buys, taker, maker, base, quote))
}

/// Whether a contract is called for a volume: with the quote token that is paid in, or below zero
/// with the quote token that what is sold is worth at the pair's price, rounded to the nearest unit.
pub open spec fn called_for(p: PairV, d: Drt, volume: Decimal, called: Decimal) -> bool {
    let one = Decimal::step(0);
    let unit = Decimal::step(p.precision as nat);
    match d {
        Drt::Buy => called == volume,
        Drt::Sell => near(
            -2 * called.val() * one,
            2 * volume.val() * p.price.val(),
            unit * one + 2 * product_over(volume, p.price),
            unit * one + 2 * product_under(volume, p.price),
        ),
    }
}

/// Whether a contract is called for a market order out of several: as for a single one, but the
/// quote token `worth` that what is sold is worth is not rounded.
pub open spec fn called_for_share(
    p: PairV,
    d: Drt,
    volume: Decimal,
    called: Decimal,
    worth: Decimal,
) -> bool {
    let one = Decimal::step(0);
    match d {
        Drt::Buy => near(
            called.val() * one,
            volume.val() * Decimal::of(1, 0).val(),
            product_over(volume, Decimal::of(1, 0)),
            product_under(volume, Decimal::of(1, 0)),
        ),
        Drt::Sell => {
            &&& near(
                worth.val() * one,
                volume.val() * p.price.val(),
                product_over(volume, p.price),
                product_under(volume, p.price),
            )
            &&& near(
                -called.val() * one,
                worth.val() * one,
                product_under(worth, Decimal::of(1, 0).negated()),
                product_over(worth, Decimal::of(1, 0).negated()),
            )
        },
    }
}

proof fn lemma_contract_traded(
    a: VirtualTrading,
    precision: u8,
    d: Drt,
    taker: usize,
    volume: Decimal,
    call: Option<Decimal>,
) -> (r: (Decimal, Decimal))
    requires
        a.traded(precision, d, taker, volume, call) is Some,
    ensures
        call is Some,
        contract_traded(
            a,
            a.traded(precision, d, taker, volume, call)->0,
            precision,
            d,
            taker,
            volume,
            call->0,
            r.0,
            r.1,
        ),
{
    let p = a.v.pair;
    let maker = a.v.contract_slave_id;
    let b = a.traded(precision, d, taker, volume, call)->0;
    let base = match d {
        Drt::Buy => decimal_quotient(volume, p.price)->0,
        Drt::Sell => volume,
    };
    let quote = match d {
        Drt::Buy => volume,
        Drt::Sell => decimal_product(volume, p.price)->0,
    };
    let trade = taken_at(p, d == Drt::Buy, taker, maker, base, quote);
    assert(swap_fee_ctx(p, d, taker, maker, base, quote) == trade);
    if p.fee is Some {
        lemma_fees_asked(p.fee, precision, trade);
    }
    let fees = a.v.fees(precision, d, taker, volume)->0;
    assert(fees =~= fees_asked(p.fee, precision, trade));
    assert(b.msgs =~= a.msgs + seq![a.v.call(taker, call->0)] + fees);
    assert(p.logs.push(
        TraLog {
            step_count: p.step_count,
            buy_node: if d == Drt::Buy { taker } else { maker },
            sell_node: if d == Drt::Buy { maker } else { taker },
            price: p.price,
            volume,
        },
    ).drop_first() == p.logs.push(
        TraLog {
            step_count: p.step_count,
            buy_node: if d == Drt::Buy { taker } else { maker },
            sell_node: if d == Drt::Buy { maker } else { taker },
            price: p.price,
            volume,
        },
    ).skip(1));
    (base, quote)
}

proof fn lemma_called_for(v: VirtualV, d: Drt, volume: Decimal)
    requires
        v.call_volume(d, volume) is Some,
        v.pair.precision <= MAX_SCALE,
    ensures
        called_for(v.pair, d, volume, v.call_volume(d, volume)->0),
{
    if d == Drt::Sell {
        let one = Decimal::step(0);
        let unit = Decimal::step(v.pair.precision as nat);
        volume.lemma_product(v.pair.price);
        let quote = decimal_product(volume, v.pair.price)->0;
        let r = quote.rounded(v.pair.precision as nat);
        quote.law_rounded(v.pair.precision as nat);
        r.lemma_negated();
        Decimal::lemma_steps(0, v.pair.precision as nat);
        let x = quote.val();
        let y = r.val();
        assert(2 * (x - y) * one <= unit * one && 2 * (y - x) * one <= unit * one)
            by (nonlinear_arith)
            requires
                2 * (x - y) <= unit,
                2 * (y - x) <= unit,
                one > 0,
        ;
        assert(2 * (x - y) * one == 2 * (x * one) - 2 * (y * one)) by (nonlinear_arith);
        assert(2 * (y - x) * one == 2 * (y * one) - 2 * (x * one)) by (nonlinear_arith);
        assert(-2 * (-y) * one == 2 * (y * one)) by (nonlinear_arith);
        assert(2 * volume.val() * v.pair.price.val() == 2 * (volume.val() * v.pair.price.val()))
            by (nonlinear_arith);
    }
}

/// Whether a pair traded a market order with its contract.
pub open spec fn contract_swapped(
    a: VirtualTrading,
    b: VirtualTrading,
    precision: u8,
    d: Drt,
    owner: usize,
    volume: Decimal,
) -> bool {
    exists|called: Decimal, base: Decimal, quote: Decimal|
        called_for(a.v.pair, d, volume, called) && #[trigger] contract_traded(
            a,
            b,
            precision,
            d,
            owner,
            volume,
            called,
            base,
            quote,
        )
}

/// A market order of a pair with a contract calls the contract once for all of it: with the quote
/// token that the owner pays, or below zero with what the base token is worth at the pair's price,
/// rounded to the nearest unit.
pub proof fn law_contract_swap(
    t: VirtualTrading,
    precision: u8,
    d: Drt,
    owner: usize,
    volume: Decimal,
)
    requires
        t.swapped(precision, d, owner, volume) is Some,
        t.v.pair.precision <= MAX_SCALE,
    ensures
        contract_swapped(
            t,
            t.swapped(precision, d, owner, volume)->0,
            precision,
            d,
            owner,
            volume,
        ),
{
    let call = t.v.call_volume(d, volume);
    let (base, quote) = lemma_contract_traded(t, precision, d, owner, volume, call);
    lemma_called_for(t.v, d, volume);
    assert(contract_traded(
        t,
        t.swapped(precision, d, owner, volume)->0,
        precision,
        d,
        owner,
        volume,
        call->0,
        base,
        quote,
    ));
}

// ---- several market orders ----

/// Whether a pair traded a market order out of several with its contract.
pub open spec fn contract_shared(
    a: VirtualTrading,
    b: VirtualTrading,
    precision: u8,
    d: Drt,
    swap: (usize, Decimal),
) -> bool {
    exists|called: Decimal, worth: Decimal, base: Decimal, quote: Decimal|
        #[trigger] called_for_share(a.v.pair, d, swap.1, called, worth)
            && #[trigger] contract_traded(
            a,
            b,
            precision,
            d,
            swap.0,
            swap.1,
            called,
            base,
            quote,
        )
}

/// Whether a pair went through these states, one for each market order.
pub open spec fn contract_shares(
    trace: Seq<VirtualTrading>,
    precision: u8,
    d: Drt,
    swaps: Seq<(usize, Decimal)>,
) -> bool {
    &&& trace.len() == swaps.len() + 1
    &&& forall|i: int|
        0 < i < trace.len() ==> contract_shared(
            trace[i - 1],
            #[trigger] trace[i],
            precision,
            d,
            swaps[i - 1],
        )
}

/// Market orders of a pair with a contract are traded one after the other, each with a call of the
/// contract for all of it.
pub proof fn law_contract_swaps(
    t: VirtualTrading,
    precision: u8,
    d: Drt,
    swaps: Seq<(usize, Decimal)>,
)
    requires
        t.batched(precision, d, swaps, swaps.len()) is Some,
    ensures
        exists|trace: Seq<VirtualTrading>| #[trigger]
            contract_shares(trace, precision, d, swaps) && trace[0] == t && trace.last()
                == t.batched(precision, d, swaps, swaps.len())->0,
{
    let trace = lemma_contract_shares(t, precision, d, swaps, swaps.len());
    assert(swaps.take(swaps.len() as int) =~= swaps);
}

proof fn lemma_contract_shares(
    t: VirtualTrading,
    precision: u8,
    d: Drt,
    swaps: Seq<(usize, Decimal)>,
    k: nat,
) -> (trace: Seq<VirtualTrading>)
    requires
        k <= swaps.len(),
        t.batched(precision, d, swaps, k) is Some,
    ensures
        contract_shares(trace, precision, d, swaps.take(k as int)),
        trace[0] == t,
        trace.last() == t.batched(precision, d, swaps, k)->0,
    decreases k,
{
    if k == 0 {
        seq![t]
    } else {
        let before = lemma_contract_shares(t, precision, d, swaps, (k - 1) as nat);
        let a = t.batched(precision, d, swaps, (k - 1) as nat)->0;
        let b = t.batched(precision, d, swaps, k)->0;
        let (owner, volume) = swaps[k - 1];
        let call = a.v.batch_volume(d, volume);
        let (base, quote) = lemma_contract_traded(a, precision, d, owner, volume, call);
        let worth = decimal_product(volume, a.v.pair.price)->0;
        lemma_called_for_share(a.v, d, volume);
        assert(called_for_share(a.v.pair, d, swaps[k - 1].1, call->0, worth));
        assert(contract_traded(a, b, precision, d, swaps[k - 1].0, swaps[k - 1].1, call->0, base, quote));
        assert(contract_shared(a, b, precision, d, swaps[k - 1]));
        let trace = before.push(b);
        assert forall|i: int| 0 < i < trace.len() implies contract_shared(
            trace[i - 1],
            #[trigger] trace[i],
            precision,
            d,
            swaps.take(k as int)[i - 1],
        ) by {
            if i < before.len() {
                assert(before[i] == trace[i]);
                assert(swaps.take(k as int)[i - 1] == swaps.take(k - 1)[i - 1]);
            }
        }
        trace
    }
}

proof fn lemma_called_for_share(v: VirtualV, d: Drt, volume: Decimal)
    requires
        v.batch_volume(d, volume) is Some,
    ensures
        called_for_share(
            v.pair,
            d,
            volume,
            v.batch_volume(d, volume)->0,
            decimal_product(volume, v.pair.price)->0,
        ),
{
    let one = Decimal::step(0);
    Decimal::lemma_of(1, 0);
    Decimal::of(1, 0).lemma_negated();
    if d == Drt::Sell {
        let worth = decimal_product(volume, v.pair.price)->0;
        let m = Decimal::of(1, 0).negated();
        let called = decimal_product(worth, m)->0;
        assert(worth.val() * m.val() == -(worth.val() * one)) by (nonlinear_arith)
            requires
                m.val() == -one,
        ;
        assert(-called.val() * one == -(called.val() * one)) by (nonlinear_arith);
    }
}

// ---- limit orders ----

/// Whether a pair with a contract dealt with a limit order of its book. An order with too little
/// left is closed. One whose limit the contract's price does not meet is left alone, but by a pair
/// that takes market orders only. Any other is traded as a market order for all that it has left,
/// and closed.
pub open spec fn contract_offered(
    a: VirtualTrading,
    b: VirtualTrading,
    precision: u8,
    d: Drt,
    o: OrderBrief,
) -> bool {
    let price = a.v.pair.price.val();
    let least = epsilon().val();
    let meets = price > least && match d {
        Drt::Buy => price <= o.price.val(),
        Drt::Sell => price >= o.price.val(),
    };
    if o.src_volume.val() <= least {
        b.v == a.v && b.msgs == a.msgs + close_asked(true, o.id)
    } else if meets || a.v.swap_only {
        exists|c: VirtualTrading| #[trigger]
            contract_swapped(a, c, precision, d, o.id, o.src_volume) && b.v == c.v && b.msgs
                == c.msgs + close_asked(true, o.id)
    } else {
        b == a
    }
}

proof fn lemma_contract_offered(a: VirtualTrading, precision: u8, d: Drt, o: OrderBrief)
    requires
        a.offered(precision, d, o) is Some,
        a.v.pair.precision <= MAX_SCALE,
    ensures
        contract_offered(a, a.offered(precision, d, o)->0, precision, d, o),
        (a.offered(precision, d, o)->0).v.pair.precision == a.v.pair.precision,
{
    let b = a.offered(precision, d, o)->0;
    if o.src_volume.val() <= epsilon().val() {
        assert(b.msgs =~= a.msgs + close_asked(true, o.id));
    } else if !a.v.passes_over(d, o) {
        let c = a.swapped(precision, d, o.id, o.src_volume)->0;
        law_contract_swap(a, precision, d, o.id, o.src_volume);
        assert(b.msgs =~= c.msgs + close_asked(true, o.id));
        assert(contract_swapped(a, c, precision, d, o.id, o.src_volume));
    }
}

/// Whether a pair with a contract went through these states, one for each of some limit orders.
pub open spec fn contract_offers(
    trace: Seq<VirtualTrading>,
    precision: u8,
    orders: Seq<(Drt, OrderBrief)>,
) -> bool {
    &&& trace.len() == orders.len() + 1
    &&& forall|i: int|
        0 < i < trace.len() ==> contract_offered(
            trace[i - 1],
            #[trigger] trace[i],
            precision,
            orders[i - 1].0,
            orders[i - 1].1,
        )
}

/// The orders of a queue, each with its side.
pub open spec fn on_side(d: Drt, q: Seq<OrderBrief>) -> Seq<(Drt, OrderBrief)> {
    q.map_values(|o: OrderBrief| (d, o))
}

/// Matching deals with every limit order of a pair with a contract, the buy orders first and the
/// best ones first, and leaves none in the book.
pub proof fn law_contract_match(t: VirtualTrading, precision: u8)
    requires
        t.matched(precision) is Some,
        t.v.pair.precision <= MAX_SCALE,
        t.v.pair.book.wf(),
    ensures
        ({
            let book = t.v.pair.book;
            let r = t.matched(precision)->0;
            let orders = on_side(Drt::Buy, book.buys) + on_side(Drt::Sell, book.sells);
            &&& r.v.pair.book.buys.len() == 0
            &&& r.v.pair.book.sells.len() == 0
            &&& exists|trace: Seq<VirtualTrading>| #[trigger]
                contract_offers(trace, precision, orders) && trace[0] == t && trace.last().msgs
                    == r.msgs && r.v == (VirtualV {
                    pair: PairV { book: r.v.pair.book, ..trace.last().v.pair },
                    ..trace.last().v
                })
        }),
{
    let book = t.v.pair.book;
    let buys = book.buys;
    let sells = book.sells;
    let t1 = t.all_offered(precision, Drt::Buy, buys, buys.len())->0;
    let first = lemma_contract_offers(t, precision, Drt::Buy, buys, buys.len());
    let second = lemma_contract_offers(t1, precision, Drt::Sell, sells, sells.len());
    let orders = on_side(Drt::Buy, buys) + on_side(Drt::Sell, sells);
    let trace = first + second.skip(1);
    assert(buys.take(buys.len() as int) =~= buys);
    assert(sells.take(sells.len() as int) =~= sells);
    assert forall|i: int| 0 < i < trace.len() implies contract_offered(
        trace[i - 1],
        #[trigger] trace[i],
        precision,
        orders[i - 1].0,
        orders[i - 1].1,
    ) by {
        if i < first.len() {
            assert(first[i] == trace[i]);
        } else {
            let j = i - first.len() + 1;
            assert(second[j] == trace[i]);
            assert(second[j - 1] == trace[i - 1]);
            assert(orders[i - 1] == on_side(Drt::Sell, sells)[j - 1]);
        }
    }
    assert(contract_offers(trace, precision, orders));
    lemma_all_gone(book);
}

proof fn lemma_contract_offers(
    t: VirtualTrading,
    precision: u8,
    d: Drt,
    q: Seq<OrderBrief>,
    k: nat,
) -> (trace: Seq<VirtualTrading>)
    requires
        k <= q.len(),
        t.all_offered(precision, d, q, k) is Some,
        t.v.pair.precision <= MAX_SCALE,
    ensures
        contract_offers(trace, precision, on_side(d, q.take(k as int))),
        trace[0] == t,
        trace.last() == t.all_offered(precision, d, q, k)->0,
        trace.last().v.pair.precision == t.v.pair.precision,
    decreases k,
{
    if k == 0 {
        seq![t]
    } else {
        let before = lemma_contract_offers(t, precision, d, q, (k - 1) as nat);
        let a = t.all_offered(precision, d, q, (k - 1) as nat)->0;
        lemma_contract_offered(a, precision, d, q[k - 1]);
        let b = t.all_offered(precision, d, q, k)->0;
        let trace = before.push(b);
        let orders = on_side(d, q.take(k as int));
        assert forall|i: int| 0 < i < trace.len() implies contract_offered(
            trace[i - 1],
            #[trigger] trace[i],
            precision,
            orders[i - 1].0,
            orders[i - 1].1,
        ) by {
            if i < before.len() {
                assert(before[i] == trace[i]);
                assert(orders[i - 1] == on_side(d, q.take(k - 1))[i - 1]);
            }
        }
        trace
    }
}

/// A book after the first `k` of some orders were cancelled knows none of them, and no other order
/// than before.
proof fn lemma_none_known(book: BookV, q: Seq<OrderBrief>, k: nat)
    requires
        book.wf(),
        k <= q.len(),
    ensures
        all_cancelled(book, q, k).wf(),
        forall|i: int|
            0 <= i < k ==> !all_cancelled(book, q, k).index.dom().contains((#[trigger] q[i]).id),
        forall|id: usize| #[trigger]
            all_cancelled(book, q, k).index.dom().contains(id) ==> book.index.dom().contains(id),
    decreases k,
{
    if k > 0 {
        lemma_none_known(book, q, (k - 1) as nat);
        all_cancelled(book, q, (k - 1) as nat).lemma_cancelled_wf(q[k - 1].id);
    }
}

/// A book all of whose orders were cancelled is empty.
proof fn lemma_all_gone(book: BookV)
    requires
        book.wf(),
    ensures
        ({
            let first = all_cancelled(book, book.buys, book.buys.len());
            let r = all_cancelled(first, book.sells, book.sells.len());
            r.buys.len() == 0 && r.sells.len() == 0
        }),
{
    let first = all_cancelled(book, book.buys, book.buys.len());
    let r = all_cancelled(first, book.sells, book.sells.len());
    lemma_none_known(book, book.buys, book.buys.len());
    lemma_none_known(first, book.sells, book.sells.len());
    assert forall|id: usize| !(#[trigger] r.index.dom().contains(id)) by {
        if r.index.dom().contains(id) {
            assert(first.index.dom().contains(id));
            assert(book.index.dom().contains(id));
            assert(book.standing(id));
            let k = book.index[id];
            let at = crate::order_book::rank(book.queue(k.direction), k.direction, k.price, k.time, id);
            match k.direction {
                Drt::Buy => {
                    assert(book.buys[at as int].id == id);
                },
                Drt::Sell => {
                    assert(book.sells[at as int].id == id);
                },
            }
        }
    }
    assert(r.indexed(Drt::Buy) && r.indexed(Drt::Sell));
    if r.buys.len() > 0 {
        assert(r.index.dom().contains(r.queue(Drt::Buy)[0].id));
    }
    if r.sells.len() > 0 {
        assert(r.index.dom().contains(r.queue(Drt::Sell)[0].id));
    }
}

/// A new limit order of a pair with a contract that takes market orders only is traded at once for
/// all of it, whatever its limit, and closed.
pub proof fn law_contract_order_at_once(t: VirtualTrading, precision: u8, b: OrderBrief)
    requires
        t.inserted(precision, b) is Some,
        t.v.swap_only,
        t.v.pair.precision <= MAX_SCALE,
    ensures
        ({
            let r = t.inserted(precision, b)->0;
            exists|c: VirtualTrading| #[trigger]
                contract_swapped(t, c, precision, b.direction, b.id, b.src_volume) && r.v == c.v
                    && r.msgs == c.msgs + close_asked(true, b.id)
        }),
{
    let r = t.inserted(precision, b)->0;
    let c = t.swapped(precision, b.direction, b.id, b.src_volume)->0;
    law_contract_swap(t, precision, b.direction, b.id, b.src_volume);
    assert(r.msgs =~= c.msgs + close_asked(true, b.id));
    assert(contract_swapped(t, c, precision, b.direction, b.id, b.src_volume));
}

} // verus!
