//! What trading leaves behind: which orders are closed, and how much is spent.

use crate::decimal::{
    decimal_difference, decimal_quotient, decimal_sum, opt_least, opt_product, Decimal,
};
use crate::ledger_laws::{exact_difference, exact_sum};
use crate::matching::{
    available, batch_all, batch_round, batched, epsilon, fill_base, fill_quote, lemma_match_round,
    lemma_units, match_all, match_round, matched, opposite, paid_out, settled, shared_out, swap_all,
    swap_potential, swap_round, swap_smaller, swap_trade, swap_transfers, swapped, total_of, Batch,
    Matching, PairV, Round, Swapping, Trading, BATCH_ROUNDS,
};
use crate::node::{Drt, MsgV, SwapTransfer};
use crate::order::OrderBrief;
use crate::trading_laws::{law_fill_volumes, lemma_cut_off, lemma_shared_out};
use vstd::prelude::*;

verus! {

// ---- which orders are closed ----

/// Whether a request to close an order is among the messages from a position on.
pub open spec fn asked(msgs: Seq<MsgV>, from: int, id: usize) -> bool {
    exists|i: int| from <= i < msgs.len() && #[trigger] msgs[i] == (MsgV::CloseOrder { order_id: id })
}

/// Whether the orders that a pair took out of its book are exactly those that it asked to close
/// meanwhile.
pub open spec fn closed_as_asked(a: Trading, b: Trading) -> bool {
    &&& a.msgs.is_prefix_of(b.msgs)
    &&& forall|id: usize|
        b.pair.book.index.dom().contains(id) ==> #[trigger] a.pair.book.index.dom().contains(id)
    &&& forall|id: usize| #[trigger]
        asked(b.msgs, a.msgs.len() as int, id) <==> a.pair.book.index.dom().contains(id)
            && !b.pair.book.index.dom().contains(id)
}

proof fn lemma_asked_twice(a: Trading, b: Trading, c: Trading)
    requires
        closed_as_asked(a, b),
        closed_as_asked(b, c),
    ensures
        closed_as_asked(a, c),
{
    assert forall|id: usize| #[trigger] asked(c.msgs, a.msgs.len() as int, id) <==> (asked(
        b.msgs,
        a.msgs.len() as int,
        id,
    ) || asked(c.msgs, b.msgs.len() as int, id)) by {
        let close = MsgV::CloseOrder { order_id: id };
        if asked(c.msgs, a.msgs.len() as int, id) {
            let i = choose|i: int| a.msgs.len() <= i < c.msgs.len() && #[trigger] c.msgs[i] == close;
            if i < b.msgs.len() {
                assert(b.msgs[i] == c.msgs[i]);
            }
        }
        if asked(b.msgs, a.msgs.len() as int, id) {
            let i = choose|i: int| a.msgs.len() <= i < b.msgs.len() && #[trigger] b.msgs[i] == close;
            assert(c.msgs[i] == b.msgs[i]);
        }
        if asked(c.msgs, b.msgs.len() as int, id) {
            let i = choose|i: int| b.msgs.len() <= i < c.msgs.len() && #[trigger] c.msgs[i] == close;
            assert(c.msgs[i] == close);
        }
    }
    assert forall|id: usize| #[trigger] asked(c.msgs, a.msgs.len() as int, id) <==> (
    a.pair.book.index.dom().contains(id) && !c.pair.book.index.dom().contains(id)) by {
        assert(asked(b.msgs, a.msgs.len() as int, id) <==> a.pair.book.index.dom().contains(id)
            && !b.pair.book.index.dom().contains(id));
        assert(asked(c.msgs, b.msgs.len() as int, id) <==> b.pair.book.index.dom().contains(id)
            && !c.pair.book.index.dom().contains(id));
    }
}

proof fn lemma_asked_closing(t: Trading, id: usize)
    requires
        t.pair.book.index.dom().contains(id),
    ensures
        closed_as_asked(t, t.closing(id)),
{
    let n = t.closing(id);
    assert(n.msgs[t.msgs.len() as int] == (MsgV::CloseOrder { order_id: id }));
    assert forall|x: usize| #[trigger] asked(n.msgs, t.msgs.len() as int, x) <==> (
    t.pair.book.index.dom().contains(x) && !n.pair.book.index.dom().contains(x)) by {}
}

/// Messages that ask for no order to be closed, and a book of the same orders.
proof fn lemma_asked_nothing(a: Trading, b: Trading)
    requires
        a.msgs.is_prefix_of(b.msgs),
        forall|i: int|
            a.msgs.len() <= i < b.msgs.len() ==> !((#[trigger] b.msgs[i]) is CloseOrder),
        b.pair.book.index.dom() == a.pair.book.index.dom(),
    ensures
        closed_as_asked(a, b),
{
}

proof fn lemma_asked_settled(t: Trading, spent: bool, id: usize, left: Decimal, received: Decimal)
    requires
        t.pair.book.index.dom().contains(id),
    ensures
        closed_as_asked(t, settled(t, spent, id, left, received)),
{
    if spent {
        lemma_asked_closing(t, id);
    } else {
        lemma_asked_nothing(t, settled(t, spent, id, left, received));
    }
}

proof fn lemma_asked_round(m: Matching, precision: u8, unit: Decimal)
    requires
        m.t.pair.book.wf(),
        match_round(m, precision, unit) is Next,
    ensures
        closed_as_asked(m.t, match_round(m, precision, unit)->Next_0.t),
{
    let p = m.t.pair;
    let b = p.book;
    let buy = b.buys[0];
    let sell = b.sells[0];
    let eps = epsilon().val();
    assert(b.indexed(Drt::Buy) && b.indexed(Drt::Sell));
    assert(b.queue(Drt::Buy)[0] == buy && b.queue(Drt::Sell)[0] == sell);
    lemma_asked_closing(m.t, buy.id);
    lemma_asked_closing(m.t, sell.id);
    if buy.price.val() <= eps || sell.price.val() <= eps {
    } else {
        let price = crate::matching::trade_price(buy, sell);
        let base = p.round(
            opt_least(
                crate::decimal::opt_quotient(Some(buy.src_volume), price),
                Some(sell.src_volume),
            ),
        );
        let quote = p.round(opt_least(opt_product(base, price), Some(buy.src_volume)));
        if (base->0).val() > eps {
            let t = crate::matching::limit_trade(
                m,
                precision,
                buy,
                sell,
                price->0,
                base->0,
                quote->0,
            )->0;
            lemma_asked_nothing(m.t, t);
            let buy_left = decimal_difference(buy.src_volume, quote->0)->0;
            let sell_left = decimal_difference(sell.src_volume, base->0)->0;
            let buy_done = crate::matching::buy_spent(t.pair, unit, buy_left, buy.price)->0;
            let sell_done = sell_left.val() <= unit.val();
            let buy_got = decimal_sum(buy.dst_volume, base->0)->0;
            let sell_got = decimal_sum(sell.dst_volume, quote->0)->0;
            let t1 = settled(t, buy_done, buy.id, buy_left, buy_got);
            lemma_asked_settled(t, buy_done, buy.id, buy_left, buy_got);
            lemma_asked_twice(m.t, t, t1);
            assert(buy.id != sell.id);
            lemma_asked_settled(t1, sell_done, sell.id, sell_left, sell_got);
            lemma_asked_twice(m.t, t1, settled(t1, sell_done, sell.id, sell_left, sell_got));
        }
    }
}

proof fn lemma_asked_all(m: Matching, precision: u8, unit: Decimal)
    requires
        m.t.pair.book.wf(),
        unit.val() > 0,
        match_all(m, precision, unit) is Some,
    ensures
        closed_as_asked(m.t, (match_all(m, precision, unit)->0).t),
    decreases m.t.pair.book.count(), m.t.pair.book.potential(),
{
    match match_round(m, precision, unit) {
        Round::Next(n) => {
            lemma_asked_round(m, precision, unit);
            lemma_match_round(m, precision, unit);
            lemma_asked_all(n, precision, unit);
            lemma_asked_twice(m.t, n.t, (match_all(m, precision, unit)->0).t);
        },
        _ => {
            lemma_asked_nothing(m.t, m.t);
        },
    }
}

/// The orders that matching takes out of the book are exactly those that it asks to be closed.
pub proof fn law_matched_closes(t: Trading, precision: u8)
    requires
        t.pair.book.wf(),
        matched(t, precision) is Some,
    ensures
        closed_as_asked(t, matched(t, precision)->0),
{
    lemma_units(t.pair.precision);
    let unit = Decimal::unit_of(t.pair.precision)->0;
    let m = Matching { t, price: t.pair.price };
    lemma_asked_all(m, precision, unit);
    let n = match_all(m, precision, unit)->0;
    lemma_asked_nothing(n.t, matched(t, precision)->0);
    lemma_asked_twice(t, n.t, matched(t, precision)->0);
}

// ---- how much a market order spends ----

/// What is paid in transfers that come in pairs, a payment and then what was bought for it.
pub open spec fn paid_in(transfers: Seq<SwapTransfer>) -> int
    decreases transfers.len(),
{
    if transfers.len() < 2 {
        0
    } else {
        paid_in(transfers.take(transfers.len() - 2)) + transfers[transfers.len() - 2].volume.val()
    }
}

proof fn lemma_paid_more(transfers: Seq<SwapTransfer>, more: Seq<SwapTransfer>)
    requires
        more.len() == 2,
    ensures
        paid_in(transfers + more) == paid_in(transfers) + more[0].volume.val(),
{
    let all = transfers + more;
    assert(all.take(all.len() - 2) =~= transfers);
}

/// What a market order pays in a trade with an order, and what it receives.
pub open spec fn fill_of(p: PairV, d: Drt, remaining: Decimal, o: OrderBrief) -> (
    Option<Decimal>,
    Option<Decimal>,
) {
    let base = fill_base(p, d, remaining, o);
    let quote = fill_quote(p, d, remaining, o, base);
    match d {
        Drt::Buy => (quote, base),
        Drt::Sell => (base, quote),
    }
}

/// Whether the volumes of a trade of a market order can be held, and what is left of it is
/// computed exactly.
pub open spec fn fill_exact(p: PairV, d: Drt, remaining: Decimal, o: OrderBrief) -> bool {
    &&& remaining.valid()
    &&& o.src_volume.valid() && o.src_volume.val() >= 0
    &&& fill_of(p, d, remaining, o).0 matches Some(paid) ==> exact_difference(remaining, paid)
}

/// Whether the volumes of all trades of a market order can be held, and what is left of it is
/// computed exactly each time.
pub open spec fn swap_exact(
    s: Swapping,
    precision: u8,
    unit: Decimal,
    d: Drt,
    owner: usize,
) -> bool
    decreases s.t.pair.book.count(), swap_potential(s),
{
    match swap_round(s, precision, unit, d, owner) {
        Round::Next(n) => fill_exact(
            s.t.pair,
            d,
            s.remaining,
            s.t.pair.book.queue(opposite(d))[0],
        ) && (swap_smaller(n, s) ==> swap_exact(n, precision, unit, d, owner)),
        _ => true,
    }
}

proof fn lemma_swap_spends(s: Swapping, precision: u8, unit: Decimal, d: Drt, owner: usize)
    requires
        s.remaining.val() >= 0,
        swap_all(s, precision, unit, d, owner) is Some,
        swap_exact(s, precision, unit, d, owner),
    ensures
        ({
            let n = swap_all(s, precision, unit, d, owner)->0;
            &&& paid_in(n.transfers) + n.remaining.val() == paid_in(s.transfers)
                + s.remaining.val()
            &&& n.remaining.val() >= 0
        }),
    decreases s.t.pair.book.count(), swap_potential(s),
{
    match swap_round(s, precision, unit, d, owner) {
        Round::Next(n) => {
            let p = s.t.pair;
            let o = p.book.queue(opposite(d))[0];
            let (paid, received) = fill_of(p, d, s.remaining, o);
            let base = fill_base(p, d, s.remaining, o);
            if o.price.val() > epsilon().val() && (base->0).val() > epsilon().val() {
                law_fill_volumes(p, d, s.remaining, o);
                let more = swap_transfers(p, d, owner, o.id, paid->0, received->0);
                lemma_paid_more(s.transfers, more);
                assert(n.transfers == s.transfers + more);
            }
            lemma_swap_spends(n, precision, unit, d, owner);
        },
        _ => {},
    }
}

/// A market order never spends more than its volume: what it pays in all its trades and what it
/// has left are its volume together, and what is left is not negative. The numbers must be exact.
pub proof fn law_market_order_spends(
    t: Trading,
    precision: u8,
    d: Drt,
    owner: usize,
    volume: Decimal,
)
    requires
        volume.val() >= 0,
        swapped(t, precision, d, owner, volume) is Some,
        swap_exact(
            Swapping { t, transfers: Seq::empty(), closes: Seq::empty(), remaining: volume },
            precision,
            Decimal::unit_of(t.pair.precision)->0,
            d,
            owner,
        ),
    ensures
        ({
            let n = swapped(t, precision, d, owner, volume)->0;
            &&& paid_in(n.transfers) + n.remaining.val() == volume.val()
            &&& 0 <= n.remaining.val()
            &&& paid_in(n.transfers) <= volume.val()
        }),
{
    lemma_swap_spends(
        Swapping { t, transfers: Seq::empty(), closes: Seq::empty(), remaining: volume },
        precision,
        Decimal::unit_of(t.pair.precision)->0,
        d,
        owner,
    );
}

// ---- how much several market orders spend ----

/// The state after the share at position `i` was paid out, what is gone of the order then, and
/// what was received for it.
pub open spec fn share_paid(
    b: Batch,
    consumed: Decimal,
    precision: u8,
    d: Drt,
    o: OrderBrief,
    swaps: Seq<(usize, Decimal)>,
    share: (usize, Decimal),
) -> Option<(Batch, Decimal, Decimal)> {
    let j = share.0 as int;
    let paid = share.1;
    let owner = swaps[j].0;
    let worth = match d {
        Drt::Buy => decimal_quotient(paid, o.price),
        Drt::Sell => opt_product(Some(paid), Some(o.price)),
    };
    let received = b.t.pair.round(opt_least(worth, decimal_difference(o.src_volume, consumed)));
    if received is None {
        None
    } else if (received->0).val() <= epsilon().val() {
        Some((b, consumed, Decimal::of(0, 0)))
    } else {
        let (base, quote) = match d {
            Drt::Buy => (received->0, paid),
            Drt::Sell => (paid, received->0),
        };
        let t = swap_trade(b.t, precision, d, owner, o, base, quote);
        let rest = decimal_difference(b.remain[j], paid);
        let gone = decimal_sum(consumed, received->0);
        if t is None || rest is None || gone is None {
            None
        } else {
            Some(
                (
                    Batch {
                        t: t->0,
                        transfers: b.transfers + swap_transfers(
                            b.t.pair,
                            d,
                            owner,
                            o.id,
                            paid,
                            received->0,
                        ),
                        closes: b.closes,
                        remain: b.remain.update(j, rest->0),
                    },
                    gone->0,
                    received->0,
                ),
            )
        }
    }
}

/// Whether the sums and differences of the shares from `i` on are computed exactly.
pub open spec fn shares_exact(
    b: Batch,
    consumed: Decimal,
    precision: u8,
    d: Drt,
    o: OrderBrief,
    swaps: Seq<(usize, Decimal)>,
    shares: Seq<(usize, Decimal)>,
    i: nat,
) -> bool
    decreases shares.len() - i,
{
    i < shares.len() ==> {
        let share = shares[i as int];
        &&& decimal_difference(o.src_volume, consumed) matches Some(v) ==> v.val()
            == o.src_volume.val() - consumed.val()
        &&& share_paid(b, consumed, precision, d, o, swaps, share) matches Some(
            (n, gone, received),
        ) ==> {
            &&& received.val() > epsilon().val() ==> exact_sum(consumed, received)
                && exact_difference(b.remain[share.0 as int], share.1)
            &&& shares_exact(n, gone, precision, d, o, swaps, shares, i + 1)
        }
    }
}

/// What a node pays in transfers that come in pairs, a payment and then what was bought for it.
pub open spec fn paid_by(owner: usize, transfers: Seq<SwapTransfer>) -> int
    decreases transfers.len(),
{
    if transfers.len() < 2 {
        0
    } else {
        let t = transfers[transfers.len() - 2];
        paid_by(owner, transfers.take(transfers.len() - 2)) + if t.src_id == owner {
            t.volume.val()
        } else {
            0
        }
    }
}

pub(crate) proof fn lemma_paid_by_more(owner: usize, transfers: Seq<SwapTransfer>, more: Seq<SwapTransfer>)
    requires
        more.len() == 2,
    ensures
        paid_by(owner, transfers + more) == paid_by(owner, transfers) + if more[0].src_id == owner {
            more[0].volume.val()
        } else {
            0
        },
{
    let all = transfers + more;
    assert(all.take(all.len() - 2) =~= transfers);
}

/// What is left to the market orders of a node together, out of the first `k`.
pub open spec fn left_to(
    owner: usize,
    swaps: Seq<(usize, Decimal)>,
    remain: Seq<Decimal>,
    k: nat,
) -> int
    decreases k,
{
    if k == 0 {
        0
    } else {
        left_to(owner, swaps, remain, (k - 1) as nat) + if swaps[k - 1].0 == owner {
            remain[k - 1].val()
        } else {
            0
        }
    }
}

pub(crate) proof fn lemma_left_updated(
    owner: usize,
    swaps: Seq<(usize, Decimal)>,
    remain: Seq<Decimal>,
    k: nat,
    j: int,
    v: Decimal,
)
    requires
        0 <= j < remain.len(),
        k <= remain.len(),
    ensures
        left_to(owner, swaps, remain.update(j, v), k) == left_to(owner, swaps, remain, k) + if j < k
            && swaps[j].0 == owner {
            v.val() - remain[j].val()
        } else {
            0
        },
    decreases k,
{
    if k > 0 {
        lemma_left_updated(owner, swaps, remain, (k - 1) as nat, j, v);
    }
}

/// Market orders that share an order take no more from it than it has, and what a node pays is
/// what its market orders have less afterwards: what it pays and what they have left stay the same
/// together. The numbers must be exact.
pub proof fn law_shares_spend(
    b: Batch,
    consumed: Decimal,
    precision: u8,
    d: Drt,
    o: OrderBrief,
    swaps: Seq<(usize, Decimal)>,
    shares: Seq<(usize, Decimal)>,
    i: nat,
    owner: usize,
)
    requires
        b.remain.len() == swaps.len(),
        forall|j: int| 0 <= j < shares.len() ==> (#[trigger] shares[j]).0 < swaps.len(),
        0 <= consumed.val() <= o.src_volume.val(),
        paid_out(b, consumed, precision, d, o, swaps, shares, i) is Some,
        shares_exact(b, consumed, precision, d, o, swaps, shares, i),
    ensures
        ({
            let (n, gone) = paid_out(b, consumed, precision, d, o, swaps, shares, i)->0;
            &&& consumed.val() <= gone.val() <= o.src_volume.val()
            &&& n.remain.len() == b.remain.len()
            &&& paid_by(owner, n.transfers) + left_to(owner, swaps, n.remain, swaps.len())
                == paid_by(owner, b.transfers) + left_to(owner, swaps, b.remain, swaps.len())
        }),
    decreases shares.len() - i,
{
    lemma_units(0);
    if i < shares.len() {
        let share = shares[i as int];
        let (n, gone, received) = share_paid(b, consumed, precision, d, o, swaps, share)->0;
        let j = share.0 as int;
        let worth = match d {
            Drt::Buy => decimal_quotient(share.1, o.price),
            Drt::Sell => opt_product(Some(share.1), Some(o.price)),
        };
        let most = opt_least(worth, decimal_difference(o.src_volume, consumed));
        let cut = b.t.pair.round(most);
        share.1.lemma_quotient(o.price);
        share.1.lemma_product(o.price);
        o.src_volume.lemma_difference(consumed);
        lemma_cut_off(most->0, b.t.pair.precision);
        if (cut->0).val() > epsilon().val() {
            let more = swap_transfers(b.t.pair, d, swaps[j].0, o.id, share.1, cut->0);
            lemma_paid_by_more(owner, b.transfers, more);
            assert(n.transfers == b.transfers + more);
            lemma_left_updated(owner, swaps, b.remain, swaps.len(), j, n.remain[j]);
            assert(n.remain =~= b.remain.update(j, n.remain[j]));
        }
        law_shares_spend(n, gone, precision, d, o, swaps, shares, i + 1, owner);
    }
}

/// The order that a round of a batch shares, and the shares, where there are any.
pub open spec fn round_shares(b: Batch, total: Decimal, unit: Decimal, d: Drt) -> Option<
    (OrderBrief, Seq<(usize, Decimal)>),
> {
    let o = b.t.pair.book.queue(opposite(d))[0];
    match available(d, o, total) {
        Some(avail) => if o.price.val() <= epsilon().val() || avail.val() <= epsilon().val() {
            None
        } else {
            match shared_out(b.t.pair, unit, avail, total, b.remain) {
                Some(shares) => if shares.len() == 0 {
                    None
                } else {
                    Some((o, shares))
                },
                None => None,
            }
        },
        None => None,
    }
}

/// Whether the sums and differences of a batch are computed exactly.
pub open spec fn batch_exact(
    b: Batch,
    precision: u8,
    unit: Decimal,
    d: Drt,
    swaps: Seq<(usize, Decimal)>,
    rounds: nat,
) -> bool
    decreases rounds,
{
    match total_of(b.remain) {
        Some(total) => rounds == 0 || total.val() <= epsilon().val() || match batch_round(
            b,
            total,
            precision,
            unit,
            d,
            swaps,
        ) {
            Round::Next(n) => {
                &&& round_shares(b, total, unit, d) matches Some((o, shares)) ==> o.src_volume.val()
                    >= 0 && shares_exact(b, Decimal::of(0, 0), precision, d, o, swaps, shares, 0)
                &&& batch_exact(n, precision, unit, d, swaps, (rounds - 1) as nat)
            },
            _ => true,
        },
        None => true,
    }
}

proof fn lemma_batch_spends(
    b: Batch,
    precision: u8,
    unit: Decimal,
    d: Drt,
    swaps: Seq<(usize, Decimal)>,
    rounds: nat,
    owner: usize,
)
    requires
        b.remain.len() == swaps.len(),
        swaps.len() <= usize::MAX,
        batch_all(b, precision, unit, d, swaps, rounds) is Some,
        batch_exact(b, precision, unit, d, swaps, rounds),
    ensures
        ({
            let n = batch_all(b, precision, unit, d, swaps, rounds)->0;
            &&& n.remain.len() == swaps.len()
            &&& paid_by(owner, n.transfers) + left_to(owner, swaps, n.remain, swaps.len())
                == paid_by(owner, b.transfers) + left_to(owner, swaps, b.remain, swaps.len())
        }),
    decreases rounds,
{
    let total = total_of(b.remain)->0;
    if total.val() > epsilon().val() && rounds > 0 {
        match batch_round(b, total, precision, unit, d, swaps) {
            Round::Next(n) => {
                Decimal::lemma_zero();
                if let Some((o, shares)) = round_shares(b, total, unit, d) {
                    lemma_shared_out(
                        b.t.pair,
                        unit,
                        available(d, o, total)->0,
                        total,
                        b.remain,
                    );
                    law_shares_spend(
                        b,
                        Decimal::of(0, 0),
                        precision,
                        d,
                        o,
                        swaps,
                        shares,
                        0,
                        owner,
                    );
                }
                lemma_batch_spends(n, precision, unit, d, swaps, (rounds - 1) as nat, owner);
            },
            _ => {},
        }
    }
}

/// What a node pays in a batch of market orders, and what its market orders have left, are
/// together the volumes that it asked for. The numbers must be exact.
pub proof fn law_batch_spends(
    t: Trading,
    precision: u8,
    d: Drt,
    swaps: Seq<(usize, Decimal)>,
    owner: usize,
)
    requires
        swaps.len() <= usize::MAX,
        batched(t, precision, d, swaps) is Some,
        batch_exact(
            Batch {
                t,
                transfers: Seq::empty(),
                closes: Seq::empty(),
                remain: swaps.map_values(|s: (usize, Decimal)| s.1),
            },
            precision,
            Decimal::unit_of(t.pair.precision)->0,
            d,
            swaps,
            BATCH_ROUNDS as nat,
        ),
    ensures
        ({
            let n = batched(t, precision, d, swaps)->0;
            let volumes = swaps.map_values(|s: (usize, Decimal)| s.1);
            paid_by(owner, n.transfers) + left_to(owner, swaps, n.remain, swaps.len()) == left_to(
                owner,
                swaps,
                volumes,
                swaps.len(),
            )
        }),
{
    lemma_batch_spends(
        Batch {
            t,
            transfers: Seq::empty(),
            closes: Seq::empty(),
            remain: swaps.map_values(|s: (usize, Decimal)| s.1),
        },
        precision,
        Decimal::unit_of(t.pair.precision)->0,
        d,
        swaps,
        BATCH_ROUNDS as nat,
        owner,
    );
}

} // verus!
