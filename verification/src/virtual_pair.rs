//! Pairs whose counterparty is a contract.

use crate::decimal::{decimal_product, decimal_quotient, Decimal};
use crate::fee::{ask_for, fee_due, FeeCtx, FeeFn};
use crate::matching::{epsilon, swap_fee_ctx, PairV};
use crate::node::{
    CoreV, Drt, KindV, Msg, MsgV, Node, NodeCore, NodeV, OrderBookDepth, SwapTransfer,
};
use crate::order::OrderBrief;
use crate::order_book::{BookV, OrderBook};
use crate::pair_node::{depth_at, PairNode};
use crate::trade_log::{
    aggregate, aggregate_last, copy_logs, push_log, CandleData, TraLog,
};
use std::collections::VecDeque;
use vstd::prelude::*;

verus! {

/// A pair whose counterparty is a contract: every trade calls the contract.
#[verifier::ext_equal]
pub struct VirtualV {
    pub pair: PairV,
    pub swap_only: bool,
    pub contract_slave_id: usize,
    pub fn_id: u8,
}

impl VirtualV {
    /// What the contract is called with for a volume: the quote token is positive where it is
    /// paid in, negative where it is taken out.
    pub open spec fn call_volume(self, d: Drt, volume: Decimal) -> Option<Decimal> {
        match d {
            Drt::Buy => Some(volume),
            Drt::Sell => match decimal_product(volume, self.pair.price) {
                Some(quote) => Some(quote.rounded(self.pair.precision as nat).negated()),
                None => None,
            },
        }
    }

    /// What the contract is called with for a market order out of several: not rounded.
    pub open spec fn batch_volume(self, d: Drt, volume: Decimal) -> Option<Decimal> {
        match d {
            Drt::Buy => decimal_product(volume, Decimal::of(1, 0)),
            Drt::Sell => match decimal_product(volume, self.pair.price) {
                Some(quote) => decimal_product(quote, Decimal::of(1, 0).negated()),
                None => None,
            },
        }
    }

    /// What the fee strategy charges for a trade of `volume`, if there is one.
    pub open spec fn fees(self, precision: u8, d: Drt, taker: usize, volume: Decimal) -> Option<
        Seq<MsgV>,
    > {
        if self.pair.fee is None {
            Some(Seq::empty())
        } else {
            let base = match d {
                Drt::Buy => decimal_quotient(volume, self.pair.price),
                Drt::Sell => Some(volume),
            };
            let quote = match d {
                Drt::Buy => Some(volume),
                Drt::Sell => decimal_product(volume, self.pair.price),
            };
            if base is None || quote is None {
                None
            } else {
                fee_due(
                    self.pair.fee,
                    precision,
                    swap_fee_ctx(
                        self.pair,
                        d,
                        taker,
                        self.contract_slave_id,
                        base->0,
                        quote->0,
                    ),
                )
            }
        }
    }

    pub open spec fn call(self, src_id: usize, volume: Decimal) -> MsgV {
        MsgV::CallContract {
            src_id,
            contract_id: self.contract_slave_id,
            fn_id: self.fn_id,
            volume,
        }
    }
}

/// A virtual pair and the messages that it has sent.
#[verifier::ext_equal]
pub struct VirtualTrading {
    pub v: VirtualV,
    pub msgs: Seq<MsgV>,
}

impl VirtualTrading {
    /// A trade with the contract: the call, the log entry and the fee.
    pub open spec fn traded(
        self,
        precision: u8,
        d: Drt,
        taker: usize,
        volume: Decimal,
        call: Option<Decimal>,
    ) -> Option<VirtualTrading> {
        let slave = self.v.contract_slave_id;
        let (buyer, seller) = if d == Drt::Buy {
            (taker, slave)
        } else {
            (slave, taker)
        };
        let fees = self.v.fees(precision, d, taker, volume);
        if call is None || fees is None {
            None
        } else {
            Some(
                VirtualTrading {
                    v: VirtualV {
                        pair: self.v.pair.with_log(buyer, seller, self.v.pair.price, volume),
                        ..self.v
                    },
                    msgs: self.msgs.push(self.v.call(taker, call->0)) + fees->0,
                },
            )
        }
    }

    /// A market order: the contract is called for all of it.
    pub open spec fn swapped(
        self,
        precision: u8,
        d: Drt,
        owner: usize,
        volume: Decimal,
    ) -> Option<VirtualTrading> {
        self.traded(precision, d, owner, volume, self.v.call_volume(d, volume))
    }

    /// The first `k` market orders out of several.
    pub open spec fn batched(
        self,
        precision: u8,
        d: Drt,
        swaps: Seq<(usize, Decimal)>,
        k: nat,
    ) -> Option<VirtualTrading>
        decreases k,
    {
        if k == 0 {
            Some(self)
        } else {
            match self.batched(precision, d, swaps, (k - 1) as nat) {
                Some(t) => t.traded(
                    precision,
                    d,
                    swaps[k - 1].0,
                    swaps[k - 1].1,
                    t.v.batch_volume(d, swaps[k - 1].1),
                ),
                None => None,
            }
        }
    }

    /// What becomes of a limit order: it is traded with the contract where the contract's price
    /// meets its limit, and then closed; it is closed where nothing is left of it.
    pub open spec fn offered(self, precision: u8, d: Drt, o: OrderBrief) -> Option<VirtualTrading> {
        let close = MsgV::CloseOrder { order_id: o.id };
        if o.src_volume.val() <= epsilon().val() {
            Some(VirtualTrading { msgs: self.msgs.push(close), ..self })
        } else if self.v.passes_over(d, o) {
            Some(self)
        } else {
            match self.traded(
                precision,
                d,
                o.id,
                o.src_volume,
                self.v.call_volume(d, o.src_volume),
            ) {
                Some(t) => Some(VirtualTrading { msgs: t.msgs.push(close), ..t }),
                None => None,
            }
        }
    }

    /// What becomes of the first `k` limit orders of a queue.
    pub open spec fn all_offered(
        self,
        precision: u8,
        d: Drt,
        q: Seq<OrderBrief>,
        k: nat,
    ) -> Option<VirtualTrading>
        decreases k,
    {
        if k == 0 {
            Some(self)
        } else {
            match self.all_offered(precision, d, q, (k - 1) as nat) {
                Some(t) => t.offered(precision, d, q[k - 1]),
                None => None,
            }
        }
    }

    pub open spec fn with_book(self, book: BookV) -> VirtualTrading {
        VirtualTrading {
            v: VirtualV { pair: PairV { book, ..self.v.pair }, ..self.v },
            ..self
        }
    }

    /// All limit orders offered to the contract and taken out of the book, whether they traded or
    /// not: an order whose limit the contract's price does not meet stays open with its whole
    /// volume, but no later match offers it again.
    pub open spec fn matched(self, precision: u8) -> Option<VirtualTrading> {
        let buys = self.v.pair.book.buys;
        let sells = self.v.pair.book.sells;
        match self.all_offered(precision, Drt::Buy, buys, buys.len()) {
            Some(t1) => match t1.all_offered(precision, Drt::Sell, sells, sells.len()) {
                Some(t2) => Some(
                    t2.with_book(
                        all_cancelled(
                            all_cancelled(self.v.pair.book, buys, buys.len()),
                            sells,
                            sells.len(),
                        ),
                    ),
                ),
                None => None,
            },
            None => None,
        }
    }

    /// A new limit order. A pair that takes market orders only trades it at once, whatever its
    /// limit.
    pub open spec fn inserted(self, precision: u8, b: OrderBrief) -> Option<VirtualTrading> {
        if self.v.swap_only {
            match self.swapped(precision, b.direction, b.id, b.src_volume) {
                Some(t) => Some(
                    VirtualTrading {
                        msgs: t.msgs.push(MsgV::CloseOrder { order_id: b.id }),
                        ..t
                    },
                ),
                None => None,
            }
        } else {
            self.with_book(self.v.pair.book.inserted(b)).matched(precision)
        }
    }
}

impl VirtualV {
    /// Whether a limit order is passed over: something is left of it and the contract's price does
    /// not meet its limit.
    pub open spec fn passes_over(self, d: Drt, o: OrderBrief) -> bool {
        let price = self.pair.price.val();
        &&& o.src_volume.val() > epsilon().val()
        &&& !self.swap_only
        &&& price <= epsilon().val() || (d == Drt::Buy && price > o.price.val()) || (d == Drt::Sell
            && price < o.price.val())
    }
}

/// A book after the first `k` of some orders were cancelled.
pub open spec fn all_cancelled(book: BookV, q: Seq<OrderBrief>, k: nat) -> BookV
    decreases k,
{
    if k == 0 {
        book
    } else {
        all_cancelled(book, q, (k - 1) as nat).cancelled(q[k - 1].id)
    }
}

/// A pair whose counterparty is a contract.
pub struct VirtualPair {
    core: NodeCore,
    quote_token: usize,
    base_token: usize,
    price: Decimal,
    step_count: u64,
    max_tra_log_length: usize,
    precision: u8,
    swap_only: bool,
    contract_slave_id: usize,
    fn_id: u8,
    fee_fn: Option<FeeFn>,
    order_book: OrderBook,
    tra_logs: VecDeque<TraLog>,
}

impl View for VirtualPair {
    type V = NodeV;

    closed spec fn view(&self) -> NodeV {
        NodeV { core: self.core@, kind: KindV::Virtual(self.model()) }
    }
}

impl Node for VirtualPair {
    fn base(&self) -> (r: &NodeCore) {
        &self.core
    }

    fn base_mut(&mut self) -> (r: &mut NodeCore) {
        &mut self.core
    }

    fn update(&mut self, step_count: u64) {
        self.step_count = step_count;
    }

    fn is_open(&self) -> (r: bool) {
        false
    }
}

impl VirtualPair {
    spec fn model(self) -> VirtualV {
        VirtualV {
            pair: PairV {
                quote_token: self.quote_token,
                base_token: self.base_token,
                price: self.price,
                step_count: self.step_count,
                max_tra_log_length: self.max_tra_log_length,
                precision: self.precision,
                fee: self.fee_fn,
                book: self.order_book@,
                logs: self.tra_logs@,
            },
            swap_only: self.swap_only,
            contract_slave_id: self.contract_slave_id,
            fn_id: self.fn_id,
        }
    }

    spec fn trading(self) -> VirtualTrading {
        VirtualTrading { v: self.model(), msgs: self.core@.msgs }
    }

    /// A virtual pair at a price of one.
    pub fn new(
        contract_slave_id: usize,
        fn_id: u8,
        quote_token: usize,
        base_token: usize,
        max_tra_log_length: usize,
        precision: u8,
        swap_only: bool,
    ) -> (r: VirtualPair)
        ensures
            r@ == (NodeV {
                core: CoreV::empty(),
                kind: KindV::Virtual(
                    VirtualV {
                        pair: PairV::fresh(
                            quote_token,
                            base_token,
                            Decimal::of(1, 0),
                            max_tra_log_length,
                            precision,
                        ),
                        swap_only,
                        contract_slave_id,
                        fn_id,
                    },
                ),
            }),
    {
        VirtualPair {
            core: NodeCore::new(),
            quote_token,
            base_token,
            price: Decimal::one(),
            step_count: 0,
            max_tra_log_length,
            precision,
            swap_only,
            contract_slave_id,
            fn_id,
            fee_fn: None,
            order_book: OrderBook::new(),
            tra_logs: VecDeque::new(),
        }
    }

    /// A virtual pair is a virtual pair.
    pub broadcast proof fn lemma_kind(self)
        ensures
            (#[trigger] self@).kind is Virtual,
    {
    }

    /// The node of the contract.
    pub fn get_contract_slave_id(&self) -> (r: usize)
        ensures
            r == self@.kind->Virtual_0.contract_slave_id,
    {
        self.contract_slave_id
    }

    /// The function of the contract that trades call.
    pub fn get_fn_id(&self) -> (r: u8)
        ensures
            r == self@.kind->Virtual_0.fn_id,
    {
        self.fn_id
    }

    /// Sets the price that the contract quotes.
    pub fn set_cached_price(&mut self, price: Decimal)
        ensures
            final(self)@ == old(self)@.priced(price),
    {
        self.price = price;
    }

    /// What the contract is called with for a volume.
    fn volume_to_call(&self, direction: Drt, volume: Decimal) -> (r: Option<Decimal>)
        ensures
            r == self.model().call_volume(direction, volume),
    {
        match direction {
            Drt::Buy => Some(volume),
            Drt::Sell => Some(volume.checked_mul(self.price)?.round_dp(self.precision).neg()),
        }
    }

    /// A trade with the contract: the call, the log entry and the fee.
    fn trade(
        &mut self,
        precision: u8,
        direction: Drt,
        taker: usize,
        volume: Decimal,
        call: Decimal,
    ) -> (r: Option<()>)
        ensures
            final(self).core@ == (CoreV { msgs: final(self).core@.msgs, ..old(self).core@ }),
            ({
                let t = old(self).trading().traded(
                    precision,
                    direction,
                    taker,
                    volume,
                    Some(call),
                );
                &&& r is Some == t is Some
                &&& r is Some ==> final(self).trading() == t->0
            }),
    {
        self.core.send_msg(
            Msg::CallContract {
                src_id: taker,
                contract_id: self.contract_slave_id,
                fn_id: self.fn_id,
                volume: call,
            },
        );
        let (buyer_node, seller_node) = match direction {
            Drt::Buy => (taker, self.contract_slave_id),
            Drt::Sell => (self.contract_slave_id, taker),
        };
        let log = TraLog {
            step_count: self.step_count,
            buy_node: buyer_node,
            sell_node: seller_node,
            price: self.price,
            volume,
        };
        push_log(&mut self.tra_logs, self.max_tra_log_length, log);
        if let Some(fee) = &self.fee_fn {
            let base_volume = match direction {
                Drt::Buy => volume.checked_div(self.price)?,
                Drt::Sell => volume,
            };
            let quote_volume = match direction {
                Drt::Buy => volume,
                Drt::Sell => volume.checked_mul(self.price)?,
            };
            let fees = fee.charge(
                precision,
                FeeCtx {
                    base_token: self.base_token,
                    quote_token: self.quote_token,
                    buyer_node,
                    seller_node,
                    taker_node: taker,
                    maker_node: self.contract_slave_id,
                    base_volume,
                    quote_volume,
                },
            )?;
            self.core.append_msgs(ask_for(fees));
        }
        assert(self.trading().msgs =~= old(self).trading().traded(
            precision,
            direction,
            taker,
            volume,
            Some(call),
        )->0.msgs);
        Some(())
    }

    /// Whether a limit order is passed over: something is left of it and the contract's price does
    /// not meet its limit.
    fn is_passed_over(&self, direction: Drt, order: &OrderBrief) -> (r: bool)
        ensures
            r == self.model().passes_over(direction, *order),
    {
        let eps = Decimal::new(1, 12);
        if order.src_volume <= eps || self.swap_only {
            return false;
        }
        self.price <= eps || match direction {
            Drt::Buy => self.price > order.price,
            Drt::Sell => self.price < order.price,
        }
    }

    /// Offers a limit order to the contract.
    fn offer(&mut self, precision: u8, direction: Drt, order: OrderBrief) -> (r: Option<()>)
        ensures
            final(self).core@ == (CoreV { msgs: final(self).core@.msgs, ..old(self).core@ }),
            ({
                let t = old(self).trading().offered(precision, direction, order);
                &&& r is Some == t is Some
                &&& r is Some ==> final(self).trading() == t->0
            }),
    {
        if order.src_volume <= Decimal::new(1, 12) {
            self.core.send_msg(Msg::CloseOrder { order_id: order.id });
            return Some(());
        }
        if self.is_passed_over(direction, &order) {
            return Some(());
        }
        let call = self.volume_to_call(direction, order.src_volume)?;
        self.trade(precision, direction, order.id, order.src_volume, call)?;
        self.core.send_msg(Msg::CloseOrder { order_id: order.id });
        Some(())
    }

    /// Offers the limit orders of a queue to the contract.
    fn offer_all(&mut self, precision: u8, direction: Drt, q: &Vec<OrderBrief>) -> (r: Option<()>)
        ensures
            final(self).core@ == (CoreV { msgs: final(self).core@.msgs, ..old(self).core@ }),
            ({
                let t = old(self).trading().all_offered(precision, direction, q@, q@.len());
                &&& r is Some == t is Some
                &&& r is Some ==> final(self).trading() == t->0
            }),
    {
        let mut i: usize = 0;
        while i < q.len()
            invariant
                i <= q@.len(),
                self.core@ == (CoreV { msgs: self.core@.msgs, ..old(self).core@ }),
                old(self).trading().all_offered(precision, direction, q@, i as nat) == Some(
                    self.trading(),
                ),
            decreases q@.len() - i,
        {
            let done = self.offer(precision, direction, q[i]);
            if done.is_none() {
                proof {
                    lemma_offered_none(
                        old(self).trading(),
                        precision,
                        direction,
                        q@,
                        (i + 1) as nat,
                    );
                }
                return None;
            }
            i = i + 1;
        }
        Some(())
    }

    /// Takes orders out of the book.
    fn cancel_all(&mut self, q: &Vec<OrderBrief>)
        ensures
            final(self).core@ == old(self).core@,
            final(self).trading() == old(self).trading().with_book(
                all_cancelled(old(self).order_book@, q@, q@.len()),
            ),
    {
        let mut i: usize = 0;
        while i < q.len()
            invariant
                i <= q@.len(),
                self.core@ == old(self).core@,
                self.trading() == old(self).trading().with_book(
                    all_cancelled(old(self).order_book@, q@, i as nat),
                ),
            decreases q@.len() - i,
        {
            self.order_book.cancel(q[i].id);
            i = i + 1;
        }
    }

    /// Offers all limit orders to the contract and takes every one of them out of the book, also
    /// those that did not trade.
    fn match_virtual_orders(&mut self, precision: u8) -> (r: Option<()>)
        ensures
            final(self).core@ == (CoreV { msgs: final(self).core@.msgs, ..old(self).core@ }),
            ({
                let t = old(self).trading().matched(precision);
                &&& r is Some == t is Some
                &&& r is Some ==> final(self).trading() == t->0
            }),
    {
        let buys = copy_orders(self.order_book.buy_iter());
        let sells = copy_orders(self.order_book.sell_iter());
        proof {
            lemma_offered_book(self.trading(), precision, Drt::Buy, buys@, buys@.len());
        }
        self.offer_all(precision, Drt::Buy, &buys)?;
        proof {
            lemma_offered_book(self.trading(), precision, Drt::Sell, sells@, sells@.len());
        }
        self.offer_all(precision, Drt::Sell, &sells)?;
        self.cancel_all(&buys);
        self.cancel_all(&sells);
        Some(())
    }

    /// A market order: the contract is called for all of it.
    fn swap_with_contract(&mut self, precision: u8, direction: Drt, owner_id: usize, volume: Decimal) -> (r: Option<()>)
        ensures
            final(self).core@ == (CoreV { msgs: final(self).core@.msgs, ..old(self).core@ }),
            ({
                let t = old(self).trading().swapped(precision, direction, owner_id, volume);
                &&& r is Some == t is Some
                &&& r is Some ==> final(self).trading() == t->0
            }),
    {
        let call = self.volume_to_call(direction, volume)?;
        self.trade(precision, direction, owner_id, volume, call)
    }
}

/// A copy of a queue.
fn copy_orders(q: &Vec<OrderBrief>) -> (r: Vec<OrderBrief>)
    ensures
        r@ == q@,
{
    let mut out: Vec<OrderBrief> = Vec::new();
    let mut i: usize = 0;
    while i < q.len()
        invariant
            i <= q@.len(),
            out@ == q@.take(i as int),
        decreases q@.len() - i,
    {
        out.push(q[i]);
        i = i + 1;
        assert(out@ =~= q@.take(i as int));
    }
    assert(q@.take(i as int) =~= q@);
    out
}

/// Where an offer overflows, those that follow do.
proof fn lemma_offered_none(
    t: VirtualTrading,
    precision: u8,
    d: Drt,
    q: Seq<OrderBrief>,
    k: nat,
)
    requires
        k <= q.len(),
        t.all_offered(precision, d, q, k) is None,
    ensures
        t.all_offered(precision, d, q, q.len()) is None,
    decreases q.len() - k,
{
    if k < q.len() {
        lemma_offered_none(t, precision, d, q, k + 1);
    }
}

/// Where a market order out of several overflows, those that follow do.
proof fn lemma_batched_none(
    t: VirtualTrading,
    precision: u8,
    d: Drt,
    swaps: Seq<(usize, Decimal)>,
    k: nat,
)
    requires
        k <= swaps.len(),
        t.batched(precision, d, swaps, k) is None,
    ensures
        t.batched(precision, d, swaps, swaps.len()) is None,
    decreases swaps.len() - k,
{
    if k < swaps.len() {
        lemma_batched_none(t, precision, d, swaps, k + 1);
    }
}

/// Offers leave the book as it is.
proof fn lemma_offered_book(
    t: VirtualTrading,
    precision: u8,
    d: Drt,
    q: Seq<OrderBrief>,
    k: nat,
)
    ensures
        t.all_offered(precision, d, q, k) matches Some(u) ==> u.v.pair.book == t.v.pair.book,
    decreases k,
{
    if k > 0 {
        lemma_offered_book(t, precision, d, q, (k - 1) as nat);
    }
}

impl PairNode for VirtualPair {
    fn get_quote_token(&self) -> (r: usize) {
        self.quote_token
    }

    fn get_base_token(&self) -> (r: usize) {
        self.base_token
    }

    fn get_current_price(&self) -> (r: Decimal) {
        self.price
    }

    fn set_current_price(&mut self, price: Decimal) {
        self.price = price;
    }

    fn set_fee_fn(&mut self, fee_fn: Option<FeeFn>) {
        self.fee_fn = fee_fn;
    }

    fn get_order_book(&self, direction: Drt, depth: usize) -> (r: Option<OrderBookDepth>) {
        depth_at(&self.order_book, direction, depth)
    }

    fn get_tra_logs(&self) -> (r: VecDeque<TraLog>) {
        copy_logs(&self.tra_logs)
    }

    fn get_candle_data(&self, interval: u64) -> (r: Option<VecDeque<CandleData>>) {
        aggregate(&self.tra_logs, interval)
    }

    fn latest_candle(&self, interval: u64) -> (r: Option<Option<CandleData>>) {
        aggregate_last(&self.tra_logs, interval)
    }

    fn push_tra_log(
        &mut self,
        step_count: u64,
        src_id: usize,
        dst_id: usize,
        price: Decimal,
        volume: Decimal,
    ) {
        let log = TraLog { step_count, buy_node: src_id, sell_node: dst_id, price, volume };
        push_log(&mut self.tra_logs, self.max_tra_log_length, log);
    }

    fn update_brief(&mut self, brief: OrderBrief) {
        if self.order_book.contains(brief.id) {
            self.order_book.update_volume(brief.id, brief.src_volume, brief.dst_volume);
        }
    }

    fn insert_brief(&mut self, brief: OrderBrief, precision: u8) -> (r: Option<()>) {
        if self.swap_only {
            self.swap_with_contract(precision, brief.direction, brief.id, brief.src_volume)?;
            self.core.send_msg(Msg::CloseOrder { order_id: brief.id });
            return Some(());
        }
        self.order_book.insert(&brief);
        self.match_virtual_orders(precision)
    }

    fn cancel_brief(&mut self, id: usize) {
        self.order_book.cancel(id);
    }

    fn match_orders(&mut self, precision: u8) -> (r: Option<()>) {
        self.match_virtual_orders(precision)
    }

    fn process_swap(&mut self, owner_id: usize, direction: Drt, volume: Decimal, precision: u8) -> (r: Option<(Vec<SwapTransfer>, Vec<usize>)>) {
        self.swap_with_contract(precision, direction, owner_id, volume)?;
        Some((Vec::new(), Vec::new()))
    }

    fn process_swaps_batch(&mut self, direction: Drt, swaps: &Vec<(usize, Decimal)>, precision: u8) -> (r: Option<(Vec<SwapTransfer>, Vec<usize>)>) {
        let mut i: usize = 0;
        while i < swaps.len()
            invariant
                i <= swaps@.len(),
                self.core@ == (CoreV { msgs: self.core@.msgs, ..old(self).core@ }),
                old(self).trading().batched(precision, direction, swaps@, i as nat) == Some(
                    self.trading(),
                ),
            decreases swaps@.len() - i,
        {
            let (owner_id, volume) = swaps[i];
            let call = match direction {
                Drt::Buy => volume.checked_mul(Decimal::one()),
                Drt::Sell => match volume.checked_mul(self.price) {
                    Some(quote) => quote.checked_mul(Decimal::one().neg()),
                    None => None,
                },
            };
            let done = match call {
                Some(c) => self.trade(
                    precision,
                    direction,
                    owner_id,
                    volume,
                    c,
                ),
                None => None,
            };
            if done.is_none() {
                proof {
                    lemma_batched_none(
                        old(self).trading(),
                        precision,
                        direction,
                        swaps@,
                        (i + 1) as nat,
                    );
                }
                return None;
            }
            i = i + 1;
        }
        Some((Vec::new(), Vec::new()))
    }
}

} // verus!
