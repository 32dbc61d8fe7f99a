//! Order books: the open limit orders of a pair, by price and time.

use crate::decimal::{decimal_sum, Decimal};
use crate::node::Drt;
use crate::order::OrderBrief;
use std::collections::HashMap;
use vstd::prelude::*;

verus! {

broadcast use vstd::std_specs::hash::group_hash_axioms;

/// Where an order was put: its side, price and time.
#[derive(Clone, Copy, Debug)]
pub struct OrderKey {
    pub direction: Drt,
    pub price: Decimal,
    pub time: u64,
}

/// The open limit orders of a pair.
///
/// Buy orders stand by falling price, sell orders by rising price, orders at one price by rising
/// time, and those of one price and time by rising id.
pub struct OrderBook {
    buys: Vec<OrderBrief>,
    sells: Vec<OrderBrief>,
    index: HashMap<usize, OrderKey>,
}

/// An order book: the two queues, best order first, and where each known order was put.
#[verifier::ext_equal]
pub struct BookV {
    pub buys: Seq<OrderBrief>,
    pub sells: Seq<OrderBrief>,
    pub index: Map<usize, OrderKey>,
}

/// Whether the order of the first price, time and id stands before that of the second.
pub open spec fn before(
    d: Drt,
    p1: Decimal,
    t1: u64,
    id1: usize,
    p2: Decimal,
    t2: u64,
    id2: usize,
) -> bool {
    ||| (p1.val() == p2.val() && (t1 < t2 || (t1 == t2 && id1 < id2)))
    ||| (match d {
        Drt::Buy => p1.val() > p2.val(),
        Drt::Sell => p1.val() < p2.val(),
    })
}

/// How many orders at the head of the queue, the first `i` taken as given, stand before the
/// price and time.
pub open spec fn rank_from(q: Seq<OrderBrief>, d: Drt, p: Decimal, t: u64, id: usize, i: nat) -> nat
    decreases q.len() - i,
{
    if i < q.len() && before(
        d,
        q[i as int].price,
        q[i as int].step_count_created,
        q[i as int].id,
        p,
        t,
        id,
    ) {
        rank_from(q, d, p, t, id, i + 1)
    } else {
        i
    }
}

/// How many orders of the queue stand before the price and time.
pub open spec fn rank(q: Seq<OrderBrief>, d: Drt, p: Decimal, t: u64, id: usize) -> int {
    rank_from(q, d, p, t, id, 0) as int
}

/// Whether the order of this price, time and id stands in the queue.
pub open spec fn occupied(q: Seq<OrderBrief>, d: Drt, p: Decimal, t: u64, id: usize) -> bool {
    let r = rank(q, d, p, t, id);
    r < q.len() && q[r].price.val() == p.val() && q[r].step_count_created == t && q[r].id == id
}

/// The queue without the order of this price, time and id, if it stands there.
pub open spec fn vacated(q: Seq<OrderBrief>, d: Drt, p: Decimal, t: u64, id: usize) -> Seq<OrderBrief> {
    if occupied(q, d, p, t, id) {
        q.remove(rank(q, d, p, t, id))
    } else {
        q
    }
}

/// The queue with an order put in.
pub open spec fn placed(q: Seq<OrderBrief>, d: Drt, b: OrderBrief) -> Seq<OrderBrief> {
    q.insert(rank(q, d, b.price, b.step_count_created, b.id), b)
}

/// Whether every order stands before all that follow it.
pub open spec fn sorted(q: Seq<OrderBrief>, d: Drt) -> bool {
    forall|i: int, j: int|
        0 <= i < j < q.len() ==> before(
            d,
            #[trigger] q[i].price,
            q[i].step_count_created,
            q[i].id,
            #[trigger] q[j].price,
            q[j].step_count_created,
            q[j].id,
        )
}

/// Where the run of orders at one price that begins at `start` ends, given that all before `i`
/// belong to it.
pub open spec fn run_end(q: Seq<OrderBrief>, start: int, i: int) -> int
    decreases q.len() - i,
{
    if i < q.len() && q[i].price.val() == q[start].price.val() {
        run_end(q, start, i + 1)
    } else {
        i
    }
}

/// What the orders from `start` up to `end` have left to spend.
pub open spec fn run_volume(q: Seq<OrderBrief>, start: int, end: int) -> Option<Decimal>
    decreases end - start,
{
    if end <= start + 1 {
        Some(q[start].src_volume)
    } else {
        match run_volume(q, start, end - 1) {
            Some(v) => decimal_sum(v, q[end - 1].src_volume),
            None => None,
        }
    }
}

/// The first `depth` price levels of the queue from `start` on, each with its volume, or `None`
/// where the volume of one of them, or of the level after them, overflows.
pub open spec fn levels(q: Seq<OrderBrief>, start: int, depth: nat) -> Option<
    Seq<(Decimal, Decimal)>,
>
    decreases depth,
{
    if start >= q.len() {
        Some(Seq::empty())
    } else {
        let end = run_end(q, start, start + 1);
        match run_volume(q, start, end) {
            Some(v) => if depth == 0 {
                Some(Seq::empty())
            } else {
                match levels(q, end, (depth - 1) as nat) {
                    Some(rest) => Some(seq![(q[start].price, v)] + rest),
                    None => None,
                }
            },
            None => None,
        }
    }
}

/// What is left to spend by the orders of a queue, each counted from zero up.
pub open spec fn potential(q: Seq<OrderBrief>) -> nat
    decreases q.len(),
{
    if q.len() == 0 {
        0
    } else {
        potential(q.drop_last()) + spendable(q.last().src_volume)
    }
}

/// A volume, counted from zero up.
pub open spec fn spendable(v: Decimal) -> nat {
    if v.val() > 0 {
        v.val() as nat
    } else {
        0
    }
}

impl BookV {
    /// A book without orders.
    pub open spec fn empty() -> BookV {
        BookV { buys: Seq::empty(), sells: Seq::empty(), index: Map::empty() }
    }

    /// The queue of a side.
    pub open spec fn queue(self, d: Drt) -> Seq<OrderBrief> {
        match d {
            Drt::Buy => self.buys,
            Drt::Sell => self.sells,
        }
    }

    /// The book with another queue on one side.
    pub open spec fn with_queue(self, d: Drt, q: Seq<OrderBrief>) -> BookV {
        match d {
            Drt::Buy => BookV { buys: q, ..self },
            Drt::Sell => BookV { sells: q, ..self },
        }
    }

    /// Whether both queues are in order, every order in them is known by its id, and every known
    /// order stands in its queue.
    pub open spec fn wf(self) -> bool {
        &&& sorted(self.buys, Drt::Buy)
        &&& sorted(self.sells, Drt::Sell)
        &&& self.indexed(Drt::Buy)
        &&& self.indexed(Drt::Sell)
        &&& forall|id: usize| #[trigger] self.index.dom().contains(id) ==> self.standing(id)
    }

    /// Whether every order of a queue is known by its id.
    pub open spec fn indexed(self, d: Drt) -> bool {
        forall|i: int|
            0 <= i < self.queue(d).len() ==> {
                let b = #[trigger] self.queue(d)[i];
                &&& b.direction == d
                &&& self.index.dom().contains(b.id)
                &&& self.index[b.id].direction == d
                &&& self.index[b.id].price.val() == b.price.val()
                &&& self.index[b.id].time == b.step_count_created
            }
    }

    /// The book without a known order in its queue.
    pub open spec fn without(self, id: usize) -> BookV {
        let k = self.index[id];
        self.with_queue(
            k.direction,
            vacated(self.queue(k.direction), k.direction, k.price, k.time, id),
        )
    }

    /// The book after an order was put in.
    pub open spec fn inserted(self, b: OrderBrief) -> BookV {
        let cleared = if self.index.dom().contains(b.id) {
            self.without(b.id)
        } else {
            self
        };
        BookV {
            index: cleared.index.insert(
                b.id,
                OrderKey { direction: b.direction, price: b.price, time: b.step_count_created },
            ),
            ..cleared.with_queue(
                b.direction,
                placed(cleared.queue(b.direction), b.direction, b),
            )
        }
    }

    /// The book after an order was cancelled.
    pub open spec fn cancelled(self, id: usize) -> BookV {
        if self.index.dom().contains(id) {
            BookV { index: self.index.remove(id), ..self.without(id) }
        } else {
            self
        }
    }

    /// Whether the order of an id stands in the queue where it was put.
    pub open spec fn standing(self, id: usize) -> bool {
        occupied(
            self.queue(self.index[id].direction),
            self.index[id].direction,
            self.index[id].price,
            self.index[id].time,
            id,
        )
    }

    /// The book after the volumes of an order were set.
    pub open spec fn with_volume(self, id: usize, src: Decimal, dst: Decimal) -> BookV {
        if self.index.dom().contains(id) {
            let k = self.index[id];
            let q = self.queue(k.direction);
            let r = rank(q, k.direction, k.price, k.time, id);
            self.with_queue(
                k.direction,
                q.update(r, OrderBrief { src_volume: src, dst_volume: dst, ..q[r] }),
            )
        } else {
            self
        }
    }

    /// The book after the best order of a side was taken out.
    pub open spec fn popped(self, d: Drt) -> BookV {
        let q = self.queue(d);
        if q.len() > 0 {
            BookV { index: self.index.remove(q[0].id), ..self.with_queue(d, q.drop_first()) }
        } else {
            self
        }
    }

    /// How many orders stand in the queues.
    pub open spec fn count(self) -> nat {
        self.buys.len() + self.sells.len()
    }

    /// What is left to spend by all orders.
    pub open spec fn potential(self) -> nat {
        potential(self.buys) + potential(self.sells)
    }
}

/// The rank is where the orders that stand before a key end.
pub proof fn lemma_rank_at(q: Seq<OrderBrief>, d: Drt, p: Decimal, t: u64, id: usize, i: nat, r: nat)
    requires
        i <= r <= q.len(),
        forall|j: int|
            i <= j < r ==> before(
                d,
                #[trigger] q[j].price,
                q[j].step_count_created,
                q[j].id,
                p,
                t,
                id,
            ),
        r < q.len() ==> !before(
            d,
            q[r as int].price,
            q[r as int].step_count_created,
            q[r as int].id,
            p,
            t,
            id,
        ),
    ensures
        rank_from(q, d, p, t, id, i) == r,
    decreases r - i,
{
    if i < r {
        assert(before(
            d,
            q[i as int].price,
            q[i as int].step_count_created,
            q[i as int].id,
            p,
            t,
            id,
        ));
        lemma_rank_at(q, d, p, t, id, i + 1, r);
    }
}

/// In a queue in order, the rank splits the orders before a key from the others.
pub proof fn lemma_rank_splits(q: Seq<OrderBrief>, d: Drt, p: Decimal, t: u64, id: usize, i: nat)
    requires
        sorted(q, d),
        i <= q.len(),
        forall|j: int|
            0 <= j < i ==> before(
                d,
                #[trigger] q[j].price,
                q[j].step_count_created,
                q[j].id,
                p,
                t,
                id,
            ),
    ensures
        i <= rank_from(q, d, p, t, id, i) <= q.len(),
        forall|j: int|
            0 <= j < rank_from(q, d, p, t, id, i) ==> before(
                d,
                #[trigger] q[j].price,
                q[j].step_count_created,
                q[j].id,
                p,
                t,
                id,
            ),
        forall|j: int|
            rank_from(q, d, p, t, id, i) <= j < q.len() ==> !before(
                d,
                #[trigger] q[j].price,
                q[j].step_count_created,
                q[j].id,
                p,
                t,
                id,
            ),
    decreases q.len() - i,
{
    if i < q.len() && before(
        d,
        q[i as int].price,
        q[i as int].step_count_created,
        q[i as int].id,
        p,
        t,
        id,
    ) {
        lemma_rank_splits(q, d, p, t, id, i + 1);
    }
}

/// In a queue in order, an order stands at the rank of its price, time and id.
pub proof fn lemma_found(q: Seq<OrderBrief>, d: Drt, p: Decimal, t: u64, id: usize, i: int)
    requires
        sorted(q, d),
        0 <= i < q.len(),
        q[i].price.val() == p.val(),
        q[i].step_count_created == t,
        q[i].id == id,
    ensures
        occupied(q, d, p, t, id),
        rank(q, d, p, t, id) == i,
{
    assert forall|j: int| 0 <= j < i implies before(
        d,
        #[trigger] q[j].price,
        q[j].step_count_created,
        q[j].id,
        p,
        t,
        id,
    ) by {
        assert(before(
            d,
            q[j].price,
            q[j].step_count_created,
            q[j].id,
            q[i].price,
            q[i].step_count_created,
            q[i].id,
        ));
    }
    lemma_rank_at(q, d, p, t, id, 0, i as nat);
}

/// Taking an order out keeps a queue in order.
proof fn lemma_remove_sorted(q: Seq<OrderBrief>, d: Drt, i: int)
    requires
        sorted(q, d),
        0 <= i < q.len(),
    ensures
        sorted(q.remove(i), d),
{
    let r = q.remove(i);
    assert forall|a: int, b: int| 0 <= a < b < r.len() implies before(
        d,
        #[trigger] r[a].price,
        r[a].step_count_created,
        r[a].id,
        #[trigger] r[b].price,
        r[b].step_count_created,
        r[b].id,
    ) by {
        let a0 = if a < i { a } else { a + 1 };
        let b0 = if b < i { b } else { b + 1 };
        assert(before(
            d,
            q[a0].price,
            q[a0].step_count_created,
            q[a0].id,
            q[b0].price,
            q[b0].step_count_created,
            q[b0].id,
        ));
    }
}

/// Putting an order in keeps a queue in order.
pub proof fn lemma_placed_sorted(q: Seq<OrderBrief>, d: Drt, b: OrderBrief)
    requires
        sorted(q, d),
        forall|i: int| 0 <= i < q.len() ==> (#[trigger] q[i]).id != b.id,
    ensures
        sorted(placed(q, d, b), d),
        0 <= rank(q, d, b.price, b.step_count_created, b.id) <= q.len(),
{
    let p = b.price;
    let t = b.step_count_created;
    let id = b.id;
    lemma_rank_splits(q, d, p, t, id, 0);
    let r = rank(q, d, p, t, id);
    let n = placed(q, d, b);
    assert forall|x: int, y: int| 0 <= x < y < n.len() implies before(
        d,
        #[trigger] n[x].price,
        n[x].step_count_created,
        n[x].id,
        #[trigger] n[y].price,
        n[y].step_count_created,
        n[y].id,
    ) by {
            let x0 = if x < r { x } else { x - 1 };
            let y0 = if y < r { y } else { y - 1 };
            if x != r && y != r {
                assert(before(
                    d,
                    q[x0].price,
                    q[x0].step_count_created,
                    q[x0].id,
                    q[y0].price,
                    q[y0].step_count_created,
                    q[y0].id,
                ));
            } else if y == r {
                assert(before(d, q[x].price, q[x].step_count_created, q[x].id, p, t, id));
            } else {
                assert(!before(d, q[y0].price, q[y0].step_count_created, q[y0].id, p, t, id));
                if y0 > r {
                    assert(before(
                        d,
                        q[r].price,
                        q[r].step_count_created,
                        q[r].id,
                        q[y0].price,
                        q[y0].step_count_created,
                        q[y0].id,
                    ));
                    assert(!before(d, q[r].price, q[r].step_count_created, q[r].id, p, t, id));
                }
            }
    }
}

/// Taking out a known order keeps the queues in order and every other order known.
pub proof fn lemma_without(v: BookV, id: usize)
    requires
        v.wf(),
        v.index.dom().contains(id),
    ensures
        sorted(v.without(id).buys, Drt::Buy),
        sorted(v.without(id).sells, Drt::Sell),
        v.without(id).indexed(Drt::Buy),
        v.without(id).indexed(Drt::Sell),
        forall|d: Drt, i: int|
            0 <= i < v.without(id).queue(d).len() ==> (#[trigger] v.without(id).queue(d)[i]).id
                != id,
{
    let k = v.index[id];
    let w = v.without(id);
    let q = v.queue(k.direction);
    lemma_rank_splits(q, k.direction, k.price, k.time, id, 0);
    let r = rank(q, k.direction, k.price, k.time, id);
    if occupied(q, k.direction, k.price, k.time, id) {
        lemma_remove_sorted(q, k.direction, r);
    }
    assert forall|d: Drt, i: int| 0 <= i < w.queue(d).len() implies ({
        let b = #[trigger] w.queue(d)[i];
        &&& b.id != id
        &&& b.direction == d
        &&& w.index.dom().contains(b.id)
        &&& w.index[b.id].direction == d
        &&& w.index[b.id].price.val() == b.price.val()
        &&& w.index[b.id].time == b.step_count_created
    }) by {
        let i0 = if d == k.direction && occupied(q, k.direction, k.price, k.time, id) && i >= r {
            i + 1
        } else {
            i
        };
        assert(w.queue(d)[i] == v.queue(d)[i0]);
        assert(v.indexed(d));
        let b = v.queue(d)[i0];
        if b.id == id {
            lemma_found(q, d, k.price, k.time, id, i0);
        }
    }
    assert(w.indexed(Drt::Buy));
    assert(w.indexed(Drt::Sell));
}

impl BookV {
    /// As many orders are known as stand in the queues.
    pub proof fn lemma_count(self)
        requires
            self.wf(),
        ensures
            self.index.dom().len() == self.count(),
    {
        let all = self.buys + self.sells;
        let ids = all.map_values(|b: OrderBrief| b.id);
        assert forall|i: int| 0 <= i < all.len() implies self.index.dom().contains(
            #[trigger] ids[i],
        ) && self.index[ids[i]].direction == all[i].direction by {
            assert(self.indexed(Drt::Buy) && self.indexed(Drt::Sell));
            if i < self.buys.len() {
                assert(all[i] == self.queue(Drt::Buy)[i]);
            } else {
                assert(all[i] == self.queue(Drt::Sell)[i - self.buys.len()]);
            }
        }
        assert forall|i: int, j: int| 0 <= i < j < ids.len() implies ids[i] != ids[j] by {
            if ids[i] == ids[j] {
                let id = ids[i];
                let k = self.index[id];
                assert(self.indexed(Drt::Buy) && self.indexed(Drt::Sell));
                if j < self.buys.len() {
                    assert(all[i] == self.queue(Drt::Buy)[i] && all[j] == self.queue(Drt::Buy)[j]);
                    lemma_found(self.buys, Drt::Buy, k.price, k.time, id, i);
                    lemma_found(self.buys, Drt::Buy, k.price, k.time, id, j);
                } else if i >= self.buys.len() {
                    let n = self.buys.len() as int;
                    assert(all[i] == self.queue(Drt::Sell)[i - n]);
                    assert(all[j] == self.queue(Drt::Sell)[j - n]);
                    lemma_found(self.sells, Drt::Sell, k.price, k.time, id, i - n);
                    lemma_found(self.sells, Drt::Sell, k.price, k.time, id, j - n);
                } else {
                    assert(all[i] == self.queue(Drt::Buy)[i]);
                    assert(all[j] == self.queue(Drt::Sell)[j - self.buys.len()]);
                }
            }
        }
        assert(ids.no_duplicates());
        ids.unique_seq_to_set();
        assert forall|id: usize| self.index.dom().contains(id) implies ids.contains(id) by {
            assert(self.standing(id));
            let k = self.index[id];
            let r = rank(self.queue(k.direction), k.direction, k.price, k.time, id);
            let i = if k.direction == Drt::Buy {
                r
            } else {
                r + self.buys.len()
            };
            assert(ids[i] == id);
        }
        assert(ids.to_set() =~= self.index.dom());
    }

    /// Where an order stands once another one was taken out.
    pub proof fn lemma_kept(self, id: usize, d: Drt, i: int) -> (j: int)
        requires
            self.wf(),
            0 <= i < self.queue(d).len(),
            self.queue(d)[i].id != id,
        ensures
            self.index.dom().contains(id) ==> 0 <= j < self.without(id).queue(d).len()
                && self.without(id).queue(d)[j] == self.queue(d)[i],
            !self.index.dom().contains(id) ==> j == i,
    {
        if self.index.dom().contains(id) {
            assert(self.standing(id));
            let k = self.index[id];
            let r = rank(self.queue(k.direction), k.direction, k.price, k.time, id);
            if d == k.direction && i >= r {
                i - 1
            } else {
                i
            }
        } else {
            i
        }
    }

    /// Putting an order in keeps the queues in order and every order in them known.
    proof fn lemma_inserted_indexed(self, b: OrderBrief)
        requires
            self.wf(),
        ensures
            sorted(self.inserted(b).buys, Drt::Buy),
            sorted(self.inserted(b).sells, Drt::Sell),
            self.inserted(b).indexed(Drt::Buy),
            self.inserted(b).indexed(Drt::Sell),
    {
        let cleared = if self.index.dom().contains(b.id) {
            self.without(b.id)
        } else {
            self
        };
        if self.index.dom().contains(b.id) {
            lemma_without(self, b.id);
        }
        assert forall|d: Drt, i: int| 0 <= i < cleared.queue(d).len() implies (
        #[trigger] cleared.queue(d)[i]).id != b.id by {
            assert(self.indexed(d));
        }
        let d = b.direction;
        lemma_placed_sorted(cleared.queue(d), d, b);
        let n = self.inserted(b);
        let r = rank(cleared.queue(d), d, b.price, b.step_count_created, b.id);
        assert(cleared.indexed(Drt::Buy) && cleared.indexed(Drt::Sell));
        assert forall|e: Drt, i: int| 0 <= i < n.queue(e).len() implies ({
            let x = #[trigger] n.queue(e)[i];
            &&& x.direction == e
            &&& n.index.dom().contains(x.id)
            &&& n.index[x.id].direction == e
            &&& n.index[x.id].price.val() == x.price.val()
            &&& n.index[x.id].time == x.step_count_created
        }) by {
            if e == d && i == r {
            } else {
                let i0 = if e == d && i > r {
                    i - 1
                } else {
                    i
                };
                assert(n.queue(e)[i] == cleared.queue(e)[i0]);
                assert(cleared.indexed(e));
                assert(cleared.queue(e)[i0].id != b.id);
            }
        }
        assert(n.indexed(Drt::Buy));
        assert(n.indexed(Drt::Sell));
    }

    /// Putting an order in keeps a book well formed.
    pub proof fn lemma_inserted_wf(self, b: OrderBrief)
        requires
            self.wf(),
        ensures
            self.inserted(b).wf(),
    {
        self.lemma_inserted_indexed(b);
        let cleared = if self.index.dom().contains(b.id) {
            self.without(b.id)
        } else {
            self
        };
        if self.index.dom().contains(b.id) {
            lemma_without(self, b.id);
        }
        let d = b.direction;
        let n = self.inserted(b);
        let q = cleared.queue(d);
        assert(sorted(q, d));
        lemma_rank_splits(q, d, b.price, b.step_count_created, b.id, 0);
        let r = rank(q, d, b.price, b.step_count_created, b.id);
        assert(n.queue(d)[r] == b);
        assert(sorted(n.queue(d), d));
        assert forall|x: usize| #[trigger] n.index.dom().contains(x) implies n.standing(x) by {
            let key = n.index[x];
            if x == b.id {
                lemma_found(n.queue(d), d, b.price, b.step_count_created, x, r);
            } else {
                assert(self.standing(x));
                let j = rank(self.queue(key.direction), key.direction, key.price, key.time, x);
                let j1 = self.lemma_kept(b.id, key.direction, j);
                let j2 = if key.direction == d && j1 >= r {
                    j1 + 1
                } else {
                    j1
                };
                assert(n.queue(key.direction)[j2] == self.queue(key.direction)[j]);
                assert(sorted(n.queue(key.direction), key.direction));
                lemma_found(n.queue(key.direction), key.direction, key.price, key.time, x, j2);
            }
        }
    }

    /// Cancelling an order keeps a book well formed.
    pub proof fn lemma_cancelled_wf(self, id: usize)
        requires
            self.wf(),
        ensures
            self.cancelled(id).wf(),
    {
        if self.index.dom().contains(id) {
            lemma_without(self, id);
            let w = self.without(id);
            let n = self.cancelled(id);
            assert forall|e: Drt, i: int| 0 <= i < n.queue(e).len() implies ({
                let x = #[trigger] n.queue(e)[i];
                &&& x.direction == e
                &&& n.index.dom().contains(x.id)
                &&& n.index[x.id].direction == e
                &&& n.index[x.id].price.val() == x.price.val()
                &&& n.index[x.id].time == x.step_count_created
            }) by {
                assert(n.queue(e)[i] == w.queue(e)[i]);
                assert(w.indexed(e));
            }
            assert(n.indexed(Drt::Buy));
            assert(n.indexed(Drt::Sell));
            assert forall|x: usize| #[trigger] n.index.dom().contains(x) implies n.standing(x) by {
                let key = self.index[x];
                assert(self.index.dom().contains(x));
                assert(self.standing(x));
                let j = rank(self.queue(key.direction), key.direction, key.price, key.time, x);
                let j1 = self.lemma_kept(id, key.direction, j);
                assert(n.queue(key.direction)[j1] == self.queue(key.direction)[j]);
                assert(sorted(n.queue(key.direction), key.direction));
                lemma_found(n.queue(key.direction), key.direction, key.price, key.time, x, j1);
            }
        }
    }

    /// Setting volumes keeps a book well formed.
    pub proof fn lemma_with_volume_wf(self, id: usize, src: Decimal, dst: Decimal)
        requires
            self.wf(),
        ensures
            self.with_volume(id, src, dst).wf(),
    {
        if self.index.dom().contains(id) {
            assert(self.standing(id));
            let k = self.index[id];
            let q = self.queue(k.direction);
            let r = rank(q, k.direction, k.price, k.time, id);
            let n = self.with_volume(id, src, dst);
            assert forall|e: Drt, i: int| 0 <= i < n.queue(e).len() implies ({
                let x = #[trigger] n.queue(e)[i];
                let y = self.queue(e)[i];
                &&& x.direction == y.direction
                &&& x.id == y.id
                &&& x.price == y.price
                &&& x.step_count_created == y.step_count_created
            }) by {}
            assert(self.indexed(Drt::Buy) && self.indexed(Drt::Sell));
            assert forall|e: Drt, i: int| 0 <= i < n.queue(e).len() implies ({
                let x = #[trigger] n.queue(e)[i];
                &&& x.direction == e
                &&& n.index.dom().contains(x.id)
                &&& n.index[x.id].direction == e
                &&& n.index[x.id].price.val() == x.price.val()
                &&& n.index[x.id].time == x.step_count_created
            }) by {
                assert(self.indexed(e));
                let y = self.queue(e)[i];
            }
            assert(n.indexed(Drt::Buy));
            assert(n.indexed(Drt::Sell));
            assert forall|e: Drt| #[trigger] sorted(n.queue(e), e) by {
                assert(sorted(self.queue(e), e)) by {
                    if e == Drt::Buy {
                        assert(sorted(self.buys, Drt::Buy));
                    } else {
                        assert(sorted(self.sells, Drt::Sell));
                    }
                }
                assert forall|i: int, j: int| 0 <= i < j < n.queue(e).len() implies before(
                    e,
                    #[trigger] n.queue(e)[i].price,
                    n.queue(e)[i].step_count_created,
                    n.queue(e)[i].id,
                    #[trigger] n.queue(e)[j].price,
                    n.queue(e)[j].step_count_created,
                    n.queue(e)[j].id,
                ) by {
                    assert(before(
                        e,
                        self.queue(e)[i].price,
                        self.queue(e)[i].step_count_created,
                        self.queue(e)[i].id,
                        self.queue(e)[j].price,
                        self.queue(e)[j].step_count_created,
                        self.queue(e)[j].id,
                    ));
                }
            }
            assert(sorted(n.queue(Drt::Buy), Drt::Buy));
            assert(sorted(n.queue(Drt::Sell), Drt::Sell));
            assert forall|x: usize| #[trigger] n.index.dom().contains(x) implies n.standing(x) by {
                let key = self.index[x];
                assert(self.index.dom().contains(x));
                assert(self.standing(x));
                let j = rank(self.queue(key.direction), key.direction, key.price, key.time, x);
                assert(sorted(n.queue(key.direction), key.direction));
                lemma_found(n.queue(key.direction), key.direction, key.price, key.time, x, j);
            }
        }
    }

    /// Taking out the best order of a side keeps a book well formed.
    pub proof fn lemma_popped_wf(self, d: Drt)
        requires
            self.wf(),
        ensures
            self.popped(d).wf(),
            self.queue(d).len() > 0 ==> self.popped(d) == self.cancelled(self.queue(d)[0].id),
    {
        let q = self.queue(d);
        if q.len() > 0 {
            assert(self.indexed(d));
            let b = q[0];
            let k = self.index[b.id];
            assert(sorted(q, d));
            lemma_found(q, d, k.price, k.time, b.id, 0);
            assert(q.remove(0) =~= q.drop_first());
            assert(self.popped(d) =~= self.cancelled(b.id));
            self.lemma_cancelled_wf(b.id);
        }
    }
}

/// Replacing the first order of a queue changes what is left to spend by the difference.
pub proof fn lemma_potential_first(q: Seq<OrderBrief>, b: OrderBrief)
    requires
        q.len() > 0,
    ensures
        potential(q.update(0, b)) + spendable(q[0].src_volume) == potential(q) + spendable(
            b.src_volume,
        ),
    decreases q.len(),
{
    let n = q.update(0, b);
    if q.len() == 1 {
        assert(n.drop_last() =~= Seq::empty());
        assert(q.drop_last() =~= Seq::empty());
        assert(potential(Seq::<OrderBrief>::empty()) == 0);
    } else {
        lemma_potential_first(q.drop_last(), b);
        assert(n.drop_last() =~= q.drop_last().update(0, b));
    }
}

impl BookV {
    /// Cancelling the best order of a side takes it out of its queue.
    pub proof fn lemma_cancel_best(self, d: Drt)
        requires
            self.wf(),
            self.queue(d).len() > 0,
        ensures
            self.cancelled(self.queue(d)[0].id) == self.popped(d),
            self.cancelled(self.queue(d)[0].id).wf(),
            self.cancelled(self.queue(d)[0].id).count() == self.count() - 1,
    {
        self.lemma_popped_wf(d);
    }

    /// Setting the volumes of the best order of a side replaces it in its queue.
    pub proof fn lemma_update_best(self, d: Drt, src: Decimal, dst: Decimal)
        requires
            self.wf(),
            self.queue(d).len() > 0,
        ensures
            self.with_volume(self.queue(d)[0].id, src, dst) == self.with_queue(
                d,
                self.queue(d).update(
                    0,
                    OrderBrief { src_volume: src, dst_volume: dst, ..self.queue(d)[0] },
                ),
            ),
            self.with_volume(self.queue(d)[0].id, src, dst).wf(),
            self.with_volume(self.queue(d)[0].id, src, dst).count() == self.count(),
            self.with_volume(self.queue(d)[0].id, src, dst).potential() + spendable(
                self.queue(d)[0].src_volume,
            ) == self.potential() + spendable(src),
    {
        let q = self.queue(d);
        let b = q[0];
        assert(self.indexed(d));
        assert(sorted(q, d));
        lemma_found(q, d, self.index[b.id].price, self.index[b.id].time, b.id, 0);
        self.lemma_with_volume_wf(b.id, src, dst);
        lemma_potential_first(q, OrderBrief { src_volume: src, dst_volume: dst, ..b });
    }
}

impl View for OrderBook {
    type V = BookV;

    closed spec fn view(&self) -> BookV {
        BookV { buys: self.buys@, sells: self.sells@, index: self.index@ }
    }
}

/// Whether the order of the first price, time and id stands before that of the second.
fn is_before(
    d: Drt,
    p1: Decimal,
    t1: u64,
    id1: usize,
    p2: Decimal,
    t2: u64,
    id2: usize,
) -> (r: bool)
    ensures
        r == before(d, p1, t1, id1, p2, t2, id2),
{
    if p1 == p2 {
        t1 < t2 || (t1 == t2 && id1 < id2)
    } else {
        match d {
            Drt::Buy => p1 > p2,
            Drt::Sell => p1 < p2,
        }
    }
}

/// How many orders of the queue stand before the price and time.
fn find(q: &Vec<OrderBrief>, d: Drt, p: Decimal, t: u64, id: usize) -> (r: usize)
    requires
        sorted(q@, d),
    ensures
        r == rank(q@, d, p, t, id),
        r <= q@.len(),
{
    let mut lo: usize = 0;
    let mut hi: usize = q.len();
    while lo < hi
        invariant
            lo <= hi <= q@.len(),
            sorted(q@, d),
            forall|j: int|
                0 <= j < lo ==> before(
                    d,
                    #[trigger] q@[j].price,
                    q@[j].step_count_created,
                    q@[j].id,
                    p,
                    t,
                    id,
                ),
            forall|j: int|
                hi <= j < q@.len() ==> !before(
                    d,
                    #[trigger] q@[j].price,
                    q@[j].step_count_created,
                    q@[j].id,
                    p,
                    t,
                    id,
                ),
        decreases hi - lo,
    {
        let mid: usize = lo + (hi - lo) / 2;
        if is_before(d, q[mid].price, q[mid].step_count_created, q[mid].id, p, t, id) {
            proof {
                assert forall|j: int| 0 <= j < mid + 1 implies before(
                    d,
                    #[trigger] q@[j].price,
                    q@[j].step_count_created,
                    q@[j].id,
                    p,
                    t,
                    id,
                ) by {
                    if j < mid {
                        assert(before(
                            d,
                            q@[j].price,
                            q@[j].step_count_created,
                            q@[j].id,
                            q@[mid as int].price,
                            q@[mid as int].step_count_created,
                            q@[mid as int].id,
                        ));
                    }
                }
            }
            lo = mid + 1;
        } else {
            proof {
                assert forall|j: int| mid <= j < q@.len() implies !before(
                    d,
                    #[trigger] q@[j].price,
                    q@[j].step_count_created,
                    q@[j].id,
                    p,
                    t,
                    id,
                ) by {
                    if j > mid {
                        assert(before(
                            d,
                            q@[mid as int].price,
                            q@[mid as int].step_count_created,
                            q@[mid as int].id,
                            q@[j].price,
                            q@[j].step_count_created,
                            q@[j].id,
                        ));
                    }
                }
            }
            hi = mid;
        }
    }
    proof {
        lemma_rank_at(q@, d, p, t, id, 0, lo as nat);
    }
    lo
}

/// Takes the order of this price, time and id out of the queue, if it stands there.
fn vacate(q: &mut Vec<OrderBrief>, d: Drt, p: Decimal, t: u64, id: usize)
    requires
        sorted(old(q)@, d),
    ensures
        final(q)@ == vacated(old(q)@, d, p, t, id),
{
    let r = find(q, d, p, t, id);
    if r < q.len() && q[r].price == p && q[r].step_count_created == t && q[r].id == id {
        q.remove(r);
    }
}

/// Puts an order in.
fn place(q: &mut Vec<OrderBrief>, d: Drt, b: OrderBrief)
    requires
        sorted(old(q)@, d),
    ensures
        final(q)@ == placed(old(q)@, d, b),
{
    let r = find(q, d, b.price, b.step_count_created, b.id);
    q.insert(r, b);
}

impl Default for OrderBook {
    fn default() -> (r: OrderBook)
        ensures
            r@ == BookV::empty(),
    {
        OrderBook::new()
    }
}

impl OrderBook {
    /// Every book is well formed.
    #[verifier::type_invariant]
    pub open spec fn well_formed(self) -> bool {
        self@.wf()
    }

    /// A book without orders.
    pub fn new() -> (r: OrderBook)
        ensures
            r@ == BookV::empty(),
    {
        OrderBook { buys: Vec::new(), sells: Vec::new(), index: HashMap::new() }
    }

    /// Puts an order in, or moves it where it is known already. Returns whether it was new.
    pub fn insert(&mut self, brief: &OrderBrief) -> (r: bool)
        ensures
            final(self)@ == old(self)@.inserted(*brief),
            r == !old(self)@.index.dom().contains(brief.id),
    {
        proof {
            use_type_invariant(&*self);
        }
        let ghost v = self@;
        let mut book = OrderBook::new();
        std::mem::swap(&mut book, self);
        let OrderBook { mut buys, mut sells, mut index } = book;
        let known: Option<OrderKey> = match index.get(&brief.id) {
            Some(k) => Some(*k),
            None => None,
        };
        let is_new = known.is_none();
        proof {
            v.lemma_inserted_wf(*brief);
            if v.index.dom().contains(brief.id) {
                lemma_without(v, brief.id);
            }
        }
        if let Some(k) = known {
            match k.direction {
                Drt::Buy => vacate(&mut buys, Drt::Buy, k.price, k.time, brief.id),
                Drt::Sell => vacate(&mut sells, Drt::Sell, k.price, k.time, brief.id),
            }
        }
        match brief.direction {
            Drt::Buy => place(&mut buys, Drt::Buy, *brief),
            Drt::Sell => place(&mut sells, Drt::Sell, *brief),
        }
        index.insert(
            brief.id,
            OrderKey {
                direction: brief.direction,
                price: brief.price,
                time: brief.step_count_created,
            },
        );
        assert(BookV { buys: buys@, sells: sells@, index: index@ } =~= v.inserted(*brief));
        *self = OrderBook { buys, sells, index };
        is_new
    }

    /// Cancels an order. Returns whether it was known.
    pub fn cancel(&mut self, order_id: usize) -> (r: bool)
        ensures
            final(self)@ == old(self)@.cancelled(order_id),
            r == old(self)@.index.dom().contains(order_id),
    {
        proof {
            use_type_invariant(&*self);
        }
        let ghost v = self@;
        let mut book = OrderBook::new();
        std::mem::swap(&mut book, self);
        let OrderBook { mut buys, mut sells, mut index } = book;
        proof {
            v.lemma_cancelled_wf(order_id);
        }
        let known = index.remove(&order_id);
        let r = known.is_some();
        if let Some(k) = known {
            match k.direction {
                Drt::Buy => vacate(&mut buys, Drt::Buy, k.price, k.time, order_id),
                Drt::Sell => vacate(&mut sells, Drt::Sell, k.price, k.time, order_id),
            }
        }
        assert(BookV { buys: buys@, sells: sells@, index: index@ } =~= v.cancelled(order_id));
        *self = OrderBook { buys, sells, index };
        r
    }

    /// Whether an order is known.
    pub fn contains(&self, order_id: usize) -> (r: bool)
        ensures
            r == self@.index.dom().contains(order_id),
    {
        self.index.contains_key(&order_id)
    }

    /// The buy order with the highest price, the earliest of these.
    pub fn best_buy(&self) -> (r: Option<&OrderBrief>)
        ensures
            self@.wf(),
            r is Some == (self@.buys.len() > 0),
            r is Some ==> *r->0 == self@.buys[0],
    {
        proof {
            use_type_invariant(self);
        }
        if self.buys.len() > 0 {
            Some(&self.buys[0])
        } else {
            None
        }
    }

    /// The sell order with the lowest price, the earliest of these.
    pub fn best_sell(&self) -> (r: Option<&OrderBrief>)
        ensures
            self@.wf(),
            r is Some == (self@.sells.len() > 0),
            r is Some ==> *r->0 == self@.sells[0],
    {
        proof {
            use_type_invariant(self);
        }
        if self.sells.len() > 0 {
            Some(&self.sells[0])
        } else {
            None
        }
    }

    /// Takes out the best buy order.
    pub fn pop_best_buy(&mut self) -> (r: Option<OrderBrief>)
        ensures
            final(self)@ == old(self)@.popped(Drt::Buy),
            r is Some == (old(self)@.buys.len() > 0),
            r is Some ==> r->0 == old(self)@.buys[0],
    {
        proof {
            use_type_invariant(&*self);
            self@.lemma_popped_wf(Drt::Buy);
        }
        let brief: OrderBrief = match self.best_buy() {
            Some(b) => *b,
            None => return None,
        };
        self.cancel(brief.id);
        Some(brief)
    }

    /// Takes out the best sell order.
    pub fn pop_best_sell(&mut self) -> (r: Option<OrderBrief>)
        ensures
            final(self)@ == old(self)@.popped(Drt::Sell),
            r is Some == (old(self)@.sells.len() > 0),
            r is Some ==> r->0 == old(self)@.sells[0],
    {
        proof {
            use_type_invariant(&*self);
            self@.lemma_popped_wf(Drt::Sell);
        }
        let brief: OrderBrief = match self.best_sell() {
            Some(b) => *b,
            None => return None,
        };
        self.cancel(brief.id);
        Some(brief)
    }

    /// Sets the volumes of an order. Returns whether it was known.
    pub fn update_volume(
        &mut self,
        order_id: usize,
        new_src_volume: Decimal,
        new_dst_volume: Decimal,
    ) -> (r: bool)
        ensures
            final(self)@ == old(self)@.with_volume(order_id, new_src_volume, new_dst_volume),
            r == old(self)@.index.dom().contains(order_id),
    {
        proof {
            use_type_invariant(&*self);
        }
        let ghost v = self@;
        let k: OrderKey = match self.index.get(&order_id) {
            Some(k) => *k,
            None => return false,
        };
        proof {
            v.lemma_with_volume_wf(order_id, new_src_volume, new_dst_volume);
        }
        let mut book = OrderBook::new();
        std::mem::swap(&mut book, self);
        let OrderBook { mut buys, mut sells, index } = book;
        let r = match k.direction {
            Drt::Buy => set_volume(
                &mut buys,
                Drt::Buy,
                k.price,
                k.time,
                order_id,
                new_src_volume,
                new_dst_volume,
            ),
            Drt::Sell => set_volume(
                &mut sells,
                Drt::Sell,
                k.price,
                k.time,
                order_id,
                new_src_volume,
                new_dst_volume,
            ),
        };
        assert(BookV { buys: buys@, sells: sells@, index: index@ } =~= v.with_volume(
            order_id,
            new_src_volume,
            new_dst_volume,
        ));
        *self = OrderBook { buys, sells, index };
        r
    }

    /// The number of buy orders.
    pub fn buy_count(&self) -> (r: usize)
        ensures
            r == self@.buys.len(),
    {
        self.buys.len()
    }

    /// The number of sell orders.
    pub fn sell_count(&self) -> (r: usize)
        ensures
            r == self@.sells.len(),
    {
        self.sells.len()
    }

    /// The number of orders.
    pub fn total_count(&self) -> (r: usize)
        ensures
            r == self@.count(),
    {
        proof {
            use_type_invariant(self);
            self@.lemma_count();
        }
        self.index.len()
    }

    /// The buy orders, best first.
    pub fn buy_iter(&self) -> (r: &Vec<OrderBrief>)
        ensures
            r@ == self@.buys,
            self@.wf(),
    {
        proof {
            use_type_invariant(self);
        }
        &self.buys
    }

    /// The sell orders, best first.
    pub fn sell_iter(&self) -> (r: &Vec<OrderBrief>)
        ensures
            r@ == self@.sells,
            self@.wf(),
    {
        proof {
            use_type_invariant(self);
        }
        &self.sells
    }

    /// The best `depth` prices of a side, each with what is left to spend at it, or `None` where
    /// a sum overflows.
    pub fn get_depth(&self, direction: Drt, depth: usize) -> (r: Option<Vec<(Decimal, Decimal)>>)
        ensures
            r is Some == levels(self@.queue(direction), 0, depth as nat) is Some,
            r is Some ==> r->0@ == levels(self@.queue(direction), 0, depth as nat)->0,
    {
        let q: &Vec<OrderBrief> = match direction {
            Drt::Buy => &self.buys,
            Drt::Sell => &self.sells,
        };
        let mut result: Vec<(Decimal, Decimal)> = Vec::new();
        let mut start: usize = 0;
        while start < q.len()
            invariant
                start <= q@.len(),
                q@ == self@.queue(direction),
                result@.len() <= depth,
                levels(q@, 0, depth as nat) == prefixed(
                    result@,
                    levels(q@, start as int, (depth - result@.len()) as nat),
                ),
            decreases q@.len() - start,
        {
            let price = q[start].price;
            let mut volume = q[start].src_volume;
            let mut end: usize = start + 1;
            while end < q.len() && q[end].price == price
                invariant
                    start < end <= q@.len(),
                    q@ == self@.queue(direction),
                    result@.len() <= depth,
                    levels(q@, 0, depth as nat) == prefixed(
                        result@,
                        levels(q@, start as int, (depth - result@.len()) as nat),
                    ),
                    price == q@[start as int].price,
                    run_end(q@, start as int, start + 1) == run_end(q@, start as int, end as int),
                    run_volume(q@, start as int, end as int) == Some(volume),
                decreases q@.len() - end,
            {
                match volume.checked_add(q[end].src_volume) {
                    Some(v) => {
                        volume = v;
                    },
                    None => {
                        proof {
                            lemma_run_overflow(q@, start as int, end + 1);
                        }
                        return None;
                    },
                }
                end = end + 1;
            }
            if result.len() == depth {
                assert(result@ + Seq::<(Decimal, Decimal)>::empty() =~= result@);
                return Some(result);
            }
            let ghost before = result@;
            result.push((price, volume));
            proof {
                let rest = levels(q@, end as int, (depth - result@.len()) as nat);
                if rest is Some {
                    assert(before + (seq![(price, volume)] + rest->0) =~= result@ + rest->0);
                }
            }
            start = end;
        }
        assert(result@ + Seq::<(Decimal, Decimal)>::empty() =~= result@);
        Some(result)
    }
}

/// The sequence in front of another one that may have failed.
spec fn prefixed(a: Seq<(Decimal, Decimal)>, b: Option<Seq<(Decimal, Decimal)>>) -> Option<
    Seq<(Decimal, Decimal)>,
> {
    match b {
        Some(s) => Some(a + s),
        None => None,
    }
}

/// Where the volume of a part of a run overflows, that of the run does.
proof fn lemma_run_overflow(q: Seq<OrderBrief>, start: int, i: int)
    requires
        0 <= start < i <= q.len(),
        run_volume(q, start, i) is None,
    ensures
        run_volume(q, start, run_end(q, start, i)) is None,
    decreases q.len() - i,
{
    if i < q.len() && q[i].price.val() == q[start].price.val() {
        lemma_run_overflow(q, start, i + 1);
    }
}

/// Sets the volumes of the order of this price, time and id. Returns whether it stands there.
fn set_volume(
    q: &mut Vec<OrderBrief>,
    d: Drt,
    p: Decimal,
    t: u64,
    id: usize,
    src: Decimal,
    dst: Decimal,
) -> (r: bool)
    requires
        sorted(old(q)@, d),
    ensures
        r == occupied(old(q)@, d, p, t, id),
        !r ==> final(q)@ == old(q)@,
        r ==> final(q)@ == old(q)@.update(
            rank(old(q)@, d, p, t, id),
            (OrderBrief {
                src_volume: src,
                dst_volume: dst,
                ..old(q)@[rank(old(q)@, d, p, t, id)]
            }),
        ),
{
    let r = find(q, d, p, t, id);
    if r < q.len() && q[r].price == p && q[r].step_count_created == t && q[r].id == id {
        let b = q[r];
        q[r] = OrderBrief { src_volume: src, dst_volume: dst, ..b };
        true
    } else {
        false
    }
}

} // verus!
