//! What holds of order books: price before time, and what each request leaves as it was.

use crate::decimal::Decimal;
use crate::node::Drt;
use crate::order::OrderBrief;
use crate::order_book::{
    before, lemma_found, lemma_rank_splits, lemma_without, levels, placed, rank, run_end,
    run_volume, sorted, BookV,
};
use vstd::prelude::*;

verus! {

/// The first order of a side has the best price, and of those at its price it was opened first,
/// or has the lowest id of those opened first.
pub proof fn law_best_first(book: BookV, d: Drt, i: int)
    requires
        book.wf(),
        0 < i < book.queue(d).len(),
    ensures
        match d {
            Drt::Buy => book.queue(d)[i].price.val() <= book.queue(d)[0].price.val(),
            Drt::Sell => book.queue(d)[i].price.val() >= book.queue(d)[0].price.val(),
        },
        book.queue(d)[i].price.val() == book.queue(d)[0].price.val()
            ==> book.queue(d)[0].step_count_created <= book.queue(d)[i].step_count_created,
        book.queue(d)[i].price.val() == book.queue(d)[0].price.val()
            && book.queue(d)[0].step_count_created == book.queue(d)[i].step_count_created
            ==> book.queue(d)[0].id < book.queue(d)[i].id,
{
    assert(sorted(book.queue(d), d));
    let a = book.queue(d)[0];
    let b = book.queue(d)[i];
    assert(before(d, a.price, a.step_count_created, a.id, b.price, b.step_count_created, b.id));
}

/// An order that is put in stands in its queue and is known, and every other order stays. There
/// is one more order where it was not known, and as many as before where it was.
pub proof fn law_inserted(book: BookV, b: OrderBrief)
    requires
        book.wf(),
    ensures
        book.inserted(b).wf(),
        book.inserted(b).index.dom().contains(b.id),
        book.inserted(b).queue(b.direction).contains(b),
        book.inserted(b).count() == book.count() + if book.index.dom().contains(b.id) {
            0int
        } else {
            1
        },
        forall|d: Drt, i: int|
            #![trigger book.queue(d)[i]]
            0 <= i < book.queue(d).len() && book.queue(d)[i].id != b.id ==> book.inserted(b).queue(
                d,
            ).contains(book.queue(d)[i]),
{
    book.lemma_inserted_wf(b);
    let cleared = if book.index.dom().contains(b.id) {
        book.without(b.id)
    } else {
        book
    };
    let n = book.inserted(b);
    let q = cleared.queue(b.direction);
    if book.index.dom().contains(b.id) {
        lemma_without(book, b.id);
    }
    assert(sorted(q, b.direction));
    lemma_rank_splits(q, b.direction, b.price, b.step_count_created, b.id, 0);
    let r = rank(q, b.direction, b.price, b.step_count_created, b.id);
    assert(n.queue(b.direction)[r] == b);
    lemma_count_inserted(book, b);
    assert forall|d: Drt, i: int|
        #![trigger book.queue(d)[i]]
        0 <= i < book.queue(d).len() && book.queue(d)[i].id != b.id implies n.queue(d).contains(
        book.queue(d)[i],
    ) by {
        let x = book.queue(d)[i];
        let j = book.lemma_kept(b.id, d, i);
        let j1 = if d == b.direction && j >= r {
            j + 1
        } else {
            j
        };
        assert(n.queue(d)[j1] == x);
    }
}

/// How many orders there are once one was put in.
proof fn lemma_count_inserted(book: BookV, b: OrderBrief)
    requires
        book.wf(),
    ensures
        book.inserted(b).count() == book.count() + if book.index.dom().contains(b.id) {
            0int
        } else {
            1
        },
{
    let known = book.index.dom().contains(b.id);
    if known {
        assert(book.standing(b.id));
        lemma_without(book, b.id);
    }
    let cleared = if known {
        book.without(b.id)
    } else {
        book
    };
    assert(cleared.count() == book.count() - if known {
        1int
    } else {
        0
    });
    let q = cleared.queue(b.direction);
    assert(sorted(q, b.direction));
    lemma_rank_splits(q, b.direction, b.price, b.step_count_created, b.id, 0);
    assert(placed(q, b.direction, b).len() == q.len() + 1);
}

/// A cancelled order is not known any more and stands in neither queue, and every other order
/// stays. There is one order less where it was known.
pub proof fn law_cancelled(book: BookV, id: usize)
    requires
        book.wf(),
    ensures
        book.cancelled(id).wf(),
        !book.cancelled(id).index.dom().contains(id),
        book.cancelled(id).count() == book.count() - if book.index.dom().contains(id) {
            1int
        } else {
            0
        },
        forall|d: Drt, i: int|
            #![trigger book.cancelled(id).queue(d)[i]]
            0 <= i < book.cancelled(id).queue(d).len() ==> book.cancelled(id).queue(d)[i].id != id,
        forall|d: Drt, i: int|
            #![trigger book.queue(d)[i]]
            0 <= i < book.queue(d).len() && book.queue(d)[i].id != id ==> book.cancelled(id).queue(
                d,
            ).contains(book.queue(d)[i]),
{
    book.lemma_cancelled_wf(id);
    let n = book.cancelled(id);
    if book.index.dom().contains(id) {
        lemma_without(book, id);
    }
    assert forall|d: Drt, i: int|
        #![trigger n.queue(d)[i]]
        0 <= i < n.queue(d).len() implies n.queue(d)[i].id != id by {
        assert(n.indexed(d));
    }
    assert forall|d: Drt, i: int|
        #![trigger book.queue(d)[i]]
        0 <= i < book.queue(d).len() && book.queue(d)[i].id != id implies n.queue(d).contains(
        book.queue(d)[i],
    ) by {
        let j = book.lemma_kept(id, d, i);
        assert(n.queue(d)[j] == book.queue(d)[i]);
    }
}

/// Cancelling an order right after it was put in leaves the book as it was, where the order was
/// not known.
pub proof fn law_cancel_undoes_insert(book: BookV, b: OrderBrief)
    requires
        book.wf(),
        !book.index.dom().contains(b.id),
    ensures
        book.inserted(b).cancelled(b.id) == book,
{
    let d = b.direction;
    let q = book.queue(d);
    let n = book.inserted(b);
    assert(sorted(q, d));
    book.lemma_inserted_wf(b);
    lemma_rank_splits(q, d, b.price, b.step_count_created, b.id, 0);
    let r = rank(q, d, b.price, b.step_count_created, b.id);
    assert(n.queue(d)[r] == b);
    assert(sorted(n.queue(d), d));
    lemma_found(n.queue(d), d, b.price, b.step_count_created, b.id, r);
    assert(n.queue(d).remove(r) =~= q);
    assert(n.cancelled(b.id).index =~= book.index);
    assert(n.cancelled(b.id) =~= book);
}

/// Setting the volumes of an order changes neither where the orders stand nor the other orders.
pub proof fn law_volume_set(book: BookV, id: usize, src: Decimal, dst: Decimal, d: Drt, i: int)
    requires
        book.wf(),
        0 <= i < book.queue(d).len(),
    ensures
        book.with_volume(id, src, dst).wf(),
        book.with_volume(id, src, dst).index == book.index,
        book.with_volume(id, src, dst).queue(d).len() == book.queue(d).len(),
        book.queue(d)[i].id == id ==> book.with_volume(id, src, dst).queue(d)[i] == (OrderBrief {
            src_volume: src,
            dst_volume: dst,
            ..book.queue(d)[i]
        }),
        book.queue(d)[i].id != id ==> book.with_volume(id, src, dst).queue(d)[i] == book.queue(
            d,
        )[i],
{
    book.lemma_with_volume_wf(id, src, dst);
    assert(book.indexed(d));
    assert(sorted(book.queue(d), d));
    if book.queue(d)[i].id == id {
        lemma_found(book.queue(d), d, book.index[id].price, book.index[id].time, id, i);
    }
    if book.index.dom().contains(id) {
        assert(book.standing(id));
    }
}

/// The orders of a queue at a price, in their order.
pub open spec fn orders_at(q: Seq<OrderBrief>, price: int) -> Seq<OrderBrief> {
    q.filter(|b: OrderBrief| b.price.val() == price)
}

/// The sum of what some orders have left to spend, from the first to the last, or `None` where it
/// overflows.
pub open spec fn volume_of(q: Seq<OrderBrief>) -> Option<Decimal> {
    run_volume(q, 0, q.len() as int)
}

/// The prices of a queue.
pub open spec fn prices(q: Seq<OrderBrief>) -> Set<int> {
    q.map_values(|b: OrderBrief| b.price.val()).to_set()
}

/// The price levels of a side are by rising price for sell orders and by falling price for buy
/// orders, each price once, and all prices are those of orders. There are as many as there are
/// prices, up to the depth asked for, and the volume of each is the sum of those of all orders at
/// its price.
pub proof fn law_levels(q: Seq<OrderBrief>, d: Drt, depth: nat)
    requires
        sorted(q, d),
        levels(q, 0, depth) is Some,
    ensures
        (levels(q, 0, depth)->0).len() == if prices(q).len() < depth {
            prices(q).len()
        } else {
            depth
        },
        q.len() > 0 && depth > 0 ==> (levels(q, 0, depth)->0)[0].0 == q[0].price,
        forall|i: int|
            0 <= i < (levels(q, 0, depth)->0).len() ==> prices(q).contains(
                (#[trigger] (levels(q, 0, depth)->0)[i]).0.val(),
            ),
        forall|i: int|
            0 <= i < (levels(q, 0, depth)->0).len() ==> volume_of(
                orders_at(q, (#[trigger] (levels(q, 0, depth)->0)[i]).0.val()),
            ) == Some((levels(q, 0, depth)->0)[i].1),
        forall|i: int, j: int|
            0 <= i < j < (levels(q, 0, depth)->0).len() ==> match d {
                Drt::Buy => (#[trigger] (levels(q, 0, depth)->0)[i]).0.val() > (
                #[trigger] (levels(q, 0, depth)->0)[j]).0.val(),
                Drt::Sell => (levels(q, 0, depth)->0)[i].0.val() < (levels(
                    q,
                    0,
                    depth,
                )->0)[j].0.val(),
            },
{
    let all = levels(q, 0, depth)->0;
    lemma_levels(q, d, 0, depth);
    lemma_levels_count(q, d, 0, depth);
    assert(q.skip(0) =~= q);
    assert forall|i: int| 0 <= i < all.len() implies prices(q).contains(
        (#[trigger] all[i]).0.val(),
    ) by {
        let k = choose|k: int| 0 <= k < q.len() && q[k].price == all[i].0;
        lemma_price_of(q, k);
    }
}

/// The price of an order is one of the prices of its queue.
proof fn lemma_price_of(q: Seq<OrderBrief>, k: int)
    requires
        0 <= k < q.len(),
    ensures
        prices(q).contains(q[k].price.val()),
{
    let vals = q.map_values(|b: OrderBrief| b.price.val());
    assert(vals[k] == q[k].price.val());
    assert(vals.contains(vals[k]));
}

/// There are as many levels from an order on as there are prices, up to the depth asked for.
proof fn lemma_levels_count(q: Seq<OrderBrief>, d: Drt, start: int, depth: nat)
    requires
        sorted(q, d),
        0 <= start <= q.len(),
        levels(q, start, depth) is Some,
    ensures
        prices(q.skip(start)).finite(),
        (levels(q, start, depth)->0).len() == if prices(q.skip(start)).len() < depth {
            prices(q.skip(start)).len()
        } else {
            depth
        },
    decreases depth,
{
    let rest = q.skip(start);
    let vals = rest.map_values(|b: OrderBrief| b.price.val());
    vstd::seq_lib::seq_to_set_is_finite(vals);
    if start >= q.len() {
        assert(vals.to_set() =~= Set::<int>::empty());
    } else if depth > 0 {
        let end = run_end(q, start, start + 1);
        lemma_run_end(q, d, start, start + 1);
        lemma_levels_count(q, d, end, (depth - 1) as nat);
        let p = q[start].price.val();
        let later = q.skip(end);
        assert forall|x: int| prices(rest).contains(x) implies #[trigger] prices(later).insert(
            p,
        ).contains(x) by {
            let k = choose|k: int| 0 <= k < vals.len() && vals[k] == x;
            assert(rest[k] == q[start + k]);
            if start + k >= end {
                assert(later[start + k - end] == q[start + k]);
                lemma_price_of(later, start + k - end);
            }
        }
        assert forall|x: int| prices(later).insert(p).contains(x) implies #[trigger] prices(
            rest,
        ).contains(x) by {
            if x == p {
                assert(rest[0] == q[start]);
                lemma_price_of(rest, 0);
            } else {
                let seen = later.map_values(|b: OrderBrief| b.price.val());
                let k = choose|k: int| 0 <= k < seen.len() && seen[k] == x;
                assert(later[k] == q[end + k]);
                assert(rest[end + k - start] == q[end + k]);
                lemma_price_of(rest, end + k - start);
            }
        }
        assert(prices(rest) =~= prices(later).insert(p));
        assert(!prices(later).contains(p)) by {
            if prices(later).contains(p) {
                let seen = later.map_values(|b: OrderBrief| b.price.val());
                let k = choose|k: int| 0 <= k < seen.len() && seen[k] == p;
                assert(later[k] == q[end + k]);
            }
        }
    }
}

/// The levels from an order on whose price none before it has.
proof fn lemma_levels(q: Seq<OrderBrief>, d: Drt, start: int, depth: nat)
    requires
        sorted(q, d),
        0 <= start <= q.len(),
        forall|a: int, b: int|
            0 <= a < start <= b < q.len() ==> (#[trigger] q[a]).price.val() != (
            #[trigger] q[b]).price.val(),
        levels(q, start, depth) is Some,
    ensures
        start < q.len() && depth > 0 ==> (levels(q, start, depth)->0).len() > 0 && (levels(
            q,
            start,
            depth,
        )->0)[0].0 == q[start].price,
        forall|i: int|
            0 <= i < (levels(q, start, depth)->0).len() ==> exists|k: int|
                start <= k < q.len() && q[k].price == (#[trigger] (levels(
                    q,
                    start,
                    depth,
                )->0)[i]).0,
        forall|i: int|
            0 <= i < (levels(q, start, depth)->0).len() ==> volume_of(
                orders_at(q, (#[trigger] (levels(q, start, depth)->0)[i]).0.val()),
            ) == Some((levels(q, start, depth)->0)[i].1),
        forall|i: int, j: int|
            0 <= i < j < (levels(q, start, depth)->0).len() ==> match d {
                Drt::Buy => (#[trigger] (levels(q, start, depth)->0)[i]).0.val() > (
                #[trigger] (levels(q, start, depth)->0)[j]).0.val(),
                Drt::Sell => (levels(q, start, depth)->0)[i].0.val() < (levels(
                    q,
                    start,
                    depth,
                )->0)[j].0.val(),
            },
    decreases depth,
{
    let all = levels(q, start, depth)->0;
    if start < q.len() && depth > 0 {
        let end = run_end(q, start, start + 1);
        lemma_run_end(q, d, start, start + 1);
        assert forall|a: int, b: int| 0 <= a < end <= b < q.len() implies (
        #[trigger] q[a]).price.val() != (#[trigger] q[b]).price.val() by {
            if a >= start {
                assert(q[a].price.val() == q[start].price.val());
            }
        }
        lemma_levels(q, d, end, (depth - 1) as nat);
        let rest = levels(q, end, (depth - 1) as nat)->0;
        assert(all[0].0 == q[start].price);
        assert(forall|i: int| 0 < i < all.len() ==> #[trigger] all[i] == rest[i - 1]);
        assert forall|i: int| 0 <= i < all.len() implies exists|k: int|
            start <= k < q.len() && q[k].price == (#[trigger] all[i]).0 by {
            if i == 0 {
                assert(q[start].price == all[0].0);
            } else {
                assert(all[i] == rest[i - 1]);
                let k = choose|k: int| end <= k < q.len() && q[k].price == rest[i - 1].0;
                assert(q[k].price == all[i].0);
            }
        }
        assert forall|i: int| 0 <= i < all.len() implies volume_of(
            orders_at(q, (#[trigger] all[i]).0.val()),
        ) == Some(all[i].1) by {
            if i == 0 {
                let p = q[start].price.val();
                lemma_orders_at(q, p, start, end, q.len());
                assert(q.take(q.len() as int) =~= q);
                lemma_volume_of_run(q, start, end, end);
                assert(q.subrange(start, end).len() == end - start);
            } else {
                assert(all[i] == rest[i - 1]);
            }
        }
        assert forall|i: int, j: int| 0 <= i < j < all.len() implies match d {
            Drt::Buy => (#[trigger] all[i]).0.val() > (#[trigger] all[j]).0.val(),
            Drt::Sell => all[i].0.val() < all[j].0.val(),
        } by {
            assert(all[j] == rest[j - 1]);
            if i == 0 {
                let k = choose|k: int| end <= k < q.len() && q[k].price == rest[j - 1].0;
                assert(before(
                    d,
                    q[start].price,
                    q[start].step_count_created,
                    q[start].id,
                    q[k].price,
                    q[k].step_count_created,
                    q[k].id,
                ));
                assert(q[k].price.val() != q[start].price.val());
            } else {
                assert(all[i] == rest[i - 1]);
            }
        }
    }
}

/// The orders at a price are those of its run.
proof fn lemma_orders_at(q: Seq<OrderBrief>, price: int, start: int, end: int, i: nat)
    requires
        0 <= start <= end <= q.len(),
        i <= q.len(),
        forall|k: int|
            0 <= k < q.len() ==> ((#[trigger] q[k]).price.val() == price <==> start <= k < end),
    ensures
        orders_at(q.take(i as int), price) == q.subrange(
            start,
            if i <= start {
                start
            } else if i <= end {
                i as int
            } else {
                end
            },
        ),
    decreases i,
{
    reveal(Seq::filter);
    let t = q.take(i as int);
    if i > 0 {
        lemma_orders_at(q, price, start, end, (i - 1) as nat);
        assert(t.drop_last() =~= q.take(i - 1));
        assert(t.last() == q[i - 1]);
        if start <= i - 1 < end {
            assert(q.subrange(start, i - 1).push(q[i - 1]) =~= q.subrange(start, i as int));
        }
    } else {
        assert(orders_at(t, price) =~= q.subrange(start, start));
    }
}

/// The volume of a part of a run.
proof fn lemma_volume_of_run(q: Seq<OrderBrief>, start: int, end: int, i: int)
    requires
        0 <= start < i <= end <= q.len(),
    ensures
        run_volume(q, start, i) == run_volume(q.subrange(start, end), 0, i - start),
    decreases i,
{
    if i > start + 1 {
        lemma_volume_of_run(q, start, end, i - 1);
    }
}

/// The orders after a run have other prices than those in it.
proof fn lemma_run_end(q: Seq<OrderBrief>, d: Drt, start: int, i: int)
    requires
        sorted(q, d),
        0 <= start < i <= q.len(),
        forall|k: int|
            start <= k < i ==> (#[trigger] q[k]).price.val() == q[start].price.val(),
    ensures
        i <= run_end(q, start, i) <= q.len(),
        forall|k: int|
            start <= k < run_end(q, start, i) ==> (#[trigger] q[k]).price.val()
                == q[start].price.val(),
        forall|k: int|
            run_end(q, start, i) <= k < q.len() ==> (#[trigger] q[k]).price.val()
                != q[start].price.val(),
    decreases q.len() - i,
{
    if i < q.len() && q[i].price.val() == q[start].price.val() {
        lemma_run_end(q, d, start, i + 1);
    } else if i < q.len() {
        assert forall|k: int| i <= k < q.len() implies (#[trigger] q[k]).price.val()
            != q[start].price.val() by {
            assert(before(
                d,
                q[start].price,
                q[start].step_count_created,
                q[start].id,
                q[i].price,
                q[i].step_count_created,
                q[i].id,
            ));
            if k > i {
                assert(before(
                    d,
                    q[i].price,
                    q[i].step_count_created,
                    q[i].id,
                    q[k].price,
                    q[k].step_count_created,
                    q[k].id,
                ));
            }
        }
    }
}

} // verus!
