//! What becomes of a request for a limit order or a market order.

use crate::decimal::{Decimal, MAX_SCALE};
use crate::error::Error;
use crate::ledger_model::LedgerV;
use crate::node::{Drt, KindV, NodeV};
use crate::number_laws::{difference_off, sum_off};
use crate::order::{OrderBrief, OrderType, OrderV};
use crate::payment_laws::{alike_but_for, cut_to, law_transfer_moves, may_fall_below_zero, paid};
use crate::pool_laws::near;
use crate::value_laws::quotes_at;
use vstd::prelude::*;

verus! {

// ---- the pair of two tokens ----

/// Whether no pair trades two tokens.
pub open spec fn unpaired(l: LedgerV, a: usize, b: usize) -> bool {
    forall|k: int| !#[trigger] quotes_at(l, k, a, b) && !quotes_at(l, k, b, a)
}

/// Whether a pair was made of two tokens, with nothing in it and at a price of one. Prices are given
/// in the engine's quote token where it is one of the two.
pub open spec fn pair_made(l: LedgerV, m: LedgerV, src: usize, dst: usize, id: usize) -> bool {
    let n = m.node(id);
    let p = n.pair();
    &&& unpaired(l, src, dst)
    &&& src != dst
    &&& id == l.nodes.len()
    &&& m == (LedgerV { nodes: l.nodes.push(n), pairs: l.pairs.push(id), ..l })
    &&& n.kind is Pair
    &&& n.core.id == id
    &&& forall|t: usize| (#[trigger] n.balance(t)).val() == 0
    &&& n.core.msgs.len() == 0
    &&& p.price.val() == Decimal::step(0)
    &&& p.book.buys.len() == 0 && p.book.sells.len() == 0 && p.logs.len() == 0
    &&& p.precision == l.precision
    &&& p.max_tra_log_length == l.max_tra_log_length
    &&& p.fee is None
    &&& src == l.quote || dst == l.quote ==> p.quote_token == l.quote
}

proof fn lemma_find_pair(l: LedgerV, src: usize, dst: usize, i: nat) -> (k: int)
    requires
        i <= l.pairs.len(),
    ensures
        match l.find_pair(src, dst, i) {
            Some((id, forward)) => {
                &&& i <= k < l.pairs.len()
                &&& l.pairs[k] == id
                &&& quotes_at(l, k, src, dst) || quotes_at(l, k, dst, src)
                &&& forward == (l.node(id).pair().quote_token == src)
            },
            None => forall|j: int|
                i <= j ==> !#[trigger] quotes_at(l, j, src, dst) && !quotes_at(l, j, dst, src),
        },
    decreases l.pairs.len() - i,
{
    if i < l.pairs.len() {
        if quotes_at(l, i as int, src, dst) || quotes_at(l, i as int, dst, src) {
            i as int
        } else {
            let k = lemma_find_pair(l, src, dst, i + 1);
            assert forall|j: int| i <= j && l.find_pair(src, dst, i) is None implies
                !#[trigger] quotes_at(l, j, src, dst) && !quotes_at(l, j, dst, src) by {
                if j > i {
                    assert(i + 1 <= j);
                }
            }
            k
        }
    } else {
        0
    }
}

/// The pair of two tokens trades these two: one that there is, or else a new one. There is none
/// where there was none before and the two may not be traded for each other.
pub proof fn law_pair_of_two(l: LedgerV, src: usize, dst: usize)
    requires
        l.nodes.len() < usize::MAX,
    ensures
        match l.pair_for(src, dst) {
            Ok((m, id, forward)) => {
                let p = m.node(id).pair();
                &&& m.has(id)
                &&& m.node(id).is_pair()
                &&& m.pairs.contains(id)
                &&& (p.quote_token == src && p.base_token == dst) || (p.quote_token == dst
                    && p.base_token == src)
                &&& forward == (p.quote_token == src)
                &&& m == l || pair_made(l, m, src, dst, id)
            },
            Err(Error::SwapNotAllowed { src: a, dst: b }) => a == src && b == dst && unpaired(
                l,
                src,
                dst,
            ) && !l.swap_allowed(src, dst),
            Err(_) => false,
        },
{
    let k = lemma_find_pair(l, src, dst, 0);
    Decimal::lemma_of(1, 0);
    Decimal::lemma_zero();
    if l.find_pair(src, dst, 0) is None {
        assert forall|j: int| !#[trigger] quotes_at(l, j, src, dst) && !quotes_at(
            l,
            j,
            dst,
            src,
        ) by {}
        assert(unpaired(l, src, dst));
        if l.swap_allowed(src, dst) {
            let (m, id, forward) = l.pair_for(src, dst)->Ok_0;
            assert(m.pairs[l.pairs.len() as int] == id);
            assert(m.nodes =~= l.nodes.push(m.node(id)));
            assert(pair_made(l, m, src, dst, id));
        }
    } else {
        assert(l.pairs[k] == (l.find_pair(src, dst, 0)->0).0);
    }
}

/// Whether a token refuses to be traded for another one: it is not to be traded at all, or has a list
/// of tokens that it may be traded for and the other one is not on it.
pub open spec fn refuses(l: LedgerV, token: usize, other: usize) -> bool {
    &&& l.has(token)
    &&& l.node(token).kind matches KindV::Token(t) && (t.not_tradable || exists|x: usize| #[trigger]
        t.swap_whitelist.contains(x) && !t.swap_whitelist.contains(other))
}

/// Two tokens may be traded for each other where they are two and neither refuses the other.
pub proof fn law_may_be_traded(l: LedgerV, a: usize, b: usize)
    ensures
        l.swap_allowed(a, b) <==> a != b && !refuses(l, a, b) && !refuses(l, b, a),
{
    if let Some(t) = l.token(a) {
        if !t.swap_whitelist.is_empty() && !t.swap_whitelist.contains(b) {
            let x = t.swap_whitelist.choose();
            assert(t.swap_whitelist.contains(x));
        }
    }
    if let Some(t) = l.token(b) {
        if !t.swap_whitelist.is_empty() && !t.swap_whitelist.contains(a) {
            let x = t.swap_whitelist.choose();
            assert(t.swap_whitelist.contains(x));
        }
    }
}

// ---- limit orders ----

/// The node that becomes the next order: the one that was closed last, or else a new one.
pub open spec fn next_order(l: LedgerV) -> usize {
    if l.order_pool.len() > 0 {
        l.order_pool.last()
    } else {
        l.nodes.len() as usize
    }
}

/// Whether the node that becomes the next order is ready: one that was closed is an order that holds
/// nothing.
pub open spec fn order_ready(l: LedgerV) -> bool {
    l.order_pool.len() > 0 ==> {
        let id = l.order_pool.last();
        &&& l.has(id)
        &&& l.node(id).kind is Order
        &&& l.node(id).core.id == id
        &&& forall|t: usize| (#[trigger] l.node(id).balance(t)).valid() && l.node(id).balance(t).val() == 0
    }
}

/// The ledger with an order that was just opened.
spec fn with_open_order(
    l: LedgerV,
    id: usize,
    owner: usize,
    pair_id: usize,
    src_token: usize,
    dst_token: usize,
    price: Decimal,
) -> LedgerV {
    l.with_node(
        id,
        NodeV {
            kind: KindV::Order(
                OrderV {
                    owner_node_id: owner,
                    pair_node_id: pair_id,
                    src_token,
                    dst_token,
                    price,
                    step_count_created: l.step_count,
                    openning: true,
                    order_type: OrderType::Make,
                },
            ),
            ..l.node(id)
        },
    )
}

/// Whether a limit order was opened in a ledger that has the pair. The order is that of its owner, at
/// its price and of the current frame; it got `v` of what it is to spend from the paying node; the
/// pair, `n` before, took it into its book on its side; and its owner knows of it.
pub open spec fn opened(
    l: LedgerV,
    m: LedgerV,
    src_id: usize,
    owner: usize,
    pair_id: usize,
    src_token: usize,
    dst_token: usize,
    volume: Decimal,
    price: Decimal,
    v: Decimal,
    n: NodeV,
) -> bool {
    let id = next_order(l);
    let has = l.node(src_id).balance(src_token);
    let zero = Decimal::of(0, 0);
    let p = l.node(pair_id).pair();
    &&& cut_to(volume, l.precision, v)
    &&& m.orders == l.orders.insert(id)
    &&& m.order(id) == Ok::<OrderV, Error>(
        OrderV {
            owner_node_id: owner,
            pair_node_id: pair_id,
            src_token,
            dst_token,
            price,
            step_count_created: l.step_count,
            openning: true,
            order_type: OrderType::Make,
        },
    )
    &&& near(
        m.node(src_id).balance(src_token).val(),
        has.val() - v.val(),
        difference_off(has, v),
        difference_off(has, v),
    )
    &&& m.node(id).balance(src_token).val() == v.val()
    &&& forall|i: usize, t: usize|
        l.has(i) && t != src_token ==> (#[trigger] m.node(i).balance(t)).val() == l.node(i).balance(
            t,
        ).val()
    &&& forall|i: usize|
        l.has(i) && i != src_id && i != id && i != pair_id && i != owner ==> #[trigger] m.node(i)
            == l.node(i)
    &&& alike_but_for(n, l.node(pair_id), src_token)
    &&& n.brief_inserted(
        OrderBrief {
            id,
            direction: if p.quote_token == src_token {
                Drt::Buy
            } else {
                Drt::Sell
            },
            src_token,
            dst_token,
            src_volume: m.node(id).balance(src_token),
            dst_volume: m.node(id).balance(dst_token),
            price,
            step_count_created: l.step_count,
        },
        l.precision,
    ) == Some(m.node(pair_id))
    &&& m.node(owner).kind matches KindV::Account(orders) ==> orders.contains(id)
}

#[verifier::spinoff_prover]
#[verifier::rlimit(60)]
proof fn lemma_opened(
    l: LedgerV,
    src_id: usize,
    owner: usize,
    pair_id: usize,
    src_token: usize,
    dst_token: usize,
    volume: Decimal,
    price: Decimal,
) -> (r: (Decimal, NodeV))
    requires
        l.nodes.len() < usize::MAX,
        l.precision <= MAX_SCALE,
        l.is_token(src_token),
        src_token != dst_token,
        l.has(src_id),
        l.has(owner),
        volume.valid(),
        volume.val() >= 0,
        may_fall_below_zero(l, src_token, false) || l.node(src_id).balance(src_token).val()
            >= volume.val(),
        order_ready(l),
        src_id != next_order(l),
        owner != next_order(l),
        l.has(pair_id),
        l.node(pair_id).is_pair(),
        ({
            let p = l.node(pair_id).pair();
            (p.quote_token == src_token && p.base_token == dst_token) || (p.quote_token == dst_token
                && p.base_token == src_token)
        }),
        ({
            let (l1, id) = l.order_taken();
            let l2 = with_open_order(l1, id, owner, pair_id, src_token, dst_token, price);
            l2.transferred(src_id, id, src_token, volume, false) matches Some(t) && match t {
                Ok(l3) => l3.order_placed(id, pair_id, owner),
                Err(_) => l2.order_placed(id, pair_id, owner),
            } is Some
        }),
    ensures
        ({
            let (l1, id) = l.order_taken();
            let l2 = with_open_order(l1, id, owner, pair_id, src_token, dst_token, price);
            let t = l2.transferred(src_id, id, src_token, volume, false)->0;
            &&& !(l1.order(id) is Err || owner == l1.node(id).core.id)
            &&& t matches Ok(l3) && opened(
                l,
                l3.order_placed(id, pair_id, owner)->0,
                src_id,
                owner,
                pair_id,
                src_token,
                dst_token,
                volume,
                price,
                r.0,
                r.1,
            )
        }),
{
    Decimal::lemma_zero();
    Decimal::lemma_of(0, 0);
    let (l1, id) = l.order_taken();
    let l2 = with_open_order(l1, id, owner, pair_id, src_token, dst_token, price);
    assert(id == next_order(l));
    assert(id != pair_id);
    assert(l2.can_be_negative(src_token) == l.can_be_negative(src_token));
    assert(forall|i: usize| l.has(i) && i != id ==> l2.node(i) == l.node(i));
    assert forall|t: usize| (#[trigger] l2.node(id).balance(t)).valid() && l2.node(id).balance(
        t,
    ).val() == 0 by {
        assert(l2.node(id).core == l1.node(id).core);
        if l.order_pool.len() > 0 {
            assert(l.node(id).balance(t).valid());
            assert(l1.node(id) == l.node(id));
        } else {
            assert(l1.node(id).core.sheet == Map::<usize, Decimal>::empty());
        }
    }
    let t = l2.transferred(src_id, id, src_token, volume, false)->0;
    law_transfer_moves(l2, src_id, id, src_token, volume, false);
    let free = may_fall_below_zero(l2, src_token, false);
    assert(free == may_fall_below_zero(l, src_token, false));
    let l3 = t->Ok_0;
    let v = choose|v: Decimal| #[trigger] paid(l2, l3, src_id, id, src_token, volume, free, v);
    let current = l2.node(id).balance(src_token);
    current.lemma_sum(v);
    assert(sum_off(current, v) == 0);
    assert(l3.node(id).balance(src_token).val() == v.val());
    let n = l3.node(pair_id);
    assert(alike_but_for(n, l.node(pair_id), src_token));
    let brief = l3.order_brief(id)->Ok_0;
    let n2 = n.brief_inserted(brief, l3.precision)->0;
    assert(n2.core.sheet == n.core.sheet);
    assert(n2.is_pair());
    let a = l3.with_node(pair_id, n2);
    let m = a.with_account_order(owner, id);
    assert(m == l3.order_placed(id, pair_id, owner)->0);
    assert(m.node(pair_id) == n2);
    assert(m.node(id) == l3.node(id));
    assert forall|i: usize, t: usize| l.has(i) && t != src_token implies (
    #[trigger] m.node(i).balance(t)).val() == l.node(i).balance(t).val() by {
        assert(m.node(i).core.sheet == l3.node(i).core.sheet);
        assert(l3.node(i).balance(t) == l2.node(i).balance(t));
    }
    assert(m.orders =~= l.orders.insert(id));
    (v, n)
}

/// A limit order that is asked for is opened with what its owner puts up. Nothing happens where it
/// has no volume or no price, where the paying node has too little, or where the two tokens may not
/// be traded for each other.
#[verifier::spinoff_prover]
#[verifier::rlimit(60)]
pub proof fn law_order_opened(
    l: LedgerV,
    src_id: usize,
    owner: usize,
    src_token: usize,
    dst_token: usize,
    volume: Decimal,
    price: Decimal,
)
    requires
        l.order_opened(src_id, owner, src_token, dst_token, volume, price) is Some,
        l.nodes.len() + 1 < usize::MAX,
        l.precision <= MAX_SCALE,
        l.is_token(src_token),
        src_token != dst_token,
        l.has(src_id),
        l.has(owner),
        volume.valid(),
        volume.val() >= 0,
        order_ready(l),
        src_id != next_order(l),
        owner != next_order(l),
    ensures
        ({
            let m = l.order_opened(src_id, owner, src_token, dst_token, volume, price)->0;
            let free = may_fall_below_zero(l, src_token, false);
            if volume.val() == 0 || price.val() == 0 || (!free && l.node(src_id).balance(
                src_token,
            ).val() < volume.val()) {
                m == l
            } else {
                match l.pair_for(src_token, dst_token) {
                    Ok((l0, pair_id, _)) => exists|v: Decimal, n: NodeV| #[trigger]
                        opened(
                            l0,
                            m,
                            src_id,
                            owner,
                            pair_id,
                            src_token,
                            dst_token,
                            volume,
                            price,
                            v,
                            n,
                        ),
                    Err(_) => m == l,
                }
            }
        }),
{
    let m = l.order_opened(src_id, owner, src_token, dst_token, volume, price)->0;
    let free = may_fall_below_zero(l, src_token, false);
    Decimal::lemma_zero();
    law_pair_of_two(l, src_token, dst_token);
    if !(volume.val() == 0 || price.val() == 0 || (!free && l.node(src_id).balance(src_token).val()
        < volume.val())) {
        if let Ok((l0, pair_id, _)) = l.pair_for(src_token, dst_token) {
            assert(l0.tokens == l.tokens && l0.order_pool == l.order_pool);
            assert(forall|i: usize| l.has(i) ==> l0.has(i) && l0.node(i) == l.node(i));
            assert(l0.can_be_negative(src_token) == l.can_be_negative(src_token));
            let (l1, id) = l0.order_taken();
            assert(id == next_order(l0));
            assert(!(l1.order(id) is Err || owner == l1.node(id).core.id));
            let (v, n) = lemma_opened(
                l0,
                src_id,
                owner,
                pair_id,
                src_token,
                dst_token,
                volume,
                price,
            );
            assert(opened(
                l0,
                m,
                src_id,
                owner,
                pair_id,
                src_token,
                dst_token,
                volume,
                price,
                v,
                n,
            ));
        }
    }
}

// ---- market orders ----

/// A market order that is asked for is one of the pair of the two tokens, on the side of the token
/// that its owner pays in, and for no more than the owner has, unless that token's balances may fall
/// below zero. None comes of it where the owner or the token is unknown, where nothing is left to
/// spend, or where the two tokens may not be traded for each other.
pub proof fn law_market_order_asked(
    l: LedgerV,
    owner: usize,
    src_token: usize,
    dst_token: usize,
    volume: Decimal,
)
    requires
        l.nodes.len() < usize::MAX,
    ensures
        ({
            let (m, asked) = l.swap_asked(owner, src_token, dst_token, volume);
            match l.pair_for(src_token, dst_token) {
                Ok((l0, pair_id, _)) => {
                    let has = l0.balance(owner, src_token);
                    let free = may_fall_below_zero(l0, src_token, false);
                    &&& m == l0
                    &&& match asked {
                        Some((id, d, v)) => {
                            let p = m.node(id).pair();
                            &&& id == pair_id
                            &&& d == Drt::Buy ==> p.quote_token == src_token && p.base_token
                                == dst_token
                            &&& d == Drt::Sell ==> p.base_token == src_token && p.quote_token
                                == dst_token
                            &&& m.has(owner) && m.is_token(src_token)
                            &&& v.val() != 0
                            &&& free ==> v == volume
                            &&& !free ==> v.val() <= volume.val() && v.val() <= has.val()
                            &&& v == volume || v == has
                        },
                        None => {
                            ||| !m.has(owner)
                            ||| !m.is_token(src_token)
                            ||| volume.val() == 0
                            ||| !free && has.val() == 0 && volume.val() >= 0
                        },
                    }
                },
                Err(_) => m == l && asked is None,
            }
        }),
{
    law_pair_of_two(l, src_token, dst_token);
    Decimal::lemma_zero();
}

} // verus!
