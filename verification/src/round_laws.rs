//! What becomes of the messages of a frame: each is dealt with, in rounds and in its turn.

use crate::contract::ContractLogic;
use crate::decimal::Decimal;
use crate::ledger_model::LedgerV;
use crate::matching::PairV;
use crate::node::{ContractState, CoreV, Drt, KindV, MsgV, NodeV, SwapTransfer};
use crate::order::{OrderBrief, OrderType};
use crate::order_book_laws::law_volume_set;
use crate::rpte_model::{find_group, grouped, sent, RpteV, SwapGroup, FRAME_ROUNDS};
use crate::virtual_pair::VirtualV;
use vstd::prelude::*;

verus! {

// ---- transfers ----

/// Whether the book of a pair says what an order holds.
pub open spec fn book_says(p: PairV, id: usize, src: Decimal, dst: Decimal) -> bool {
    forall|d: Drt, i: int|
        0 <= i < p.book.queue(d).len() && (#[trigger] p.book.queue(d)[i]).id == id ==> {
            &&& p.book.queue(d)[i].src_volume == src
            &&& p.book.queue(d)[i].dst_volume == dst
        }
}

/// Whether the book of a pair is as another one but for what an order holds.
pub open spec fn book_keeps(p: PairV, q: PairV, id: usize) -> bool {
    forall|d: Drt, i: int|
        #![trigger q.book.queue(d)[i]]
        0 <= i < p.book.queue(d).len() ==> {
            let a = p.book.queue(d)[i];
            let b = q.book.queue(d)[i];
            &&& q.book.queue(d).len() == p.book.queue(d).len()
            &&& a.id != id ==> b == a
            &&& b == (OrderBrief { src_volume: b.src_volume, dst_volume: b.dst_volume, ..a })
        }
}

/// After a transfer to or from an open limit order, the book of its pair says what the order holds,
/// and its owner knows of it. Nothing is noted of any other node.
pub proof fn law_order_noted(l: LedgerV, id: usize)
    requires
        l.order(id) matches Ok(o) ==> (l.pair(o.pair_node_id) matches Ok(p) ==> p.book.wf()),
    ensures
        ({
            let m = l.order_noted(id);
            match l.order(id) {
                Ok(o) => {
                    &&& !l.orders.contains(id) ==> m == l
                    &&& l.orders.contains(id) && (l.pair(o.pair_node_id) is Ok || !o.openning) ==> (
                    m.account(o.owner_node_id) matches Ok(orders) ==> orders.contains(id))
                    &&& l.orders.contains(id) && o.openning && o.order_type != OrderType::Swap && (
                    l.pair(o.pair_node_id) is Ok) ==> {
                        let p = l.node(o.pair_node_id).pair();
                        let q = m.node(o.pair_node_id).pair();
                        &&& book_says(
                            q,
                            id,
                            l.node(id).balance(o.src_token),
                            l.node(id).balance(o.dst_token),
                        )
                        &&& book_keeps(p, q, id)
                        &&& q == (PairV { book: q.book, ..p })
                    }
                    &&& forall|i: usize|
                        l.has(i) && i != o.pair_node_id && i != o.owner_node_id
                            ==> #[trigger] m.node(i) == l.node(i)
                },
                Err(_) => m == l,
            }
        }),
{
    let m = l.order_noted(id);
    if let Ok(o) = l.order(id) {
        if l.orders.contains(id) && o.openning && o.order_type != OrderType::Swap && l.pair(
            o.pair_node_id,
        ) is Ok {
            let p = l.node(o.pair_node_id).pair();
            let src = l.node(id).balance(o.src_token);
            let dst = l.node(id).balance(o.dst_token);
            let noted = l.with_node(
                o.pair_node_id,
                l.node(o.pair_node_id).brief_updated(l.order_brief(id)->Ok_0),
            );
            assert(m == noted.with_account_order(o.owner_node_id, id));
            assert(noted.node(o.pair_node_id).is_pair());
            assert(m.node(o.pair_node_id) == noted.node(o.pair_node_id));
            let q = m.node(o.pair_node_id).pair();
            assert(q.book == p.book.with_volume(id, src, dst));
            assert forall|d: Drt, i: int| 0 <= i < q.book.queue(d).len() implies {
                let a = p.book.queue(d)[i];
                let b = #[trigger] q.book.queue(d)[i];
                &&& i < p.book.queue(d).len()
                &&& q.book.queue(d).len() == p.book.queue(d).len()
                &&& a.id != id ==> b == a
                &&& a.id == id ==> b.src_volume == src && b.dst_volume == dst
                &&& b == (OrderBrief { src_volume: b.src_volume, dst_volume: b.dst_volume, ..a })
            } by {
                lemma_volumes_keep(p, id, src, dst, d);
                law_volume_set(p.book, id, src, dst, d, i);
            }
            assert forall|d: Drt, i: int|
                #![trigger q.book.queue(d)[i]]
                0 <= i < p.book.queue(d).len() implies {
                let a = p.book.queue(d)[i];
                let b = q.book.queue(d)[i];
                &&& q.book.queue(d).len() == p.book.queue(d).len()
                &&& a.id != id ==> b == a
                &&& b == (OrderBrief { src_volume: b.src_volume, dst_volume: b.dst_volume, ..a })
            } by {
                law_volume_set(p.book, id, src, dst, d, i);
            }
        }
    }
}

proof fn lemma_volumes_keep(p: PairV, id: usize, src: Decimal, dst: Decimal, d: Drt)
    requires
        p.book.wf(),
    ensures
        p.book.with_volume(id, src, dst).queue(d).len() == p.book.queue(d).len(),
{
    p.book.lemma_with_volume_wf(id, src, dst);
}

/// Whether a transfer was tried: it moved what it is to move, or was refused and moved nothing; and
/// both its ends were noted.
pub open spec fn transfer_tried(
    a: LedgerV,
    b: LedgerV,
    src: usize,
    dst: usize,
    token: usize,
    volume: Decimal,
    allow_negative: bool,
) -> bool {
    match a.transferred(src, dst, token, volume, allow_negative) {
        Some(Ok(c)) => b == c.order_noted(src).order_noted(dst),
        Some(Err(_)) => b == a.order_noted(src).order_noted(dst),
        None => false,
    }
}

/// Whether one transfer out of trades was tried after the other.
pub open spec fn settles(trace: Seq<LedgerV>, transfers: Seq<SwapTransfer>) -> bool {
    &&& trace.len() == transfers.len() + 1
    &&& forall|i: int|
        0 < i < trace.len() ==> transfer_tried(
            trace[i - 1],
            #[trigger] trace[i],
            transfers[i - 1].src_id,
            transfers[i - 1].dst_id,
            transfers[i - 1].token,
            transfers[i - 1].volume,
            false,
        )
}

proof fn lemma_settles(l: LedgerV, transfers: Seq<SwapTransfer>, k: nat) -> (trace: Seq<LedgerV>)
    requires
        k <= transfers.len(),
        l.swaps_settled(transfers, k) is Some,
    ensures
        settles(trace, transfers.take(k as int)),
        trace[0] == l,
        trace.last() == l.swaps_settled(transfers, k)->0,
    decreases k,
{
    if k == 0 {
        seq![l]
    } else {
        let before = lemma_settles(l, transfers, (k - 1) as nat);
        let b = l.swaps_settled(transfers, k)->0;
        let trace = before.push(b);
        let done = transfers.take(k as int);
        assert forall|i: int| 0 < i < trace.len() implies transfer_tried(
            trace[i - 1],
            #[trigger] trace[i],
            done[i - 1].src_id,
            done[i - 1].dst_id,
            done[i - 1].token,
            done[i - 1].volume,
            false,
        ) by {
            if i < before.len() {
                assert(before[i] == trace[i]);
                assert(done[i - 1] == transfers.take(k - 1)[i - 1]);
            }
        }
        trace
    }
}

/// Whether a message was dealt with where payments are made: a transfer was tried, any other
/// message does nothing.
pub open spec fn pay_step(a: LedgerV, b: LedgerV, m: MsgV) -> bool {
    match m {
        MsgV::Transfer { src_id, dst_id, token, volume, allow_negative } => transfer_tried(
            a,
            b,
            src_id,
            dst_id,
            token,
            volume,
            allow_negative,
        ),
        MsgV::TransferAll { src_id, dst_id } => match a.all_transferred(src_id, dst_id) {
            Some(Ok(c)) => b == c.order_noted(src_id).order_noted(dst_id),
            Some(Err(_)) => b == a.order_noted(src_id).order_noted(dst_id),
            None => false,
        },
        _ => b == a,
    }
}

/// Whether a message was dealt with where orders are closed.
pub open spec fn close_step(a: LedgerV, b: LedgerV, m: MsgV) -> bool {
    match m {
        MsgV::CloseOrder { order_id } => a.order_closed(order_id) == Some(b),
        _ => b == a,
    }
}

/// Whether all messages were dealt with one after the other, first the payments and then the orders
/// to close.
pub open spec fn pays_then_closes(
    paying: Seq<LedgerV>,
    closing: Seq<LedgerV>,
    msgs: Seq<MsgV>,
) -> bool {
    &&& paying.len() == msgs.len() + 1
    &&& closing.len() == msgs.len() + 1
    &&& closing[0] == paying.last()
    &&& forall|i: int| 0 < i < paying.len() ==> pay_step(
        paying[i - 1],
        #[trigger] paying[i],
        msgs[i - 1],
    )
    &&& forall|i: int| 0 < i < closing.len() ==> close_step(
        closing[i - 1],
        #[trigger] closing[i],
        msgs[i - 1],
    )
}

proof fn lemma_pays(l: LedgerV, msgs: Seq<MsgV>, k: nat) -> (trace: Seq<LedgerV>)
    requires
        k <= msgs.len(),
        l.transfers_done(msgs, k) is Some,
    ensures
        trace.len() == k + 1,
        trace[0] == l,
        trace.last() == l.transfers_done(msgs, k)->0,
        forall|i: int| 0 < i < trace.len() ==> pay_step(
            trace[i - 1],
            #[trigger] trace[i],
            msgs[i - 1],
        ),
    decreases k,
{
    if k == 0 {
        seq![l]
    } else {
        let before = lemma_pays(l, msgs, (k - 1) as nat);
        let b = l.transfers_done(msgs, k)->0;
        let trace = before.push(b);
        assert forall|i: int| 0 < i < trace.len() implies pay_step(
            trace[i - 1],
            #[trigger] trace[i],
            msgs[i - 1],
        ) by {
            if i < before.len() {
                assert(before[i] == trace[i]);
            }
        }
        trace
    }
}

proof fn lemma_closes(l: LedgerV, msgs: Seq<MsgV>, k: nat) -> (trace: Seq<LedgerV>)
    requires
        k <= msgs.len(),
        l.closes_done(msgs, k) is Some,
    ensures
        trace.len() == k + 1,
        trace[0] == l,
        trace.last() == l.closes_done(msgs, k)->0,
        forall|i: int| 0 < i < trace.len() ==> close_step(
            trace[i - 1],
            #[trigger] trace[i],
            msgs[i - 1],
        ),
    decreases k,
{
    if k == 0 {
        seq![l]
    } else {
        let before = lemma_closes(l, msgs, (k - 1) as nat);
        let b = l.closes_done(msgs, k)->0;
        let trace = before.push(b);
        assert forall|i: int| 0 < i < trace.len() implies close_step(
            trace[i - 1],
            #[trigger] trace[i],
            msgs[i - 1],
        ) by {
            if i < before.len() {
                assert(before[i] == trace[i]);
            }
        }
        trace
    }
}

// ---- market orders ----

/// A market order that was asked for.
pub struct Asked {
    pub pair_id: usize,
    pub direction: Drt,
    pub owner: usize,
    pub volume: Decimal,
}

impl Asked {
    /// Whether the market order is one of a pair and side.
    pub open spec fn of(self, pair_id: usize, d: Drt) -> bool {
        self.pair_id == pair_id && self.direction == d
    }
}

/// The market orders of a pair and side, in the order in which they were asked for.
pub open spec fn swaps_of(asked: Seq<Asked>, pair_id: usize, d: Drt) -> Seq<(usize, Decimal)>
    decreases asked.len(),
{
    if asked.len() == 0 {
        Seq::empty()
    } else {
        let before = swaps_of(asked.drop_last(), pair_id, d);
        if asked.last().of(pair_id, d) {
            before.push((asked.last().owner, asked.last().volume))
        } else {
            before
        }
    }
}

/// Whether a market order is the first that was asked for of its pair and side.
pub open spec fn first_of(asked: Seq<Asked>, k: int, pair_id: usize, d: Drt) -> bool {
    &&& 0 <= k < asked.len()
    &&& asked[k].of(pair_id, d)
    &&& forall|j: int| 0 <= j < k ==> !(#[trigger] asked[j]).of(pair_id, d)
}

/// Whether a group is the market orders of its pair and side, the first of them at a position.
pub open spec fn group_of(g: SwapGroup, asked: Seq<Asked>, k: int) -> bool {
    &&& g.swaps == swaps_of(asked, g.pair_id, g.direction)
    &&& first_of(asked, k, g.pair_id, g.direction)
}

/// Whether there is a group of the pair and side of a market order.
pub open spec fn has_group(groups: Seq<SwapGroup>, a: Asked) -> bool {
    exists|g: int|
        0 <= g < groups.len() && a.of((#[trigger] groups[g]).pair_id, groups[g].direction)
}

/// Whether groups are those of the market orders that were asked for: one for each pair and side, in
/// the order of their first ones, which stand at the given positions.
pub open spec fn groups_of(groups: Seq<SwapGroup>, asked: Seq<Asked>, firsts: Seq<int>) -> bool {
    &&& firsts.len() == groups.len()
    &&& forall|g: int| 0 <= g < groups.len() ==> group_of(#[trigger] groups[g], asked, firsts[g])
    &&& forall|g: int, h: int|
        0 <= g < h < groups.len() ==> #[trigger] firsts[g] < #[trigger] firsts[h]
    &&& forall|k: int| 0 <= k < asked.len() ==> has_group(groups, #[trigger] asked[k])
}

proof fn lemma_find_group(groups: Seq<SwapGroup>, pair_id: usize, d: Drt, i: nat)
    requires
        i <= groups.len(),
    ensures
        ({
            let k = find_group(groups, pair_id, d, i) as int;
            &&& i <= k <= groups.len()
            &&& k < groups.len() ==> groups[k].pair_id == pair_id && groups[k].direction == d
            &&& forall|j: int|
                i <= j < k ==> !((#[trigger] groups[j]).pair_id == pair_id && groups[j].direction
                    == d)
        }),
    decreases groups.len() - i,
{
    if i < groups.len() && !(groups[i as int].pair_id == pair_id && groups[i as int].direction
        == d) {
        lemma_find_group(groups, pair_id, d, i + 1);
    }
}

/// No market orders are found of a pair and side of which none was asked for.
proof fn lemma_no_swaps(asked: Seq<Asked>, pair_id: usize, d: Drt)
    requires
        forall|j: int| 0 <= j < asked.len() ==> !(#[trigger] asked[j]).of(pair_id, d),
    ensures
        swaps_of(asked, pair_id, d).len() == 0,
    decreases asked.len(),
{
    if asked.len() > 0 {
        assert forall|j: int| 0 <= j < asked.drop_last().len() implies !(
        #[trigger] asked.drop_last()[j]).of(pair_id, d) by {
            assert(asked.drop_last()[j] == asked[j]);
        }
        lemma_no_swaps(asked.drop_last(), pair_id, d);
        assert(!asked[asked.len() - 1].of(pair_id, d));
    }
}

/// A market order that is asked for joins the group of its pair and side, or begins one.
pub proof fn law_grouped(groups: Seq<SwapGroup>, asked: Seq<Asked>, firsts: Seq<int>, one: Asked)
    requires
        groups_of(groups, asked, firsts),
    ensures
        exists|f: Seq<int>| #[trigger]
            groups_of(
                grouped(groups, one.pair_id, one.direction, (one.owner, one.volume)),
                asked.push(one),
                f,
            ),
{
    let f = lemma_grouped(groups, asked, firsts, one);
}

proof fn lemma_grouped(
    groups: Seq<SwapGroup>,
    asked: Seq<Asked>,
    firsts: Seq<int>,
    one: Asked,
) -> (f: Seq<int>)
    requires
        groups_of(groups, asked, firsts),
    ensures
        groups_of(
            grouped(groups, one.pair_id, one.direction, (one.owner, one.volume)),
            asked.push(one),
            f,
        ),
{
    let more = grouped(groups, one.pair_id, one.direction, (one.owner, one.volume));
    let all = asked.push(one);
    assert(all.drop_last() =~= asked);
    lemma_find_group(groups, one.pair_id, one.direction, 0);
    let at = find_group(groups, one.pair_id, one.direction, 0) as int;
    let f = if at < groups.len() {
        firsts
    } else {
        firsts.push(asked.len() as int)
    };
    assert forall|g: int| 0 <= g < groups.len() implies firsts[g] < asked.len() by {
        assert(group_of(groups[g], asked, firsts[g]));
    }
    assert forall|g: int| 0 <= g < more.len() implies group_of(
        #[trigger] more[g],
        all,
        f[g],
    ) by {
        if g < groups.len() {
            let a = groups[g];
            assert(group_of(a, asked, firsts[g]));
            assert(more[g].pair_id == a.pair_id && more[g].direction == a.direction);
            assert forall|j: int| 0 <= j < firsts[g] implies !(#[trigger] all[j]).of(
                a.pair_id,
                a.direction,
            ) by {
                assert(all[j] == asked[j]);
            }
            assert(all[firsts[g]] == asked[firsts[g]]);
            if one.of(a.pair_id, a.direction) {
                if g < at {
                    assert(!(groups[g].pair_id == one.pair_id && groups[g].direction
                        == one.direction));
                }
                if at < g {
                    let b = groups[at];
                    assert(group_of(b, asked, firsts[at]));
                    assert(firsts[at] < firsts[g]);
                    assert(asked[firsts[at]].of(b.pair_id, b.direction));
                    assert(!asked[firsts[at]].of(a.pair_id, a.direction));
                }
                assert(g == at);
                assert(more[g].swaps == a.swaps.push((one.owner, one.volume)));
            }
        } else {
            assert(at == groups.len());
            assert forall|j: int| 0 <= j < asked.len() implies !(#[trigger] asked[j]).of(
                one.pair_id,
                one.direction,
            ) by {
                assert(has_group(groups, asked[j]));
                let h = choose|h: int|
                    0 <= h < groups.len() && asked[j].of(
                        (#[trigger] groups[h]).pair_id,
                        groups[h].direction,
                    );
                assert(!(groups[h].pair_id == one.pair_id && groups[h].direction
                    == one.direction));
            }
            lemma_no_swaps(asked, one.pair_id, one.direction);
            assert(more[g].swaps =~= swaps_of(all, one.pair_id, one.direction));
            assert forall|j: int| 0 <= j < asked.len() implies !(#[trigger] all[j]).of(
                one.pair_id,
                one.direction,
            ) by {
                assert(all[j] == asked[j]);
            }
        }
    }
    assert forall|k: int| 0 <= k < all.len() implies has_group(more, #[trigger] all[k]) by {
        if k < asked.len() {
            assert(all[k] == asked[k]);
            assert(has_group(groups, asked[k]));
            let g = choose|g: int|
                0 <= g < groups.len() && asked[k].of(
                    (#[trigger] groups[g]).pair_id,
                    groups[g].direction,
                );
            assert(more[g].pair_id == groups[g].pair_id && more[g].direction
                == groups[g].direction);
        } else {
            assert(more[at].pair_id == one.pair_id && more[at].direction == one.direction);
        }
    }
    f
}

// ---- the other messages ----

/// Whether a contract was called: its program ran with the name of the caller, the function and the
/// volume, on the ledger as it is, and what it asks for is left for the next frame. Nothing happens
/// where the node is not that of a contract with a program.
pub open spec fn call_step<L: ContractLogic>(
    a: RpteV<L>,
    b: RpteV<L>,
    src: usize,
    contract_id: usize,
    fn_id: u8,
    volume: Decimal,
) -> bool {
    if !a.slave_to_master.dom().contains(contract_id) || a.slave_to_master[contract_id]
        >= a.masters.len() {
        b == a
    } else {
        let i = a.slave_to_master[contract_id] as int;
        match a.masters[i].contract().program {
            Some(j) => if j < a.programs.len() {
                a.programs[j as int].called(a.masters[i], a.ledger, fn_id, src, volume) matches Some(
                    (n, msgs),
                ) && b == (RpteV {
                    masters: a.masters.update(i, n),
                    msgs: a.msgs + msgs,
                    ..a
                })
            } else {
                b == a
            },
            None => b == a,
        }
    }
}

/// Whether a contract was deployed at the node of a contract that is over, the last one of them, or
/// else at a new one. It is that of its owner, runs the program, and begins in this frame with
/// nothing.
pub open spec fn deploy_step<L: ContractLogic>(
    a: RpteV<L>,
    b: RpteV<L>,
    owner: usize,
    name: Seq<char>,
    program: usize,
) -> bool {
    let again = a.contract_pool.len() > 0;
    let slave = if again {
        a.contract_pool.last()
    } else {
        a.ledger.nodes.len() as usize
    };
    let c = b.masters.last().contract();
    &&& b.contract_pool == if again {
        a.contract_pool.drop_last()
    } else {
        a.contract_pool
    }
    &&& b.masters == a.masters.push(b.masters.last())
    &&& b.masters.last().core == (CoreV { id: slave, sheet: Map::empty(), msgs: Seq::empty() })
    &&& b.masters.last().kind is Contract
    &&& c.owner_node_id == owner && c.name == name && c.program == Some(program)
    &&& c.state == ContractState::Creating && c.step_count_created == a.ledger.step_count
    &&& c.on_create && c.on_update && c.on_end
    &&& b.slave_to_master == a.slave_to_master.insert(slave, a.masters.len() as usize)
    &&& b.msgs == a.msgs && b.programs == a.programs && b.running == a.running
    &&& b.ledger == (LedgerV { nodes: b.ledger.nodes, ..a.ledger })
    &&& b.ledger.nodes.len() == a.ledger.nodes.len() + if again {
        0int
    } else {
        1
    }
    &&& forall|i: usize|
        a.ledger.has(i) && i != slave ==> #[trigger] b.ledger.node(i) == a.ledger.node(i)
    &&& b.ledger.has(slave) && b.ledger.node(slave).kind is Contract ==> {
        &&& b.ledger.node(slave).core.id == slave
        &&& b.ledger.node(slave).contract().owner_node_id == owner
        &&& b.ledger.node(slave).contract().name == name
        &&& b.ledger.node(slave).contract().program is None
    }
}

/// Whether a token was set up: the one of the name, or a new one. What is asked for is added to its
/// settings and never taken away; a list of the tokens that it may be traded for takes the place of
/// the one before.
pub open spec fn token_step(
    a: LedgerV,
    b: LedgerV,
    name: Seq<char>,
    can_be_negative: bool,
    not_tradable: bool,
    virtual_anchor: Option<usize>,
    swap_whitelist: Seq<usize>,
) -> bool {
    let (l, id) = a.token_registered(name);
    &&& b.nodes.len() == l.nodes.len()
    &&& forall|i: usize| l.has(i) && i != id ==> #[trigger] b.node(i) == l.node(i)
    &&& b == (LedgerV { nodes: b.nodes, anchors: b.anchors, ..l })
    &&& b.anchors == match virtual_anchor {
        Some(anchor) => a.anchors.insert(id, anchor),
        None => a.anchors,
    }
    &&& l.has(id) ==> b.node(id).core == l.node(id).core
    &&& match l.token(id) {
        Some(t) => b.token(id) matches Some(u) && {
            &&& u.can_be_negative <==> t.can_be_negative || can_be_negative
            &&& u.not_tradable <==> t.not_tradable || not_tradable
            &&& swap_whitelist.len() == 0 ==> u.swap_whitelist == t.swap_whitelist
            &&& swap_whitelist.len() > 0 ==> forall|x: usize| #[trigger]
                u.swap_whitelist.contains(x) <==> swap_whitelist.contains(x)
            &&& u.total_supply == t.total_supply
        },
        None => true,
    }
}

/// Whether a pair with a contract was made, at a price of one and with nothing in it, for the token
/// of the name. The request waits for the next frame where there is no such token.
pub open spec fn virtual_pair_step<L: ContractLogic>(
    a: RpteV<L>,
    b: RpteV<L>,
    m: MsgV,
    slave: usize,
    fn_id: u8,
    quote_token: usize,
    base_name: Seq<char>,
    swap_only: bool,
) -> bool {
    match a.ledger.token_by_name(base_name) {
        Some(base) => {
            let n = b.ledger.nodes.last();
            let v = n.kind->Virtual_0;
            &&& b.ledger == (LedgerV {
                nodes: a.ledger.nodes.push(n),
                pairs: a.ledger.pairs.push(a.ledger.nodes.len() as usize),
                ..a.ledger
            })
            &&& b == (RpteV { ledger: b.ledger, ..a })
            &&& n.core == (CoreV {
                id: a.ledger.nodes.len() as usize,
                sheet: Map::empty(),
                msgs: Seq::empty(),
            })
            &&& n.kind is Virtual
            &&& v.contract_slave_id == slave && v.fn_id == fn_id && v.swap_only == swap_only
            &&& v.pair.quote_token == quote_token && v.pair.base_token == base
            &&& v.pair.price == Decimal::of(1, 0)
            &&& v.pair.precision == a.ledger.precision
            &&& v.pair.max_tra_log_length == a.ledger.max_tra_log_length
            &&& v.pair.book.buys.len() == 0 && v.pair.book.sells.len() == 0
            &&& v.pair.logs.len() == 0 && v.pair.fee is None
        },
        None => b == (RpteV { msgs: a.msgs.push(m), ..a }),
    }
}

/// Whether a message that is neither a transfer nor a request to close an order was dealt with. A
/// market order is only asked for.
pub open spec fn handle_step<L: ContractLogic>(
    a: RpteV<L>,
    asked: Seq<Asked>,
    b: RpteV<L>,
    more: Seq<Asked>,
    m: MsgV,
) -> bool {
    match m {
        MsgV::OpenOrder { src_id, owner_node_id, src_token, dst_token, volume, price } => {
            &&& a.ledger.order_opened(src_id, owner_node_id, src_token, dst_token, volume, price)
                == Some(b.ledger)
            &&& b == (RpteV { ledger: b.ledger, ..a })
            &&& more == asked
        },
        MsgV::SwapOrder { src_id, owner_node_id, src_token, dst_token, volume } => {
            let (ledger, asks) = a.ledger.swap_asked(owner_node_id, src_token, dst_token, volume);
            &&& b == (RpteV { ledger, ..a })
            &&& match asks {
                Some((pair_id, direction, v)) => more == asked.push(
                    Asked { pair_id, direction, owner: owner_node_id, volume: v },
                ),
                None => more == asked,
            }
        },
        MsgV::CreateContract { owner_node_id, name, program } => {
            &&& deploy_step(a, b, owner_node_id, name, program)
            &&& more == asked
        },
        MsgV::RegisterToken {
            name,
            can_be_negative,
            not_tradable,
            virtual_anchor,
            swap_whitelist,
        } => {
            &&& token_step(
                a.ledger,
                b.ledger,
                name,
                can_be_negative,
                not_tradable,
                virtual_anchor,
                swap_whitelist,
            )
            &&& b == (RpteV { ledger: b.ledger, ..a })
            &&& more == asked
        },
        MsgV::CreateVirtualPair {
            contract_slave_id,
            fn_id,
            quote_token,
            base_token_name,
            swap_only,
        } => {
            &&& virtual_pair_step(
                a,
                b,
                m,
                contract_slave_id,
                fn_id,
                quote_token,
                base_token_name,
                swap_only,
            )
            &&& more == asked
        },
        MsgV::CallContract { src_id, contract_id, fn_id, volume } => {
            &&& call_step(a, b, src_id, contract_id, fn_id, volume)
            &&& more == asked
        },
        MsgV::Issue { token, account_id, volume } => {
            &&& match a.ledger.issued(account_id, token, volume) {
                Some(Ok(ledger)) => b == (RpteV { ledger, ..a }),
                Some(Err(_)) => b == a,
                None => false,
            }
            &&& more == asked
        },
        MsgV::SetPairFee { pair_id, fee_fn } => {
            &&& b == (RpteV { ledger: b.ledger, ..a })
            &&& b.ledger == (LedgerV { nodes: b.ledger.nodes, ..a.ledger })
            &&& b.ledger.nodes.len() == a.ledger.nodes.len()
            &&& forall|i: usize|
                a.ledger.has(i) && !(i == pair_id && a.ledger.node(i).is_pair())
                    ==> #[trigger] b.ledger.node(i) == a.ledger.node(i)
            &&& a.ledger.has(pair_id) && a.ledger.node(pair_id).is_pair() ==> {
                &&& b.ledger.node(pair_id).core == a.ledger.node(pair_id).core
                &&& b.ledger.node(pair_id).is_pair()
                &&& b.ledger.node(pair_id).pair() == (PairV {
                    fee: fee_fn,
                    ..a.ledger.node(pair_id).pair()
                })
            }
            &&& more == asked
        },
        _ => b == a && more == asked,
    }
}

#[verifier::spinoff_prover]
#[verifier::rlimit(60)]
proof fn lemma_handle_step<L: ContractLogic>(
    a: RpteV<L>,
    groups: Seq<SwapGroup>,
    asked: Seq<Asked>,
    firsts: Seq<int>,
    m: MsgV,
) -> (r: (Seq<Asked>, Seq<int>))
    requires
        a.handled(groups, m) is Some,
        groups_of(groups, asked, firsts),
    ensures
        handle_step(a, asked, (a.handled(groups, m)->0).0, r.0, m),
        groups_of((a.handled(groups, m)->0).1, r.0, r.1),
{
    let (b, after) = a.handled(groups, m)->0;
    match m {
        MsgV::SwapOrder { src_id, owner_node_id, src_token, dst_token, volume } => {
            let (ledger, asks) = a.ledger.swap_asked(owner_node_id, src_token, dst_token, volume);
            match asks {
                Some((pair_id, direction, v)) => {
                    let one = Asked { pair_id, direction, owner: owner_node_id, volume: v };
                    let f = lemma_grouped(groups, asked, firsts, one);
                    (asked.push(one), f)
                },
                None => (asked, firsts),
            }
        },
        MsgV::CallContract { src_id, contract_id, fn_id, volume } => {
            if a.is_slave(contract_id) {
                let i = a.slave_to_master[contract_id] as int;
                assert(a.masters.update(i, a.masters[i]) =~= a.masters);
                assert(a.msgs + Seq::<MsgV>::empty() =~= a.msgs);
            }
            assert(call_step(a, b, src_id, contract_id, fn_id, volume));
            (asked, firsts)
        },
        MsgV::CreateContract { owner_node_id, name, program } => {
            assert(b.masters.drop_last() =~= a.masters);
            assert(b.masters =~= a.masters.push(b.masters.last()));
            assert(deploy_step(a, b, owner_node_id, name, program));
            (asked, firsts)
        },
        MsgV::RegisterToken {
            name,
            can_be_negative,
            not_tradable,
            virtual_anchor,
            swap_whitelist,
        } => {
            assert(forall|x: usize|
                swap_whitelist.to_set().contains(x) <==> swap_whitelist.contains(x));
            (asked, firsts)
        },
        MsgV::CreateVirtualPair {
            contract_slave_id,
            fn_id,
            quote_token,
            base_token_name,
            swap_only,
        } => {
            assert(b.ledger.nodes =~= a.ledger.nodes.push(b.ledger.nodes.last())
                || a.ledger.token_by_name(base_token_name) is None);
            (asked, firsts)
        },
        _ => (asked, firsts),
    }
}

// ---- a round ----

/// Whether a group of market orders was traded by its pair: a single one alone, several together.
/// The transfers of the trades were tried one after the other, and the orders that are spent are left
/// to be closed in the next frame. Nothing happens where there is no such pair.
pub open spec fn group_step<L: ContractLogic>(
    a: RpteV<L>,
    b: RpteV<L>,
    g: SwapGroup,
    traded: (NodeV, Seq<SwapTransfer>, Seq<usize>),
    settling: Seq<LedgerV>,
) -> bool {
    let l = a.ledger;
    if !l.has(g.pair_id) || !l.node(g.pair_id).is_pair() {
        b == a
    } else {
        let pair = l.node(g.pair_id);
        &&& g.swaps.len() == 1 ==> pair.swap_processed(
            g.swaps[0].0,
            g.direction,
            g.swaps[0].1,
            l.precision,
        ) == Some(traded)
        &&& g.swaps.len() != 1 ==> pair.swaps_processed(g.direction, g.swaps, l.precision) == Some(
            traded,
        )
        &&& settles(settling, traded.1)
        &&& settling[0] == (LedgerV { nodes: l.nodes.update(g.pair_id as int, traded.0), ..l })
        &&& b == (RpteV { ledger: settling.last(), msgs: b.msgs, ..a })
        &&& b.msgs == a.msgs + traded.2.map_values(
            |id: usize| MsgV::CloseOrder { order_id: id },
        )
    }
}

/// Whether a group of market orders was traded by its pair.
pub open spec fn group_traded<L: ContractLogic>(a: RpteV<L>, b: RpteV<L>, g: SwapGroup) -> bool {
    exists|traded: (NodeV, Seq<SwapTransfer>, Seq<usize>), settling: Seq<LedgerV>| #[trigger]
        group_step(a, b, g, traded, settling)
}

proof fn lemma_group_traded<L: ContractLogic>(a: RpteV<L>, g: SwapGroup)
    requires
        a.group_done(g) is Some,
    ensures
        group_traded(a, a.group_done(g)->0, g),
{
    let b = a.group_done(g)->0;
    let l = a.ledger;
    if l.pair(g.pair_id) is Ok {
        let pair = l.node(g.pair_id);
        let traded = if g.swaps.len() == 1 {
            pair.swap_processed(g.swaps[0].0, g.direction, g.swaps[0].1, l.precision)->0
        } else {
            pair.swaps_processed(g.direction, g.swaps, l.precision)->0
        };
        let settling = lemma_settles(
            l.with_node(g.pair_id, traded.0),
            traded.1,
            traded.1.len(),
        );
        assert(traded.1.take(traded.1.len() as int) =~= traded.1);
        assert(group_step(a, b, g, traded, settling));
    } else {
        let nothing = (arbitrary::<NodeV>(), Seq::<SwapTransfer>::empty(), Seq::<usize>::empty());
        assert(group_step(a, b, g, nothing, Seq::empty()));
    }
}

/// The states that an engine went through in one round of messages.
pub struct RoundSteps<L> {
    /// While payments are made.
    pub paying: Seq<LedgerV>,
    /// While orders are closed.
    pub closing: Seq<LedgerV>,
    /// While the other messages are dealt with.
    pub handling: Seq<RpteV<L>>,
    /// The market orders that were asked for until then.
    pub asked: Seq<Seq<Asked>>,
    /// The groups of market orders.
    pub groups: Seq<SwapGroup>,
    /// Where the first market order of each group stands.
    pub firsts: Seq<int>,
    /// While the groups are traded.
    pub trading: Seq<RpteV<L>>,
}

/// Whether a node is another one with its messages taken, a pair having noted the frame.
pub open spec fn node_cleared(a: NodeV, b: NodeV, step: u64) -> bool {
    &&& b.core == (CoreV { msgs: Seq::empty(), ..a.core })
    &&& match a.kind {
        KindV::Pair(p) => b.kind == KindV::Pair(PairV { step_count: step, ..p }),
        KindV::Virtual(v) => b.kind == KindV::Virtual(
            VirtualV { pair: PairV { step_count: step, ..v.pair }, ..v },
        ),
        _ => b.kind == a.kind,
    }
}

/// Whether the messages of all nodes were taken, in the order of the nodes.
pub open spec fn all_cleared(a: LedgerV, b: LedgerV, msgs: Seq<MsgV>) -> bool {
    &&& b == (LedgerV { nodes: b.nodes, ..a })
    &&& b.nodes.len() == a.nodes.len()
    &&& forall|i: int|
        0 <= i < a.nodes.len() ==> node_cleared(a.nodes[i], #[trigger] b.nodes[i], a.step_count)
    &&& msgs == a.nodes.map_values(|n: NodeV| n.core.msgs).flatten()
}

proof fn lemma_sent(nodes: Seq<NodeV>, k: nat)
    requires
        k <= nodes.len(),
    ensures
        sent(nodes, k) == nodes.take(k as int).map_values(|n: NodeV| n.core.msgs).flatten_alt(),
    decreases k,
{
    let all = nodes.take(k as int).map_values(|n: NodeV| n.core.msgs);
    if k > 0 {
        lemma_sent(nodes, (k - 1) as nat);
        assert(all.drop_last() =~= nodes.take(k - 1).map_values(|n: NodeV| n.core.msgs));
        assert(all.last() == nodes[k - 1].core.msgs);
    }
}

proof fn lemma_all_cleared(l: LedgerV)
    ensures
        all_cleared(l, l.collected(), sent(l.nodes, l.nodes.len())),
{
    let b = l.collected();
    lemma_sent(l.nodes, l.nodes.len());
    let all = l.nodes.map_values(|n: NodeV| n.core.msgs);
    assert(l.nodes.take(l.nodes.len() as int) =~= l.nodes);
    all.lemma_flatten_and_flatten_alt_are_equivalent();
    assert forall|i: int| 0 <= i < l.nodes.len() implies node_cleared(
        l.nodes[i],
        #[trigger] b.nodes[i],
        l.step_count,
    ) by {
        assert(b.nodes[i] == l.nodes[i].updated(l.step_count).emptied());
    }
}

/// Whether these are the steps of a round. Every message is dealt with in its turn: first the
/// payments are made, one after the other, then orders are closed, then the other messages are dealt
/// with, and then the market orders of each pair and side are traded, group by group.
pub open spec fn round_steps<L: ContractLogic>(
    r: RpteV<L>,
    msgs: Seq<MsgV>,
    s: RoundSteps<L>,
) -> bool {
    &&& pays_then_closes(s.paying, s.closing, msgs)
    &&& s.paying[0] == r.ledger
    &&& s.handling.len() == msgs.len() + 1
    &&& s.asked.len() == msgs.len() + 1
    &&& s.handling[0] == (RpteV { ledger: s.closing.last(), ..r })
    &&& s.asked[0].len() == 0
    &&& forall|i: int|
        0 < i < s.handling.len() ==> handle_step(
            s.handling[i - 1],
            s.asked[i - 1],
            #[trigger] s.handling[i],
            s.asked[i],
            msgs[i - 1],
        )
    &&& groups_of(s.groups, s.asked.last(), s.firsts)
    &&& s.trading.len() == s.groups.len() + 1
    &&& s.trading[0] == s.handling.last()
    &&& forall|i: int|
        0 < i < s.trading.len() ==> group_traded(
            s.trading[i - 1],
            #[trigger] s.trading[i],
            s.groups[i - 1],
        )
}

proof fn lemma_handled<L: ContractLogic>(r: RpteV<L>, msgs: Seq<MsgV>, k: nat) -> (t: (
    Seq<RpteV<L>>,
    Seq<Seq<Asked>>,
    Seq<int>,
))
    requires
        k <= msgs.len(),
        r.others_done(msgs, k) is Some,
    ensures
        t.0.len() == k + 1,
        t.1.len() == k + 1,
        t.0[0] == r,
        t.1[0].len() == 0,
        t.0.last() == (r.others_done(msgs, k)->0).0,
        groups_of((r.others_done(msgs, k)->0).1, t.1.last(), t.2),
        forall|i: int|
            0 < i < t.0.len() ==> handle_step(
                t.0[i - 1],
                t.1[i - 1],
                #[trigger] t.0[i],
                t.1[i],
                msgs[i - 1],
            ),
    decreases k,
{
    if k == 0 {
        (seq![r], seq![Seq::<Asked>::empty()], Seq::empty())
    } else {
        let (states, asked, firsts) = lemma_handled(r, msgs, (k - 1) as nat);
        let (a, groups) = r.others_done(msgs, (k - 1) as nat)->0;
        let (more, f) = lemma_handle_step(a, groups, asked.last(), firsts, msgs[k - 1]);
        let b = (r.others_done(msgs, k)->0).0;
        let s = states.push(b);
        let q = asked.push(more);
        assert forall|i: int| 0 < i < s.len() implies handle_step(
            s[i - 1],
            q[i - 1],
            #[trigger] s[i],
            q[i],
            msgs[i - 1],
        ) by {
            if i < states.len() {
                assert(states[i] == s[i]);
            }
        }
        (s, q, f)
    }
}

proof fn lemma_groups_traded<L: ContractLogic>(r: RpteV<L>, groups: Seq<SwapGroup>, k: nat) -> (t:
    Seq<RpteV<L>>)
    requires
        k <= groups.len(),
        r.groups_done(groups, k) is Some,
    ensures
        t.len() == k + 1,
        t[0] == r,
        t.last() == r.groups_done(groups, k)->0,
        forall|i: int|
            0 < i < t.len() ==> group_traded(t[i - 1], #[trigger] t[i], groups[i - 1]),
    decreases k,
{
    if k == 0 {
        seq![r]
    } else {
        let before = lemma_groups_traded(r, groups, (k - 1) as nat);
        let a = r.groups_done(groups, (k - 1) as nat)->0;
        lemma_group_traded(a, groups[k - 1]);
        let t = before.push(r.groups_done(groups, k)->0);
        assert forall|i: int| 0 < i < t.len() implies group_traded(
            t[i - 1],
            #[trigger] t[i],
            groups[i - 1],
        ) by {
            if i < before.len() {
                assert(before[i] == t[i]);
            }
        }
        t
    }
}

/// In a round every message is dealt with, in its turn, and the messages that the nodes have sent by
/// its end, in the order of the nodes, are those of the next round.
pub proof fn law_round<L: ContractLogic>(r: RpteV<L>, msgs: Seq<MsgV>)
    requires
        r.round_done(msgs) is Some,
    ensures
        ({
            let (n, more) = r.round_done(msgs)->0;
            exists|s: RoundSteps<L>| #[trigger]
                round_steps(r, msgs, s) && n == (RpteV { ledger: n.ledger, ..s.trading.last() })
                    && all_cleared(s.trading.last().ledger, n.ledger, more)
        }),
{
    let paying = lemma_pays(r.ledger, msgs, msgs.len());
    let l1 = paying.last();
    let closing = lemma_closes(l1, msgs, msgs.len());
    let r2 = RpteV { ledger: closing.last(), ..r };
    let (handling, asked, firsts) = lemma_handled(r2, msgs, msgs.len());
    let (r3, groups) = r2.others_done(msgs, msgs.len())->0;
    let trading = lemma_groups_traded(r3, groups, groups.len());
    let s = RoundSteps { paying, closing, handling, asked, groups, firsts, trading };
    lemma_all_cleared(trading.last().ledger);
    assert(round_steps(r, msgs, s));
}

// ---- a frame ----

/// Whether the program of a contract ran in a frame, on the ledger as it is, unless the contract is
/// over; and `out` are the messages before and with those that it sent.
pub open spec fn program_step<L: ContractLogic>(
    a: RpteV<L>,
    before: Seq<MsgV>,
    b: RpteV<L>,
    out: Seq<MsgV>,
    i: int,
) -> bool {
    let c = a.masters[i];
    if c.contract().state == ContractState::Destroyed {
        b == a && out == before
    } else {
        let program = match c.contract().program {
            Some(j) => if j < a.programs.len() {
                Some(a.programs[j as int])
            } else {
                None
            },
            None => None,
        };
        c.contract_stepped(program, a.ledger, a.ledger.step_count) matches Some(n) && {
            &&& out == before + n.core.msgs
            &&& b == (RpteV {
                masters: a.masters.update(
                    i,
                    NodeV { core: CoreV { msgs: Seq::empty(), ..n.core }, ..n },
                ),
                ..a
            })
        }
    }
}

/// Whether the programs of all contracts ran, one after the other, and sent `outs`.
pub open spec fn programs_run<L: ContractLogic>(
    states: Seq<RpteV<L>>,
    outs: Seq<Seq<MsgV>>,
) -> bool {
    &&& states.len() == states[0].masters.len() + 1
    &&& outs.len() == states.len()
    &&& outs[0].len() == 0
    &&& forall|i: int|
        0 < i < states.len() ==> program_step(
            states[i - 1],
            outs[i - 1],
            #[trigger] states[i],
            outs[i],
            i - 1,
        )
}

proof fn lemma_programs_run<L: ContractLogic>(r: RpteV<L>, k: nat) -> (t: (
    Seq<RpteV<L>>,
    Seq<Seq<MsgV>>,
))
    requires
        k <= r.masters.len(),
        r.contracts_stepped(k) is Some,
    ensures
        t.0.len() == k + 1,
        t.1.len() == k + 1,
        t.0[0] == r,
        t.1[0].len() == 0,
        t.0.last() == (r.contracts_stepped(k)->0).0,
        t.1.last() == (r.contracts_stepped(k)->0).1,
        forall|i: int|
            0 < i < t.0.len() ==> program_step(
                t.0[i - 1],
                t.1[i - 1],
                #[trigger] t.0[i],
                t.1[i],
                i - 1,
            ),
    decreases k,
{
    if k == 0 {
        (seq![r], seq![Seq::<MsgV>::empty()])
    } else {
        let (states, outs) = lemma_programs_run(r, (k - 1) as nat);
        let (b, out) = r.contracts_stepped(k)->0;
        let s = states.push(b);
        let o = outs.push(out);
        assert forall|i: int| 0 < i < s.len() implies program_step(
            s[i - 1],
            o[i - 1],
            #[trigger] s[i],
            o[i],
            i - 1,
        ) by {
            if i < states.len() {
                assert(states[i] == s[i]);
            }
        }
        (s, o)
    }
}

/// Whether a frame began: the programs ran, sending `sent_by_programs`; the contracts' nodes hold
/// what their contracts hold; the pairs with contracts have the prices that these quote, in `l`; and
/// the messages to deal with are those that were waiting, those of the programs and those of the
/// nodes.
pub open spec fn frame_starts<L: ContractLogic>(
    r: RpteV<L>,
    states: Seq<RpteV<L>>,
    outs: Seq<Seq<MsgV>>,
    l: LedgerV,
    b: RpteV<L>,
    msgs: Seq<MsgV>,
    sent_by_nodes: Seq<MsgV>,
) -> bool {
    let n = states.last();
    &&& programs_run(states, outs)
    &&& states[0] == (RpteV { msgs: Seq::empty(), ..r })
    &&& l == (RpteV { ledger: n.balances_lent(n.ledger.nodes.len()), ..n }).prices_taken()
    &&& all_cleared(l, b.ledger, sent_by_nodes)
    &&& b == (RpteV { ledger: b.ledger, ..n })
    &&& msgs == r.msgs + outs.last() + sent_by_nodes
}

/// Whether an engine went through a round in which there was something to deal with.
#[verifier::opaque]
pub open spec fn round_follows<L: ContractLogic>(
    a: RpteV<L>,
    msgs: Seq<MsgV>,
    b: RpteV<L>,
    left: Seq<MsgV>,
) -> bool {
    msgs.len() > 0 && a.round_done(msgs) == Some((b, left))
}

/// Whether an engine went through rounds, each with the messages that the one before left, until
/// there were none or as many rounds had passed as a frame may take.
pub open spec fn rounds_run<L: ContractLogic>(
    states: Seq<RpteV<L>>,
    msgs: Seq<Seq<MsgV>>,
    rounds: nat,
) -> bool {
    &&& 0 < states.len() <= rounds + 1
    &&& msgs.len() == states.len()
    &&& forall|i: int|
        0 < i < states.len() ==> round_follows(
            states[i - 1],
            msgs[i - 1],
            #[trigger] states[i],
            msgs[i],
        )
    &&& msgs.last().len() == 0 || states.len() == rounds + 1
}

#[verifier::spinoff_prover]
proof fn lemma_rounds_run<L: ContractLogic>(r: RpteV<L>, msgs: Seq<MsgV>, rounds: nat) -> (t: (
    Seq<RpteV<L>>,
    Seq<Seq<MsgV>>,
))
    requires
        r.rounds_done(msgs, rounds) is Some,
    ensures
        rounds_run(t.0, t.1, rounds),
        t.0[0] == r,
        t.1[0] == msgs,
        t.0.last() == r.rounds_done(msgs, rounds)->0,
    decreases rounds,
{
    if msgs.len() == 0 || rounds == 0 {
        (seq![r], seq![msgs])
    } else {
        let (n, more) = r.round_done(msgs)->0;
        let (states, rest) = lemma_rounds_run(n, more, (rounds - 1) as nat);
        let s = seq![r] + states;
        let q = seq![msgs] + rest;
        assert(round_follows(r, msgs, n, more)) by {
            reveal(round_follows);
        }
        assert forall|i: int| 0 < i < s.len() implies round_follows(
            s[i - 1],
            q[i - 1],
            #[trigger] s[i],
            q[i],
        ) by {
            if i == 1 {
                assert(s[1] == states[0]);
                assert(q[1] == rest[0]);
            } else {
                assert(states[i - 1] == s[i]);
                assert(states[i - 2] == s[i - 1]);
                assert(rest[i - 1] == q[i]);
                assert(rest[i - 2] == q[i - 1]);
            }
        }
        (s, q)
    }
}

/// The steps of a frame.
pub struct FrameSteps<L> {
    /// While the programs run.
    pub states: Seq<RpteV<L>>,
    /// What they have sent until then.
    pub outs: Seq<Seq<MsgV>>,
    /// The ledger with the prices that contracts quote.
    pub quoted: LedgerV,
    /// What the nodes had sent.
    pub sent: Seq<MsgV>,
    /// After each round.
    pub rounds: Seq<RpteV<L>>,
    /// The messages that are left after each round.
    pub left: Seq<Seq<MsgV>>,
}

/// Whether these are the steps of a frame.
pub open spec fn frame_steps<L: ContractLogic>(r: RpteV<L>, s: FrameSteps<L>) -> bool {
    &&& rounds_run(s.rounds, s.left, FRAME_ROUNDS as nat)
    &&& frame_starts(r, s.states, s.outs, s.quoted, s.rounds[0], s.left[0], s.sent)
}

/// A frame runs the programs, then rounds of messages until none are left or too many have passed,
/// and then gives the contracts back what their nodes hold and counts itself. What was left for the
/// next frame stays.
pub proof fn law_frame_in_rounds<L: ContractLogic>(r: RpteV<L>)
    requires
        r.stepped() is Some,
    ensures
        ({
            let n = r.stepped()->0;
            exists|s: FrameSteps<L>| #[trigger]
                frame_steps(r, s) && n.msgs == s.rounds.last().msgs && s.rounds.last().frame_ended()
                    == Some(n)
        }),
{
    let r0 = RpteV { msgs: Seq::empty(), ..r };
    let (states, outs) = lemma_programs_run(r0, r0.masters.len());
    let n = states.last();
    let r2 = RpteV { ledger: n.balances_lent(n.ledger.nodes.len()), ..n };
    let quoted = r2.prices_taken();
    let (b, msgs) = r.frame_begun()->0;
    lemma_all_cleared(quoted);
    let nodes = sent(quoted.nodes, quoted.nodes.len());
    let (rounds, left) = lemma_rounds_run(b, msgs, FRAME_ROUNDS as nat);
    let s = FrameSteps { states, outs, quoted, sent: nodes, rounds, left };
    assert(frame_starts(r, states, outs, quoted, b, msgs, nodes));
    assert(frame_steps(r, s));
    let e = rounds.last();
    lemma_ended_keeps_msgs(e, e.ledger.nodes.len());
    let f = e.balances_returned(e.ledger.nodes.len());
    let g = RpteV {
        ledger: LedgerV { step_count: (f.ledger.step_count + 1) as u64, ..f.ledger },
        ..f
    };
    lemma_recycled_keeps_msgs(g, g.ledger.nodes.len());
}

proof fn lemma_ended_keeps_msgs<L: ContractLogic>(r: RpteV<L>, k: nat)
    ensures
        r.balances_returned(k).msgs == r.msgs,
    decreases k,
{
    if k > 0 {
        lemma_ended_keeps_msgs(r, (k - 1) as nat);
    }
}

proof fn lemma_recycled_keeps_msgs<L: ContractLogic>(r: RpteV<L>, k: nat)
    ensures
        r.contracts_recycled(k).msgs == r.msgs,
    decreases k,
{
    if k > 0 {
        lemma_recycled_keeps_msgs(r, (k - 1) as nat);
    }
}

} // verus!
