//! What holds of a whole frame: no token is made or lost unless it is issued, and no balance falls
//! below zero.

use crate::conservation_laws::law_round_conserves;
use crate::contract::ContractLogic;
use crate::decimal::{decimal_sum, Decimal};
use crate::ledger_laws::{
    law_no_overdraft, law_noting_moves_nothing, lemma_total_same, same_balances,
};
use crate::ledger_model::LedgerV;
use crate::message_laws::{all_tame, tame};
use crate::node::{ContractState, CoreV, KindV, MsgV, NodeV, SwapTransfer};
use crate::order::{OrderType, OrderV};
use crate::rpte_laws::{
    all_mild, all_plain, calm, lemma_begun_grown, lemma_calm_twice, lemma_closes_grown,
    lemma_contracts_keep, lemma_groups_grown, lemma_idle_lent, lemma_others_steady,
    lemma_round_calm, lemma_round_steady, lemma_rounds_grown, lemma_sent_tame, lemma_settled_grown,
    lemma_transfers_grown, mild, nodes_tame, plain,
};
use crate::rpte_model::{RpteV, SwapGroup, FRAME_ROUNDS};
use crate::trading_laws::lemma_cut_off;
use vstd::prelude::*;

verus! {

// ---- nothing is made or lost ----

impl<L: ContractLogic> RpteV<L> {
    /// Whether all sums of the rounds of a frame are computed exactly.
    pub open spec fn rounds_exact(self, msgs: Seq<MsgV>, rounds: nat) -> bool
        decreases rounds,
    {
        msgs.len() == 0 || rounds == 0 || (self.round_exact(msgs) && match self.round_done(msgs) {
            Some((r, more)) => r.rounds_exact(more, (rounds - 1) as nat),
            None => true,
        })
    }

    /// How much of a token the rounds of a frame issue.
    pub open spec fn rounds_issued(self, msgs: Seq<MsgV>, rounds: nat, token: usize) -> int
        decreases rounds,
    {
        if msgs.len() == 0 || rounds == 0 {
            0
        } else {
            self.round_issued(msgs, token) + match self.round_done(msgs) {
                Some((r, more)) => r.rounds_issued(more, (rounds - 1) as nat, token),
                None => 0,
            }
        }
    }

    /// Whether all sums of a frame are computed exactly.
    pub open spec fn frame_exact(self) -> bool {
        self.frame_begun() matches Some((r, msgs)) ==> r.rounds_exact(msgs, FRAME_ROUNDS as nat)
    }

    /// How much of a token a frame issues.
    pub open spec fn frame_issued(self, token: usize) -> int {
        match self.frame_begun() {
            Some((r, msgs)) => r.rounds_issued(msgs, FRAME_ROUNDS as nat, token),
            None => 0,
        }
    }

    /// The engine once the rounds of a frame are over.
    pub open spec fn rounds_over(self) -> Option<RpteV<L>> {
        match self.frame_begun() {
            Some((r, msgs)) => r.rounds_done(msgs, FRAME_ROUNDS as nat),
            None => None,
        }
    }

    /// Whether no contract is deployed.
    pub open spec fn without_contracts(self) -> bool {
        &&& self.slave_to_master == Map::<usize, usize>::empty()
        &&& forall|i: int|
            0 <= i < self.masters.len() ==> (#[trigger] self.masters[i]).contract().state
                == ContractState::Destroyed
    }
}

proof fn lemma_rounds_held<L: ContractLogic>(
    r: RpteV<L>,
    msgs: Seq<MsgV>,
    rounds: nat,
    token: usize,
)
    requires
        r.rounds_done(msgs, rounds) is Some,
        (r.rounds_done(msgs, rounds)->0).ledger.nodes.len() <= usize::MAX,
        r.rounds_exact(msgs, rounds),
    ensures
        (r.rounds_done(msgs, rounds)->0).ledger.held(token) == r.ledger.held(token)
            + r.rounds_issued(msgs, rounds, token),
    decreases rounds,
{
    if msgs.len() > 0 && rounds > 0 {
        let (n, more) = r.round_done(msgs)->0;
        lemma_rounds_grown(n, more, (rounds - 1) as nat);
        law_round_conserves(r, msgs, token);
        lemma_rounds_held(n, more, (rounds - 1) as nat, token);
    }
}

/// Without contracts, the start and the end of a frame move nothing.
proof fn lemma_begun_still<L: ContractLogic>(r: RpteV<L>)
    requires
        r.frame_begun() is Some,
        r.slave_to_master == Map::<usize, usize>::empty(),
    ensures
        ({
            let b = (r.frame_begun()->0).0;
            &&& b.slave_to_master == r.slave_to_master
            &&& b.ledger.nodes.len() == r.ledger.nodes.len()
            &&& b.ledger.tokens == r.ledger.tokens
            &&& forall|id: usize| #[trigger] r.ledger.token(id) is Some ==> b.ledger.token(id)
                == r.ledger.token(id)
            &&& forall|i: int|
                0 <= i < b.ledger.nodes.len() ==> (#[trigger] b.ledger.nodes[i]).core.sheet
                    == r.ledger.nodes[i].core.sheet && b.ledger.nodes[i].core.msgs.len() == 0
        }),
{
    lemma_begun_grown(r);
    let r0 = RpteV { msgs: Seq::empty(), ..r };
    lemma_contracts_keep(r0, r.masters.len());
    let (r1, out) = r0.contracts_stepped(r.masters.len())->0;
    lemma_idle_lent(r1, r1.ledger.nodes.len());
    let l3 = r1.prices_taken();
    let b = (r.frame_begun()->0).0;
    assert(b.ledger == l3.collected());
    assert forall|i: int| 0 <= i < b.ledger.nodes.len() implies (
    #[trigger] b.ledger.nodes[i]).core.sheet == r.ledger.nodes[i].core.sheet
        && b.ledger.nodes[i].core.msgs.len() == 0 by {
        assert(l3.nodes[i] == r1.quoted(r1.ledger.nodes[i]));
        assert(b.ledger.nodes[i] == l3.nodes[i].updated(l3.step_count).emptied());
    }
    assert forall|id: usize| #[trigger] r.ledger.token(id) is Some implies b.ledger.token(id)
        == r.ledger.token(id) by {
        assert(l3.nodes[id as int] == r1.quoted(r1.ledger.nodes[id as int]));
        assert(b.ledger.nodes[id as int] == l3.nodes[id as int].updated(l3.step_count).emptied());
    }
}

proof fn lemma_ended_still<L: ContractLogic>(e: RpteV<L>)
    requires
        e.frame_ended() is Some,
        e.slave_to_master == Map::<usize, usize>::empty(),
    ensures
        (e.frame_ended()->0).ledger == (LedgerV {
            step_count: (e.ledger.step_count + 1) as u64,
            ..e.ledger
        }),
{
    lemma_idle_lent(e, e.ledger.nodes.len());
    let n = RpteV {
        ledger: LedgerV { step_count: (e.ledger.step_count + 1) as u64, ..e.ledger },
        ..e
    };
    lemma_idle_lent(n, n.ledger.nodes.len());
}

/// A frame in which no contract is deployed makes and loses nothing but what it issues: what all
/// nodes hold together of a token changes by exactly what was issued of it. The sums must be
/// exact.
pub proof fn law_frame_conserves<L: ContractLogic>(r: RpteV<L>, token: usize)
    requires
        r.stepped() is Some,
        (r.stepped()->0).ledger.nodes.len() <= usize::MAX,
        r.frame_exact(),
        r.slave_to_master == Map::<usize, usize>::empty(),
        (r.rounds_over()->0).slave_to_master == Map::<usize, usize>::empty(),
    ensures
        (r.stepped()->0).ledger.held(token) == r.ledger.held(token) + r.frame_issued(token),
{
    let (b, msgs) = r.frame_begun()->0;
    let e = r.rounds_over()->0;
    lemma_begun_still(r);
    lemma_ended_still(e);
    assert forall|i: int| 0 <= i < r.ledger.nodes.len() implies (
    #[trigger] b.ledger.nodes[i]).balance(token) == r.ledger.nodes[i].balance(token) by {}
    lemma_total_same(r.ledger, b.ledger, token, r.ledger.nodes.len());
    lemma_rounds_held(b, msgs, FRAME_ROUNDS as nat, token);
    let n = (r.stepped()->0).ledger;
    assert forall|i: int| 0 <= i < e.ledger.nodes.len() implies (#[trigger] n.nodes[i]).balance(
        token,
    ) == e.ledger.nodes[i].balance(token) by {}
    lemma_total_same(e.ledger, n, token, e.ledger.nodes.len());
}

// ---- nobody is overdrawn ----

impl LedgerV {
    /// Whether no node holds less than nothing of a token.
    pub open spec fn covered(self, token: usize) -> bool {
        forall|id: usize| self.has(id) ==> (#[trigger] self.node(id)).balance(token).val() >= 0
    }

    /// Whether balances of a token may not be negative.
    pub open spec fn strict(self, token: usize) -> bool {
        self.token(token) matches Some(t) && !t.can_be_negative
    }
}

proof fn lemma_same_covered(l: LedgerV, m: LedgerV, token: usize)
    requires
        same_balances(l, m),
        l.covered(token),
    ensures
        m.covered(token),
{
    assert forall|id: usize| m.has(id) implies (#[trigger] m.node(id)).balance(token).val()
        >= 0 by {
        assert(l.node(id).balance(token).val() >= 0);
    }
}

proof fn lemma_transferred_covered(
    l: LedgerV,
    src: usize,
    dst: usize,
    moved: usize,
    volume: Decimal,
    token: usize,
)
    requires
        l.covered(token),
        l.strict(token),
        l.transferred(src, dst, moved, volume, false) matches Some(Ok(_)),
    ensures
        (l.transferred(src, dst, moved, volume, false)->0->Ok_0).covered(token),
{
    let m = l.transferred(src, dst, moved, volume, false)->0->Ok_0;
    if src != dst {
        if moved == token {
            law_no_overdraft(l, src, dst, moved, volume);
        }
        assert forall|id: usize| m.has(id) implies (#[trigger] m.node(id)).balance(token).val()
            >= 0 by {
            assert(l.node(id).balance(token).val() >= 0);
        }
    }
}

proof fn lemma_noted_covered(l: LedgerV, src: usize, dst: usize, token: usize)
    requires
        l.covered(token),
    ensures
        l.order_noted(src).order_noted(dst).covered(token),
{
    law_noting_moves_nothing(l, src);
    law_noting_moves_nothing(l.order_noted(src), dst);
    lemma_same_covered(l, l.order_noted(src), token);
    lemma_same_covered(l.order_noted(src), l.order_noted(src).order_noted(dst), token);
}

proof fn lemma_transfer_covered(
    l: LedgerV,
    src: usize,
    dst: usize,
    moved: usize,
    volume: Decimal,
    token: usize,
)
    requires
        l.covered(token),
        l.strict(token),
        l.transfer_noted(src, dst, moved, volume, false) is Some,
    ensures
        (l.transfer_noted(src, dst, moved, volume, false)->0).covered(token),
{
    match l.transferred(src, dst, moved, volume, false) {
        Some(Ok(m)) => {
            lemma_transferred_covered(l, src, dst, moved, volume, token);
            lemma_noted_covered(m, src, dst, token);
        },
        _ => {
            lemma_noted_covered(l, src, dst, token);
        },
    }
}

proof fn lemma_all_transferred_covered(l: LedgerV, src: usize, dst: usize, token: usize)
    requires
        l.covered(token),
        l.all_transferred(src, dst) matches Some(Ok(_)),
    ensures
        (l.all_transferred(src, dst)->0->Ok_0).covered(token),
{
    let m = l.all_transferred(src, dst)->0->Ok_0;
    if src != dst {
        Decimal::lemma_zero();
        assert forall|id: usize| m.has(id) implies (#[trigger] m.node(id)).balance(token).val()
            >= 0 by {
            assert(l.node(id).balance(token).val() >= 0);
            if l.has(src) && l.has(dst) {
                assert(l.node(src).balance(token).val() >= 0);
                assert(l.node(dst).balance(token).val() >= 0);
                l.node(dst).balance(token).lemma_sum(l.node(src).core.sheet[token]);
                assert(l.node(src).core.sheet.dom().contains(token) ==> decimal_sum(
                    l.node(dst).balance(token),
                    l.node(src).core.sheet[token],
                ) is Some);
            }
        }
    }
}

proof fn lemma_transfer_all_covered(l: LedgerV, src: usize, dst: usize, token: usize)
    requires
        l.covered(token),
        l.transfer_all_noted(src, dst) is Some,
    ensures
        (l.transfer_all_noted(src, dst)->0).covered(token),
{
    match l.all_transferred(src, dst) {
        Some(Ok(m)) => {
            lemma_all_transferred_covered(l, src, dst, token);
            lemma_noted_covered(m, src, dst, token);
        },
        _ => {
            lemma_noted_covered(l, src, dst, token);
        },
    }
}

proof fn lemma_transfers_covered(l: LedgerV, msgs: Seq<MsgV>, k: nat, token: usize)
    requires
        k <= msgs.len(),
        all_mild(msgs),
        l.covered(token),
        l.strict(token),
        l.transfers_done(msgs, k) is Some,
    ensures
        (l.transfers_done(msgs, k)->0).covered(token),
    decreases k,
{
    if k > 0 {
        lemma_transfers_covered(l, msgs, (k - 1) as nat, token);
        let m = l.transfers_done(msgs, (k - 1) as nat)->0;
        lemma_transfers_grown(l, msgs, (k - 1) as nat);
        assert(m.token(token) == l.token(token));
        assert(mild(msgs[k - 1]));
        match msgs[k - 1] {
            MsgV::Transfer { src_id, dst_id, token: moved, volume, allow_negative } => {
                lemma_transfer_covered(m, src_id, dst_id, moved, volume, token);
            },
            MsgV::TransferAll { src_id, dst_id } => {
                lemma_transfer_all_covered(m, src_id, dst_id, token);
            },
            _ => {},
        }
    }
}

proof fn lemma_closed_covered(l: LedgerV, id: usize, token: usize)
    requires
        l.covered(token),
        l.order_closed(id) is Some,
    ensures
        (l.order_closed(id)->0).covered(token),
{
    if l.orders.contains(id) {
        let l0 = LedgerV { orders: l.orders.remove(id), ..l };
        assert(same_balances(l, l0));
        lemma_same_covered(l, l0, token);
        if let Ok(o) = l0.order(id) {
            let closed = NodeV {
                kind: KindV::Order(OrderV { openning: false, ..o }),
                ..l0.node(id)
            };
            let l1 = l0.with_node(id, closed);
            assert(same_balances(l0, l1));
            lemma_same_covered(l0, l1, token);
            if let Some(Ok(l2)) = l1.all_transferred(id, o.owner_node_id) {
                lemma_all_transferred_covered(l1, id, o.owner_node_id, token);
                let l3 = if l2.pair(o.pair_node_id) is Ok {
                    l2.with_node(o.pair_node_id, l2.node(o.pair_node_id).brief_cancelled(id))
                } else {
                    l2
                };
                assert(same_balances(l2, l3));
                lemma_same_covered(l2, l3, token);
                let l4 = l3.without_account_order(o.owner_node_id, id);
                assert(same_balances(l3, l4));
                lemma_same_covered(l3, l4, token);
                assert(same_balances(l4, l.order_closed(id)->0));
                lemma_same_covered(l4, l.order_closed(id)->0, token);
            }
        }
    }
}

proof fn lemma_closes_covered(l: LedgerV, msgs: Seq<MsgV>, k: nat, token: usize)
    requires
        k <= msgs.len(),
        l.covered(token),
        l.closes_done(msgs, k) is Some,
    ensures
        (l.closes_done(msgs, k)->0).covered(token),
    decreases k,
{
    if k > 0 {
        lemma_closes_covered(l, msgs, (k - 1) as nat, token);
        let m = l.closes_done(msgs, (k - 1) as nat)->0;
        match msgs[k - 1] {
            MsgV::CloseOrder { order_id } => {
                lemma_closed_covered(m, order_id, token);
            },
            _ => {},
        }
    }
}

proof fn lemma_new_covered(l: LedgerV, n: NodeV, token: usize)
    requires
        l.covered(token),
        n.core == CoreV::empty(),
    ensures
        l.with_new_node(n).covered(token),
{
    Decimal::lemma_zero();
    let m = l.with_new_node(n);
    assert forall|id: usize| m.has(id) implies (#[trigger] m.node(id)).balance(token).val()
        >= 0 by {
        if l.has(id) {
            assert(l.node(id).balance(token).val() >= 0);
        }
    }
}

proof fn lemma_pair_for_covered(l: LedgerV, src: usize, dst: usize, token: usize)
    requires
        l.covered(token),
    ensures
        l.pair_for(src, dst) matches Ok((m, _, _)) ==> m.covered(token),
{
    if let Ok((m, _, _)) = l.pair_for(src, dst) {
        if l.find_pair(src, dst, 0) is None {
            let n = m.nodes.last();
            let fresh = NodeV { core: CoreV::empty(), ..n };
            lemma_new_covered(l, fresh, token);
            assert(same_balances(l.with_new_node(fresh), m));
            lemma_same_covered(l.with_new_node(fresh), m, token);
        }
    }
}

proof fn lemma_opened_covered(
    l: LedgerV,
    src_id: usize,
    owner: usize,
    src_token: usize,
    dst_token: usize,
    volume: Decimal,
    price: Decimal,
    token: usize,
)
    requires
        l.covered(token),
        l.strict(token),
        l.order_opened(src_id, owner, src_token, dst_token, volume, price) is Some,
    ensures
        (l.order_opened(src_id, owner, src_token, dst_token, volume, price)->0).covered(token),
{
    if volume.val() == 0 || price.val() == 0 || l.lacks(src_id, src_token, volume) {
    } else if let Ok((l0, pair_id, _)) = l.pair_for(src_token, dst_token) {
        lemma_pair_for_covered(l, src_token, dst_token, token);
        assert(calm(l, l0));
        let (l1, id) = l0.order_taken();
        lemma_taken_covered(l0, token);
        assert(calm(l0, l1));
        lemma_calm_twice(l, l0, l1);
        assert(l1.token(token) == l.token(token));
        if l1.order(id) is Ok && owner != l1.node(id).core.id {
            let o = OrderV {
                owner_node_id: owner,
                pair_node_id: pair_id,
                src_token,
                dst_token,
                price,
                step_count_created: l1.step_count,
                openning: true,
                order_type: OrderType::Make,
            };
            let l2 = l1.with_node(id, NodeV { kind: KindV::Order(o), ..l1.node(id) });
            assert(same_balances(l1, l2));
            lemma_same_covered(l1, l2, token);
            assert(l2.token(token) == l1.token(token));
            let l3 = match l2.transferred(src_id, id, src_token, volume, false)->0 {
                Ok(m) => m,
                Err(_) => l2,
            };
            if l2.transferred(src_id, id, src_token, volume, false)->0 is Ok {
                lemma_transferred_covered(l2, src_id, id, src_token, volume, token);
            }
            lemma_placed_covered(l3, id, pair_id, owner, token);
        }
    }
}

proof fn lemma_taken_covered(l: LedgerV, token: usize)
    requires
        l.covered(token),
    ensures
        l.order_taken().0.covered(token),
{
    let (m, id) = l.order_taken();
    if l.order_pool.len() > 0 {
        assert(same_balances(l, m));
        lemma_same_covered(l, m, token);
    } else {
        let n = m.nodes.last();
        let fresh = NodeV { core: CoreV::empty(), ..n };
        lemma_new_covered(l, fresh, token);
        assert(same_balances(l.with_new_node(fresh), m));
        lemma_same_covered(l.with_new_node(fresh), m, token);
    }
}

proof fn lemma_placed_covered(l: LedgerV, id: usize, pair_id: usize, owner: usize, token: usize)
    requires
        l.covered(token),
        l.order_placed(id, pair_id, owner) is Some,
        l.order(id) matches Ok(o) && o.pair_node_id == pair_id,
    ensures
        (l.order_placed(id, pair_id, owner)->0).covered(token),
{
    let m = l.order_placed(id, pair_id, owner)->0;
    assert forall|x: usize| m.has(x) implies (#[trigger] m.node(x)).balance(token).val() >= 0 by {
        assert(l.node(x).balance(token).val() >= 0);
        assert(m.node(x).core.sheet == l.node(x).core.sheet);
    }
}

proof fn lemma_settled_covered(
    l: LedgerV,
    transfers: Seq<SwapTransfer>,
    k: nat,
    token: usize,
)
    requires
        k <= transfers.len(),
        l.covered(token),
        l.strict(token),
        l.swaps_settled(transfers, k) is Some,
    ensures
        (l.swaps_settled(transfers, k)->0).covered(token),
    decreases k,
{
    if k > 0 {
        lemma_settled_covered(l, transfers, (k - 1) as nat, token);
        let m = l.swaps_settled(transfers, (k - 1) as nat)->0;
        lemma_settled_grown(l, transfers, (k - 1) as nat);
        assert(m.token(token) == l.token(token));
        let t = transfers[k - 1];
        lemma_transfer_covered(m, t.src_id, t.dst_id, t.token, t.volume, token);
    }
}

proof fn lemma_group_covered<L: ContractLogic>(r: RpteV<L>, g: SwapGroup, token: usize)
    requires
        r.ledger.covered(token),
        r.ledger.strict(token),
        r.group_done(g) is Some,
    ensures
        (r.group_done(g)->0).ledger.covered(token),
{
    if r.ledger.pair(g.pair_id) is Ok {
        let (l, transfers) = r.group_settlement(g)->0;
        assert forall|x: usize| l.has(x) implies (#[trigger] l.node(x)).balance(token).val()
            >= 0 by {
            assert(r.ledger.node(x).balance(token).val() >= 0);
            assert(l.node(x).core.sheet == r.ledger.node(x).core.sheet);
        }
        assert(l.token(token) == r.ledger.token(token));
        lemma_settled_covered(l, transfers, transfers.len(), token);
    }
}

proof fn lemma_groups_covered<L: ContractLogic>(
    r: RpteV<L>,
    groups: Seq<SwapGroup>,
    k: nat,
    token: usize,
)
    requires
        k <= groups.len(),
        r.ledger.covered(token),
        r.ledger.strict(token),
        r.groups_done(groups, k) is Some,
    ensures
        (r.groups_done(groups, k)->0).ledger.covered(token),
    decreases k,
{
    if k > 0 {
        lemma_groups_covered(r, groups, (k - 1) as nat, token);
        let m = r.groups_done(groups, (k - 1) as nat)->0;
        lemma_groups_grown(r, groups, (k - 1) as nat);
        assert(m.ledger.token(token) == r.ledger.token(token));
        lemma_group_covered(m, groups[k - 1], token);
    }
}

proof fn lemma_issued_covered(l: LedgerV, id: usize, issued: usize, amount: Decimal, token: usize)
    requires
        l.covered(token),
        amount.valid(),
        amount.val() >= 0,
        l.issued(id, issued, amount) matches Some(Ok(_)),
    ensures
        (l.issued(id, issued, amount)->0->Ok_0).covered(token),
{
    lemma_cut_off(amount, l.precision);
    let m = l.issued(id, issued, amount)->0->Ok_0;
    assert forall|x: usize| m.has(x) implies (#[trigger] m.node(x)).balance(token).val() >= 0 by {
        assert(l.node(x).balance(token).val() >= 0);
        l.node(x).balance(issued).lemma_sum(amount.truncated(l.precision as nat));
    }
}

proof fn lemma_others_covered<L: ContractLogic>(
    r: RpteV<L>,
    msgs: Seq<MsgV>,
    k: nat,
    token: usize,
)
    requires
        k <= msgs.len(),
        all_mild(msgs),
        r.slave_to_master == Map::<usize, usize>::empty(),
        r.ledger.covered(token),
        r.ledger.strict(token),
        r.others_done(msgs, k) is Some,
    ensures
        (r.others_done(msgs, k)->0).0.ledger.covered(token),
    decreases k,
{
    if k > 0 {
        lemma_others_covered(r, msgs, (k - 1) as nat, token);
        lemma_others_steady(r, msgs, (k - 1) as nat);
        let (m, groups) = r.others_done(msgs, (k - 1) as nat)->0;
        assert(r.ledger.token(token) is Some);
        assert(m.ledger.strict(token));
        assert(mild(msgs[k - 1]));
        match msgs[k - 1] {
            MsgV::OpenOrder { src_id, owner_node_id, src_token, dst_token, volume, price } => {
                lemma_opened_covered(
                    m.ledger,
                    src_id,
                    owner_node_id,
                    src_token,
                    dst_token,
                    volume,
                    price,
                    token,
                );
            },
            MsgV::SwapOrder { src_id, owner_node_id, src_token, dst_token, volume } => {
                lemma_pair_for_covered(m.ledger, src_token, dst_token, token);
            },
            MsgV::Issue { token: issued, account_id, volume } => {
                if let Some(Ok(_)) = m.ledger.issued(account_id, issued, volume) {
                    lemma_issued_covered(m.ledger, account_id, issued, volume, token);
                }
            },
            _ => {},
        }
    }
}

proof fn lemma_round_covered<L: ContractLogic>(r: RpteV<L>, msgs: Seq<MsgV>, token: usize)
    requires
        all_mild(msgs),
        r.slave_to_master == Map::<usize, usize>::empty(),
        r.ledger.covered(token),
        r.ledger.strict(token),
        r.round_done(msgs) is Some,
    ensures
        (r.round_done(msgs)->0).0.ledger.covered(token),
{
    let l1 = r.ledger.transfers_done(msgs, msgs.len())->0;
    lemma_transfers_covered(r.ledger, msgs, msgs.len(), token);
    lemma_transfers_grown(r.ledger, msgs, msgs.len());
    assert(l1.token(token) == r.ledger.token(token));
    let l2 = l1.closes_done(msgs, msgs.len())->0;
    lemma_closes_covered(l1, msgs, msgs.len(), token);
    lemma_closes_grown(l1, msgs, msgs.len());
    assert(l2.token(token) == l1.token(token));
    let r2 = RpteV { ledger: l2, ..r };
    lemma_others_covered(r2, msgs, msgs.len(), token);
    lemma_others_steady(r2, msgs, msgs.len());
    let (r3, groups) = r2.others_done(msgs, msgs.len())->0;
    assert(l2.token(token) is Some);
    assert(r3.ledger.strict(token));
    lemma_groups_covered(r3, groups, groups.len(), token);
    let n = r3.groups_done(groups, groups.len())->0;
    let c = n.ledger.collected();
    assert forall|x: usize| c.has(x) implies (#[trigger] c.node(x)).balance(token).val() >= 0 by {
        assert(n.ledger.node(x).balance(token).val() >= 0);
        assert(c.nodes[x as int] == n.ledger.nodes[x as int].updated(
            n.ledger.step_count,
        ).emptied());
    }
}

proof fn lemma_rounds_covered<L: ContractLogic>(
    r: RpteV<L>,
    msgs: Seq<MsgV>,
    rounds: nat,
    token: usize,
)
    requires
        all_mild(msgs),
        nodes_tame(r.ledger),
        r.slave_to_master == Map::<usize, usize>::empty(),
        r.rounds_done(msgs, rounds) is Some,
        r.ledger.covered(token),
        r.ledger.strict(token),
    ensures
        ({
            let e = r.rounds_done(msgs, rounds)->0;
            &&& e.slave_to_master == r.slave_to_master
            &&& e.ledger.covered(token)
            &&& e.ledger.strict(token)
        }),
    decreases rounds,
{
    if msgs.len() > 0 && rounds > 0 {
        let (n, more) = r.round_done(msgs)->0;
        lemma_round_steady(r, msgs);
        assert(r.ledger.token(token) is Some);
        lemma_round_covered(r, msgs, token);
        assert forall|i: int| 0 <= i < more.len() implies mild(#[trigger] more[i]) by {
            assert(tame(more[i]));
        }
        lemma_rounds_covered(n, more, (rounds - 1) as nat, token);
    }
}

proof fn lemma_rounds_calm<L: ContractLogic>(
    r: RpteV<L>,
    msgs: Seq<MsgV>,
    rounds: nat,
    token: usize,
)
    requires
        all_plain(msgs),
        nodes_tame(r.ledger),
        r.slave_to_master == Map::<usize, usize>::empty(),
        r.rounds_done(msgs, rounds) is Some,
        r.ledger.token(token) is Some,
    ensures
        (r.rounds_done(msgs, rounds)->0).slave_to_master == r.slave_to_master,
        (r.rounds_done(msgs, rounds)->0).ledger.token(token) == r.ledger.token(token),
    decreases rounds,
{
    if msgs.len() > 0 && rounds > 0 {
        let (n, more) = r.round_done(msgs)->0;
        lemma_round_calm(r, msgs);
        assert(n.ledger.token(token) == r.ledger.token(token));
        lemma_rounds_calm(n, more, (rounds - 1) as nat, token);
    }
}

proof fn lemma_nothing_issued<L: ContractLogic>(
    r: RpteV<L>,
    msgs: Seq<MsgV>,
    rounds: nat,
    token: usize,
)
    requires
        all_plain(msgs),
        nodes_tame(r.ledger),
        r.slave_to_master == Map::<usize, usize>::empty(),
        r.rounds_done(msgs, rounds) is Some,
    ensures
        r.rounds_issued(msgs, rounds, token) == 0,
    decreases rounds,
{
    if msgs.len() > 0 && rounds > 0 {
        let (n, more) = r.round_done(msgs)->0;
        lemma_round_calm(r, msgs);
        let l1 = r.ledger.transfers_done(msgs, msgs.len())->0;
        let l2 = l1.closes_done(msgs, msgs.len())->0;
        lemma_others_issue_nothing(RpteV { ledger: l2, ..r }, msgs, msgs.len(), token);
        lemma_nothing_issued(n, more, (rounds - 1) as nat, token);
    }
}

proof fn lemma_others_issue_nothing<L: ContractLogic>(
    r: RpteV<L>,
    msgs: Seq<MsgV>,
    k: nat,
    token: usize,
)
    requires
        k <= msgs.len(),
        all_plain(msgs),
    ensures
        r.others_issued(msgs, k, token) == 0,
    decreases k,
{
    if k > 0 {
        lemma_others_issue_nothing(r, msgs, (k - 1) as nat, token);
        assert(plain(msgs[k - 1]));
    }
}

/// The first messages of a frame without contracts are those that were sent before it.
proof fn lemma_begun_plain<L: ContractLogic>(r: RpteV<L>)
    requires
        r.frame_begun() is Some,
        r.without_contracts(),
        nodes_tame(r.ledger),
    ensures
        all_plain(r.msgs) ==> all_plain((r.frame_begun()->0).1),
        all_mild(r.msgs) ==> all_mild((r.frame_begun()->0).1),
        nodes_tame((r.frame_begun()->0).0.ledger),
{
    lemma_begun_still(r);
    let r0 = RpteV { msgs: Seq::empty(), ..r };
    lemma_over_steps_nothing(r0, r0.masters.len());
    let (r1, out) = r0.contracts_stepped(r.masters.len())->0;
    lemma_idle_lent(r1, r1.ledger.nodes.len());
    let l3 = r1.prices_taken();
    assert forall|i: int| 0 <= i < l3.nodes.len() implies all_tame(
        (#[trigger] l3.nodes[i]).core.msgs,
    ) by {
        assert(l3.nodes[i] == r1.quoted(r1.ledger.nodes[i]));
        assert(all_tame(r.ledger.nodes[i].core.msgs));
    }
    lemma_sent_tame(l3.nodes, l3.nodes.len());
}

proof fn lemma_over_steps_nothing<L: ContractLogic>(r: RpteV<L>, k: nat)
    requires
        k <= r.masters.len(),
        r.without_contracts(),
    ensures
        r.contracts_stepped(k) == Some((r, Seq::<MsgV>::empty())),
    decreases k,
{
    if k > 0 {
        lemma_over_steps_nothing(r, (k - 1) as nat);
    }
}

/// A frame without contracts in which money is moved, with leave to overdraw or without, and
/// orders are opened, traded and closed, whether these requests succeed or fail, makes and loses nothing: what all nodes hold together
/// of a token stays the same, and so do the token's supply and its other settings. The sums must
/// be exact.
pub proof fn law_plain_frame_conserves<L: ContractLogic>(r: RpteV<L>, token: usize)
    requires
        r.stepped() is Some,
        (r.stepped()->0).ledger.nodes.len() <= usize::MAX,
        r.frame_exact(),
        r.without_contracts(),
        all_plain(r.msgs),
        nodes_tame(r.ledger),
        r.ledger.token(token) is Some,
    ensures
        (r.stepped()->0).ledger.held(token) == r.ledger.held(token),
        (r.stepped()->0).ledger.token(token) == r.ledger.token(token),
{
    let (b, msgs) = r.frame_begun()->0;
    lemma_begun_still(r);
    lemma_begun_plain(r);
    assert(b.ledger.token(token) == r.ledger.token(token));
    lemma_rounds_calm(b, msgs, FRAME_ROUNDS as nat, token);
    lemma_nothing_issued(b, msgs, FRAME_ROUNDS as nat, token);
    let e = r.rounds_over()->0;
    lemma_ended_still(e);
    law_frame_conserves(r, token);
}

/// A frame without contracts in which money is moved, orders are opened, traded and closed, and
/// tokens are issued, with no leave to overdraw and nothing issued below zero, leaves no node with
/// less than nothing of a token whose balances may not be negative, where none had less before.
pub proof fn law_frame_covered<L: ContractLogic>(r: RpteV<L>, token: usize)
    requires
        r.stepped() is Some,
        r.without_contracts(),
        all_mild(r.msgs),
        nodes_tame(r.ledger),
        r.ledger.strict(token),
        r.ledger.covered(token),
    ensures
        (r.stepped()->0).ledger.covered(token),
        (r.stepped()->0).ledger.strict(token),
{
    let (b, msgs) = r.frame_begun()->0;
    lemma_begun_still(r);
    lemma_begun_plain(r);
    assert(b.ledger.token(token) == r.ledger.token(token));
    assert forall|x: usize| b.ledger.has(x) implies (#[trigger] b.ledger.node(x)).balance(
        token,
    ).val() >= 0 by {
        assert(r.ledger.node(x).balance(token).val() >= 0);
        assert(b.ledger.nodes[x as int].core.sheet == r.ledger.nodes[x as int].core.sheet);
    }
    lemma_rounds_covered(b, msgs, FRAME_ROUNDS as nat, token);
    let e = r.rounds_over()->0;
    lemma_ended_still(e);
    let n = (r.stepped()->0).ledger;
    assert(same_balances(e.ledger, n));
    lemma_same_covered(e.ledger, n, token);
    assert(n.token(token) == e.ledger.token(token));
}

} // verus!
