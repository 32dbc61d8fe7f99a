//! No token is made or lost, unless it is issued.

use crate::contract::ContractLogic;
use crate::decimal::Decimal;
use crate::ledger_laws::{
    exact_sum, law_opening_conserves, law_settling_conserves, law_transfer_all_conserves,
    law_transfers_conserve, lemma_pair_for_held, lemma_same_held, lemma_total_new,
    lemma_total_same, lemma_total_update, same_balances,
};
use crate::ledger_model::LedgerV;
use crate::matching::PairV;
use crate::node::{CoreV, KindV, MsgV, NodeV, SwapTransfer};
use crate::order::OrderV;
use crate::rpte_laws::{
    grown, lemma_closed_grown, lemma_closes_grown, lemma_group_grown, lemma_groups_grown,
    lemma_handled_grown, lemma_others_grown, lemma_transfers_grown,
};
use crate::rpte_model::{RpteV, SwapGroup};
use crate::token::TokenV;
use crate::virtual_pair::VirtualV;
use vstd::prelude::*;

verus! {

// ---- orders to close ----

impl LedgerV {
    /// Whether the sums of closing an order are computed exactly.
    pub open spec fn close_exact(self, id: usize) -> bool {
        match self.order(id) {
            Ok(o) => self.orders.contains(id) ==> self.transfer_all_exact(id, o.owner_node_id),
            Err(_) => true,
        }
    }

    /// Whether the sums of closing the orders among the first `k` messages are computed exactly.
    pub open spec fn closes_exact(self, msgs: Seq<MsgV>, k: nat) -> bool
        decreases k,
    {
        if k == 0 {
            true
        } else {
            self.closes_exact(msgs, (k - 1) as nat) && match (
                self.closes_done(msgs, (k - 1) as nat),
                msgs[k - 1],
            ) {
                (Some(l), MsgV::CloseOrder { order_id }) => l.close_exact(order_id),
                _ => true,
            }
        }
    }
}

/// Closing an order makes and loses nothing.
proof fn lemma_closed_held(l: LedgerV, id: usize, token: usize)
    requires
        l.nodes.len() <= usize::MAX,
        l.order_closed(id) is Some,
        l.close_exact(id),
    ensures
        (l.order_closed(id)->0).held(token) == l.held(token),
{
    if l.orders.contains(id) {
        let l0 = LedgerV { orders: l.orders.remove(id), ..l };
        lemma_total_same(l, l0, token, l.nodes.len());
        match l0.order(id) {
            Ok(o) => {
                let closed = NodeV {
                    kind: KindV::Order(OrderV { openning: false, ..o }),
                    ..l0.node(id)
                };
                let l1 = l0.with_node(id, closed);
                lemma_total_update(l0, id, closed, token, l.nodes.len());
                if let Some(Ok(l2)) = l1.all_transferred(id, o.owner_node_id) {
                    if o.owner_node_id != id {
                        assert(l1.node(id).core == l.node(id).core);
                        assert(l1.node(o.owner_node_id).core == l.node(o.owner_node_id).core);
                        assert(l.transfer_all_exact(id, o.owner_node_id));
                    }
                    law_transfer_all_conserves(l1, id, o.owner_node_id, token);
                    let l3 = if l2.pair(o.pair_node_id) is Ok {
                        l2.with_node(o.pair_node_id, l2.node(o.pair_node_id).brief_cancelled(id))
                    } else {
                        l2
                    };
                    assert(same_balances(l2, l3));
                    lemma_same_held(l2, l3, token);
                    let l4 = l3.without_account_order(o.owner_node_id, id);
                    assert(same_balances(l3, l4));
                    lemma_same_held(l3, l4, token);
                    lemma_total_same(l4, l.order_closed(id)->0, token, l4.nodes.len());
                }
            },
            Err(_) => {},
        }
    }
}

/// Closing orders makes and loses nothing.
proof fn lemma_closes_held(l: LedgerV, msgs: Seq<MsgV>, k: nat, token: usize)
    requires
        k <= msgs.len(),
        l.closes_done(msgs, k) is Some,
        (l.closes_done(msgs, k)->0).nodes.len() <= usize::MAX,
        l.closes_exact(msgs, k),
    ensures
        (l.closes_done(msgs, k)->0).held(token) == l.held(token),
    decreases k,
{
    if k > 0 {
        let m = l.closes_done(msgs, (k - 1) as nat)->0;
        match msgs[k - 1] {
            MsgV::CloseOrder { order_id } => {
                lemma_closed_grown(m, order_id);
                lemma_closes_held(l, msgs, (k - 1) as nat, token);
                lemma_closed_held(m, order_id, token);
            },
            _ => {
                lemma_closes_held(l, msgs, (k - 1) as nat, token);
            },
        }
    }
}

// ---- other messages ----

impl LedgerV {
    /// Whether the sums of opening an order are computed exactly.
    pub open spec fn open_exact(
        self,
        src_id: usize,
        src_token: usize,
        dst_token: usize,
        volume: Decimal,
    ) -> bool {
        match self.pair_for(src_token, dst_token) {
            Ok((l0, _, _)) => {
                let (l1, id) = l0.order_taken();
                l1.transfer_exact(src_id, id, src_token, volume)
            },
            Err(_) => true,
        }
    }

    /// How much of a token a message issues.
    pub open spec fn issued_by(self, m: MsgV, token: usize) -> int {
        match m {
            MsgV::Issue { token: t, account_id, volume } => if t == token && (self.issued(
                account_id,
                t,
                volume,
            ) matches Some(Ok(_))) {
                volume.truncated(self.precision as nat).val()
            } else {
                0
            },
            _ => 0,
        }
    }

    /// Whether the sums of a message are computed exactly.
    pub open spec fn message_exact(self, m: MsgV) -> bool {
        match m {
            MsgV::OpenOrder { src_id, src_token, dst_token, volume, .. } => self.open_exact(
                src_id,
                src_token,
                dst_token,
                volume,
            ),
            MsgV::Issue { token, account_id, volume } => self.has(account_id) ==> exact_sum(
                self.node(account_id).balance(token),
                volume.truncated(self.precision as nat),
            ),
            _ => true,
        }
    }
}

/// Issuing a token raises what all nodes hold of it by the volume, and of nothing else.
proof fn lemma_issued_held(l: LedgerV, id: usize, issued: usize, amount: Decimal, token: usize)
    requires
        l.issued(id, issued, amount) matches Some(Ok(_)),
        exact_sum(l.node(id).balance(issued), amount.truncated(l.precision as nat)),
    ensures
        (l.issued(id, issued, amount)->0->Ok_0).held(token) == l.held(token) + (if token == issued {
            amount.truncated(l.precision as nat).val()
        } else {
            0
        }),
{
    let volume = amount.truncated(l.precision as nat);
    let sum = crate::decimal::decimal_sum(l.node(id).balance(issued), volume)->0;
    let n = l.node(id).with_balance(issued, sum);
    let a = l.with_node(id, n);
    lemma_total_update(l, id, n, token, l.nodes.len());
    if let Some(t) = a.token(issued) {
        let supply = crate::decimal::decimal_sum(t.total_supply, volume)->0;
        let k = NodeV { kind: KindV::Token(TokenV { total_supply: supply, ..t }), ..a.node(issued) };
        lemma_total_update(a, issued, k, token, l.nodes.len());
    }
}

/// Setting a token up makes and loses nothing.
proof fn lemma_set_up_held(
    l: LedgerV,
    name: Seq<char>,
    can_be_negative: bool,
    not_tradable: bool,
    anchor: Option<usize>,
    whitelist: Seq<usize>,
    token: usize,
)
    requires
        l.token_set_up(name, can_be_negative, not_tradable, anchor, whitelist).nodes.len()
            <= usize::MAX,
    ensures
        l.token_set_up(name, can_be_negative, not_tradable, anchor, whitelist).held(token)
            == l.held(token),
{
    let (l0, id) = l.token_registered(name);
    let m = l.token_set_up(name, can_be_negative, not_tradable, anchor, whitelist);
    if l.token_by_name(name) is None {
        let n = NodeV { core: CoreV::empty(), kind: KindV::Token(TokenV::fresh(name)) };
        lemma_total_new(l, n, token);
        lemma_total_same(l.with_new_node(n), l0, token, l0.nodes.len());
    }
    assert(same_balances(l0, m));
    lemma_same_held(l0, m, token);
}

/// Making a virtual pair makes and loses nothing.
proof fn lemma_virtual_held(
    l: LedgerV,
    slave: usize,
    fn_id: u8,
    quote_token: usize,
    base: usize,
    swap_only: bool,
    token: usize,
)
    ensures
        l.virtual_pair_made(slave, fn_id, quote_token, base, swap_only).held(token) == l.held(
            token,
        ),
{
    let n = NodeV {
        core: CoreV::empty(),
        kind: KindV::Virtual(
            VirtualV {
                pair: PairV::fresh(
                    quote_token,
                    base,
                    Decimal::of(1, 0),
                    l.max_tra_log_length,
                    l.precision,
                ),
                swap_only,
                contract_slave_id: slave,
                fn_id,
            },
        ),
    };
    let m = l.virtual_pair_made(slave, fn_id, quote_token, base, swap_only);
    lemma_total_new(l, n, token);
    lemma_total_same(l.with_new_node(n), m, token, m.nodes.len());
}

/// Creating a contract makes and loses nothing.
proof fn lemma_created_held<L: ContractLogic>(
    r: RpteV<L>,
    owner: usize,
    name: Seq<char>,
    program: usize,
    token: usize,
)
    ensures
        r.contract_created(owner, name, program).ledger.held(token) == r.ledger.held(token),
{
    let m = r.contract_created(owner, name, program).ledger;
    let blank = NodeV {
        core: CoreV::empty(),
        kind: KindV::Contract(crate::contract::ContractV::blank()),
    };
    let (l0, slave) = if r.contract_pool.len() > 0 {
        (r.ledger, r.contract_pool.last())
    } else {
        (r.ledger.with_new_node(blank), r.ledger.next_id())
    };
    if r.contract_pool.len() == 0 {
        lemma_total_new(r.ledger, blank, token);
    }
    if l0.has(slave) {
        lemma_total_update(l0, slave, m.node(slave), token, l0.nodes.len());
        assert(m =~= l0.with_node(slave, m.node(slave)));
    }
}

/// A message makes and loses nothing but what it issues.
#[verifier::spinoff_prover]
#[verifier::rlimit(40)]
proof fn lemma_handled_held<L: ContractLogic>(
    r: RpteV<L>,
    groups: Seq<SwapGroup>,
    m: MsgV,
    token: usize,
)
    requires
        r.handled(groups, m) is Some,
        (r.handled(groups, m)->0).0.ledger.nodes.len() <= usize::MAX,
        r.ledger.message_exact(m),
    ensures
        (r.handled(groups, m)->0).0.ledger.held(token) == r.ledger.held(token)
            + r.ledger.issued_by(m, token),
{
    match m {
        MsgV::OpenOrder { src_id, owner_node_id, src_token, dst_token, volume, price } => {
            law_opening_conserves(
                r.ledger,
                src_id,
                owner_node_id,
                src_token,
                dst_token,
                volume,
                price,
                token,
            );
        },
        MsgV::SwapOrder { src_id, owner_node_id, src_token, dst_token, volume } => {
            if r.ledger.pair_for(src_token, dst_token) is Ok {
                lemma_pair_for_held(r.ledger, src_token, dst_token, token);
            }
        },
        MsgV::CreateContract { owner_node_id, name, program } => {
            lemma_created_held(r, owner_node_id, name, program, token);
        },
        MsgV::RegisterToken {
            name,
            can_be_negative,
            not_tradable,
            virtual_anchor,
            swap_whitelist,
        } => {
            lemma_set_up_held(
                r.ledger,
                name,
                can_be_negative,
                not_tradable,
                virtual_anchor,
                swap_whitelist,
                token,
            );
        },
        MsgV::CreateVirtualPair {
            contract_slave_id,
            fn_id,
            quote_token,
            base_token_name,
            swap_only,
        } => {
            if let Some(base) = r.ledger.token_by_name(base_token_name) {
                lemma_virtual_held(
                    r.ledger,
                    contract_slave_id,
                    fn_id,
                    quote_token,
                    base,
                    swap_only,
                    token,
                );
            }
        },
        MsgV::CallContract { src_id, contract_id, fn_id, volume } => {
            assert((r.contract_called(src_id, contract_id, fn_id, volume)->0).ledger == r.ledger);
        },
        MsgV::Issue { token: issued, account_id, volume } => {
            if let Some(Ok(_)) = r.ledger.issued(account_id, issued, volume) {
                lemma_issued_held(r.ledger, account_id, issued, volume, token);
            }
        },
        MsgV::SetPairFee { pair_id, fee_fn } => {
            assert(same_balances(r.ledger, r.ledger.fee_set(pair_id, fee_fn)));
            lemma_same_held(r.ledger, r.ledger.fee_set(pair_id, fee_fn), token);
        },
        _ => {},
    }
}

impl<L: ContractLogic> RpteV<L> {
    /// Whether the sums of the first `k` messages other than transfers and orders to close are
    /// computed exactly.
    pub open spec fn others_exact(self, msgs: Seq<MsgV>, k: nat) -> bool
        decreases k,
    {
        if k == 0 {
            true
        } else {
            self.others_exact(msgs, (k - 1) as nat) && match self.others_done(
                msgs,
                (k - 1) as nat,
            ) {
                Some((r, _)) => r.ledger.message_exact(msgs[k - 1]),
                None => true,
            }
        }
    }

    /// How much of a token the first `k` messages issue.
    pub open spec fn others_issued(self, msgs: Seq<MsgV>, k: nat, token: usize) -> int
        decreases k,
    {
        if k == 0 {
            0
        } else {
            self.others_issued(msgs, (k - 1) as nat, token) + match self.others_done(
                msgs,
                (k - 1) as nat,
            ) {
                Some((r, _)) => r.ledger.issued_by(msgs[k - 1], token),
                None => 0,
            }
        }
    }

    /// The transfers of a group of market orders, and the ledger that they are settled on.
    pub open spec fn group_settlement(self, g: SwapGroup) -> Option<(LedgerV, Seq<SwapTransfer>)> {
        let out = if g.swaps.len() == 1 {
            self.ledger.node(g.pair_id).swap_processed(
                g.swaps[0].0,
                g.direction,
                g.swaps[0].1,
                self.ledger.precision,
            )
        } else {
            self.ledger.node(g.pair_id).swaps_processed(
                g.direction,
                g.swaps,
                self.ledger.precision,
            )
        };
        match out {
            Some((n, transfers, _)) => Some((self.ledger.with_node(g.pair_id, n), transfers)),
            None => None,
        }
    }

    /// Whether the sums of a group of market orders are computed exactly.
    pub open spec fn group_exact(self, g: SwapGroup) -> bool {
        match self.group_settlement(g) {
            Some((l, transfers)) => self.ledger.pair(g.pair_id) is Ok ==> l.settled_exactly(
                transfers,
                transfers.len(),
            ),
            None => true,
        }
    }

    /// Whether the sums of the first `k` groups of market orders are computed exactly.
    pub open spec fn groups_exact(self, groups: Seq<SwapGroup>, k: nat) -> bool
        decreases k,
    {
        if k == 0 {
            true
        } else {
            self.groups_exact(groups, (k - 1) as nat) && match self.groups_done(
                groups,
                (k - 1) as nat,
            ) {
                Some(r) => r.group_exact(groups[k - 1]),
                None => true,
            }
        }
    }

    /// Whether all sums of a round of messages are computed exactly.
    pub open spec fn round_exact(self, msgs: Seq<MsgV>) -> bool {
        self.ledger.messages_exact(msgs, msgs.len()) && match self.ledger.transfers_done(
            msgs,
            msgs.len(),
        ) {
            Some(l1) => l1.closes_exact(msgs, msgs.len()) && match l1.closes_done(
                msgs,
                msgs.len(),
            ) {
                Some(l2) => {
                    let r = RpteV { ledger: l2, ..self };
                    r.others_exact(msgs, msgs.len()) && match r.others_done(msgs, msgs.len()) {
                        Some((n, groups)) => n.groups_exact(groups, groups.len()),
                        None => true,
                    }
                },
                None => true,
            },
            None => true,
        }
    }

    /// How much of a token a round of messages issues.
    pub open spec fn round_issued(self, msgs: Seq<MsgV>, token: usize) -> int {
        match self.ledger.transfers_done(msgs, msgs.len()) {
            Some(l1) => match l1.closes_done(msgs, msgs.len()) {
                Some(l2) => (RpteV { ledger: l2, ..self }).others_issued(msgs, msgs.len(), token),
                None => 0,
            },
            None => 0,
        }
    }
}

proof fn lemma_others_held<L: ContractLogic>(r: RpteV<L>, msgs: Seq<MsgV>, k: nat, token: usize)
    requires
        k <= msgs.len(),
        r.others_done(msgs, k) is Some,
        (r.others_done(msgs, k)->0).0.ledger.nodes.len() <= usize::MAX,
        r.others_exact(msgs, k),
    ensures
        (r.others_done(msgs, k)->0).0.ledger.held(token) == r.ledger.held(token)
            + r.others_issued(msgs, k, token),
    decreases k,
{
    if k > 0 {
        let (m, groups) = r.others_done(msgs, (k - 1) as nat)->0;
        lemma_handled_grown(m, groups, msgs[k - 1]);
        lemma_others_held(r, msgs, (k - 1) as nat, token);
        lemma_handled_held(m, groups, msgs[k - 1], token);
    }
}

proof fn lemma_group_held<L: ContractLogic>(r: RpteV<L>, g: SwapGroup, token: usize)
    requires
        r.group_done(g) is Some,
        r.ledger.nodes.len() <= usize::MAX,
        r.group_exact(g),
    ensures
        (r.group_done(g)->0).ledger.held(token) == r.ledger.held(token),
{
    if r.ledger.pair(g.pair_id) is Ok {
        let (l, transfers) = r.group_settlement(g)->0;
        lemma_total_update(
            r.ledger,
            g.pair_id,
            l.node(g.pair_id),
            token,
            r.ledger.nodes.len(),
        );
        law_settling_conserves(l, transfers, transfers.len(), token);
    }
}

proof fn lemma_groups_held<L: ContractLogic>(
    r: RpteV<L>,
    groups: Seq<SwapGroup>,
    k: nat,
    token: usize,
)
    requires
        k <= groups.len(),
        r.groups_done(groups, k) is Some,
        (r.groups_done(groups, k)->0).ledger.nodes.len() <= usize::MAX,
        r.groups_exact(groups, k),
    ensures
        (r.groups_done(groups, k)->0).ledger.held(token) == r.ledger.held(token),
    decreases k,
{
    if k > 0 {
        let m = r.groups_done(groups, (k - 1) as nat)->0;
        lemma_group_grown(m, groups[k - 1]);
        lemma_groups_held(r, groups, (k - 1) as nat, token);
        lemma_group_held(m, groups[k - 1], token);
    }
}

/// A round of messages, whatever they are, makes and loses nothing but what it issues: what all
/// nodes hold together of a token changes by exactly what was issued of it. The sums must be
/// exact.
pub proof fn law_round_conserves<L: ContractLogic>(r: RpteV<L>, msgs: Seq<MsgV>, token: usize)
    requires
        r.round_done(msgs) is Some,
        (r.round_done(msgs)->0).0.ledger.nodes.len() <= usize::MAX,
        r.round_exact(msgs),
    ensures
        (r.round_done(msgs)->0).0.ledger.held(token) == r.ledger.held(token) + r.round_issued(
            msgs,
            token,
        ),
{
    let l1 = r.ledger.transfers_done(msgs, msgs.len())->0;
    let l2 = l1.closes_done(msgs, msgs.len())->0;
    let r2 = RpteV { ledger: l2, ..r };
    let (r3, groups) = r2.others_done(msgs, msgs.len())->0;
    let n = r3.groups_done(groups, groups.len())->0;
    lemma_transfers_grown(r.ledger, msgs, msgs.len());
    lemma_closes_grown(l1, msgs, msgs.len());
    lemma_others_grown(r2, msgs, msgs.len());
    lemma_groups_grown(r3, groups, groups.len());
    assert(n.ledger.nodes.len() == n.ledger.collected().nodes.len());
    assert(grown(r3.ledger, n.ledger));
    law_transfers_conserve(r.ledger, msgs, msgs.len(), token);
    lemma_closes_held(l1, msgs, msgs.len(), token);
    lemma_others_held(r2, msgs, msgs.len(), token);
    lemma_groups_held(r3, groups, groups.len(), token);
    let m = n.ledger.collected();
    assert forall|i: int| 0 <= i < n.ledger.nodes.len() implies (#[trigger] m.nodes[i]).balance(
        token,
    ) == n.ledger.nodes[i].balance(token) by {}
    lemma_total_same(n.ledger, m, token, n.ledger.nodes.len());
}

} // verus!
