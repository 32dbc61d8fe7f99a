//! What the engine is and how a frame changes it.

use crate::contract::{ContractLogic, ContractV};
use crate::decimal::Decimal;
use crate::ledger_model::LedgerV;
use crate::matching::PairV;
use crate::node::{ContractState, CoreV, Drt, KindV, MsgV, NodeV};
use crate::virtual_pair::VirtualV;
use vstd::prelude::*;

verus! {

/// Where contracts keep the prices that they quote: the price of function `n` is the balance of
/// this key plus `n`.
pub const PRICE_BASE: usize = usize::MAX / 4;

/// How many rounds of messages a frame may take.
pub const FRAME_ROUNDS: u32 = 999;

/// The engine: the ledger, the contracts and the messages for the next frame.
///
/// Every contract has two nodes. The one in the ledger, known to the others, receives and pays;
/// the one kept here runs the program. Balances go over from one to the other at the ends of a
/// frame.
#[verifier::ext_equal]
pub struct RpteV<L> {
    pub ledger: LedgerV,
    pub programs: Seq<L>,
    pub masters: Seq<NodeV>,
    /// Nodes of contracts that are over.
    pub contract_pool: Seq<usize>,
    /// The node that runs the program of a contract's node.
    pub slave_to_master: Map<usize, usize>,
    pub msgs: Seq<MsgV>,
    pub running: bool,
}

/// Market orders of one pair and side, in the order in which they came.
pub struct SwapGroup {
    pub pair_id: usize,
    pub direction: Drt,
    pub swaps: Seq<(usize, Decimal)>,
}

/// The position of the group of a pair and side among those from `i` on.
pub open spec fn find_group(groups: Seq<SwapGroup>, pair_id: usize, d: Drt, i: nat) -> nat
    decreases groups.len() - i,
{
    if i >= groups.len() || (groups[i as int].pair_id == pair_id && groups[i as int].direction
        == d) {
        i
    } else {
        find_group(groups, pair_id, d, i + 1)
    }
}

/// The groups with one more market order.
pub open spec fn grouped(
    groups: Seq<SwapGroup>,
    pair_id: usize,
    d: Drt,
    swap: (usize, Decimal),
) -> Seq<SwapGroup> {
    let i = find_group(groups, pair_id, d, 0) as int;
    if i < groups.len() {
        groups.update(i, SwapGroup { swaps: groups[i].swaps.push(swap), ..groups[i] })
    } else {
        groups.push(SwapGroup { pair_id, direction: d, swaps: seq![swap] })
    }
}

/// The messages that the first `k` nodes have sent.
pub open spec fn sent(nodes: Seq<NodeV>, k: nat) -> Seq<MsgV>
    decreases k,
{
    if k == 0 {
        Seq::empty()
    } else {
        sent(nodes, (k - 1) as nat) + nodes[k - 1].core.msgs
    }
}

impl LedgerV {
    /// The ledger after the messages of all nodes were collected.
    pub open spec fn collected(self) -> LedgerV {
        LedgerV {
            nodes: self.nodes.map_values(|n: NodeV| n.updated(self.step_count).emptied()),
            ..self
        }
    }

    /// The ledger after the transfers among the first `k` messages.
    pub open spec fn transfers_done(self, msgs: Seq<MsgV>, k: nat) -> Option<LedgerV>
        decreases k,
    {
        if k == 0 {
            Some(self)
        } else {
            match self.transfers_done(msgs, (k - 1) as nat) {
                Some(l) => match msgs[k - 1] {
                    MsgV::Transfer { src_id, dst_id, token, volume, allow_negative } =>
                        l.transfer_noted(src_id, dst_id, token, volume, allow_negative),
                    MsgV::TransferAll { src_id, dst_id } => l.transfer_all_noted(src_id, dst_id),
                    _ => Some(l),
                },
                None => None,
            }
        }
    }

    /// The ledger after the orders among the first `k` messages were closed.
    pub open spec fn closes_done(self, msgs: Seq<MsgV>, k: nat) -> Option<LedgerV>
        decreases k,
    {
        if k == 0 {
            Some(self)
        } else {
            match self.closes_done(msgs, (k - 1) as nat) {
                Some(l) => match msgs[k - 1] {
                    MsgV::CloseOrder { order_id } => l.order_closed(order_id),
                    _ => Some(l),
                },
                None => None,
            }
        }
    }

    /// The ledger with a virtual pair, if there is a token of the name.
    pub open spec fn virtual_pair_made(
        self,
        slave: usize,
        fn_id: u8,
        quote_token: usize,
        base: usize,
        swap_only: bool,
    ) -> LedgerV {
        self.pair_registered(
            NodeV {
                core: CoreV::empty(),
                kind: KindV::Virtual(
                    VirtualV {
                        pair: PairV::fresh(
                            quote_token,
                            base,
                            Decimal::of(1, 0),
                            self.max_tra_log_length,
                            self.precision,
                        ),
                        swap_only,
                        contract_slave_id: slave,
                        fn_id,
                    },
                ),
            },
        )
    }

    /// The ledger with another fee of a pair, if the node is one.
    pub open spec fn fee_set(self, id: usize, fee: Option<crate::fee::FeeFn>) -> LedgerV {
        if self.pair(id) is Ok {
            self.with_node(
                id,
                self.node(id).with_pair(PairV { fee, ..self.node(id).pair() }),
            )
        } else {
            self
        }
    }
}

/// How many trades a pair keeps.
pub open spec fn log_limit() -> usize {
    if usize::MAX >= 10_000_000_000int {
        10_000_000_000int as usize
    } else {
        usize::MAX
    }
}

impl<L> RpteV<L> {
    /// An engine with nothing but its quote token.
    pub open spec fn fresh(quote_name: Seq<char>, precision: u8) -> RpteV<L> {
        let (l, id) = LedgerV::empty(log_limit(), precision).token_registered(quote_name);
        RpteV {
            ledger: LedgerV { quote: id, ..l },
            programs: Seq::empty(),
            masters: Seq::empty(),
            contract_pool: Seq::empty(),
            slave_to_master: Map::empty(),
            msgs: Seq::empty(),
            running: true,
        }
    }

    pub open spec fn with_ledger(self, ledger: LedgerV) -> RpteV<L> {
        RpteV { ledger, ..self }
    }

    /// The engine with one more message for the next frame.
    pub open spec fn with_msg(self, msg: MsgV) -> RpteV<L> {
        RpteV { msgs: self.msgs.push(msg), ..self }
    }

    /// The token that a worth is given in.
    pub open spec fn target(self, dst_token: Option<usize>) -> usize {
        match dst_token {
            Some(t) => t,
            None => self.ledger.quote,
        }
    }

    /// A value cut off at the engine's precision.
    pub open spec fn rounded(self, value: Decimal) -> Decimal {
        value.truncated(self.ledger.precision as nat)
    }
}

impl<L: ContractLogic> RpteV<L> {
    /// The program of a contract.
    pub open spec fn program(self, c: NodeV) -> Option<L> {
        match c.contract().program {
            Some(i) => if i < self.programs.len() {
                Some(self.programs[i as int])
            } else {
                None
            },
            None => None,
        }
    }

    /// The engine after the programs of the first `k` contracts ran, and their messages.
    pub open spec fn contracts_stepped(self, k: nat) -> Option<(RpteV<L>, Seq<MsgV>)>
        decreases k,
    {
        if k == 0 {
            Some((self, Seq::empty()))
        } else {
            match self.contracts_stepped((k - 1) as nat) {
                Some((r, out)) => {
                    let c = r.masters[k - 1];
                    if c.contract().state == ContractState::Destroyed {
                        Some((r, out))
                    } else {
                        match c.contract_stepped(
                            r.program(c),
                            r.ledger,
                            r.ledger.step_count,
                        ) {
                            Some(n) => Some(
                                (
                                    RpteV { masters: r.masters.update(k - 1, n.emptied()), ..r },
                                    out + n.core.msgs,
                                ),
                            ),
                            None => None,
                        }
                    }
                },
                None => None,
            }
        }
    }

    /// Whether a node is that of a contract.
    pub open spec fn is_slave(self, id: usize) -> bool {
        self.slave_to_master.dom().contains(id) && self.slave_to_master[id] < self.masters.len()
    }

    /// The node that runs the program of a contract's node.
    pub open spec fn master(self, id: usize) -> NodeV {
        self.masters[self.slave_to_master[id] as int]
    }

    /// The ledger after the balances of contracts went over to those of their nodes that are
    /// among the first `k`.
    pub open spec fn balances_lent(self, k: nat) -> LedgerV
        decreases k,
    {
        if k == 0 {
            self.ledger
        } else {
            let l = self.balances_lent((k - 1) as nat);
            let id = (k - 1) as usize;
            if self.is_slave(id) {
                let n = l.node(id);
                l.with_node(
                    id,
                    n.with_core(
                        CoreV {
                            sheet: n.core.sheet.union_prefer_right(self.master(id).core.sheet),
                            ..n.core
                        },
                    ),
                )
            } else {
                l
            }
        }
    }

    /// The price that a contract quotes for a function, if it does.
    pub open spec fn quote_for(self, slave: usize, fn_id: u8) -> Option<Decimal> {
        let key = (PRICE_BASE + fn_id) as usize;
        if self.is_slave(slave) && self.master(slave).core.sheet.dom().contains(key) {
            Some(self.master(slave).core.sheet[key])
        } else {
            None
        }
    }

    /// A node with the price that its contract quotes, if it is a virtual pair.
    pub open spec fn quoted(self, n: NodeV) -> NodeV {
        match n.kind {
            KindV::Virtual(v) => match self.quote_for(v.contract_slave_id, v.fn_id) {
                Some(price) => n.priced(price),
                None => n,
            },
            _ => n,
        }
    }

    /// The ledger after virtual pairs took the prices that their contracts quote.
    pub open spec fn prices_taken(self) -> LedgerV {
        LedgerV { nodes: self.ledger.nodes.map_values(|n: NodeV| self.quoted(n)), ..self.ledger }
    }

    /// The engine after the balances of the contracts' nodes among the first `k` went back.
    pub open spec fn balances_returned(self, k: nat) -> RpteV<L>
        decreases k,
    {
        if k == 0 {
            self
        } else {
            let r = self.balances_returned((k - 1) as nat);
            let id = (k - 1) as usize;
            if r.is_slave(id) {
                let n = r.ledger.node(id);
                let m = r.master(id);
                RpteV {
                    ledger: r.ledger.with_node(
                        id,
                        n.with_core(CoreV { sheet: Map::empty(), ..n.core }),
                    ),
                    masters: r.masters.update(
                        r.slave_to_master[id] as int,
                        m.with_core(
                            CoreV {
                                sheet: m.core.sheet.union_prefer_right(n.core.sheet),
                                ..m.core
                            },
                        ),
                    ),
                    ..r
                }
            } else {
                r
            }
        }
    }

    /// The engine after the nodes among the first `k` of contracts that are over were put aside
    /// for others.
    pub open spec fn contracts_recycled(self, k: nat) -> RpteV<L>
        decreases k,
    {
        if k == 0 {
            self
        } else {
            let r = self.contracts_recycled((k - 1) as nat);
            let id = (k - 1) as usize;
            if r.is_slave(id) && r.master(id).contract().state == ContractState::Destroyed {
                RpteV {
                    slave_to_master: r.slave_to_master.remove(id),
                    contract_pool: r.contract_pool.push(id),
                    ..r
                }
            } else {
                r
            }
        }
    }

    /// The engine with one more contract.
    pub open spec fn contract_created(self, owner: usize, name: Seq<char>, program: usize) -> RpteV<
        L,
    > {
        let step = self.ledger.step_count;
        let (l0, pool, slave) = if self.contract_pool.len() > 0 {
            (self.ledger, self.contract_pool.drop_last(), self.contract_pool.last())
        } else {
            (
                self.ledger.with_new_node(
                    NodeV { core: CoreV::empty(), kind: KindV::Contract(ContractV::blank()) },
                ),
                self.contract_pool,
                self.ledger.next_id(),
            )
        };
        let n = l0.node(slave);
        let l1 = if l0.has(slave) {
            l0.with_node(
                slave,
                NodeV {
                    core: CoreV { id: slave, ..n.core },
                    kind: match n.kind {
                        KindV::Contract(_) => KindV::Contract(
                            ContractV::deployed(owner, name, None, step),
                        ),
                        _ => n.kind,
                    },
                },
            )
        } else {
            l0
        };
        RpteV {
            ledger: l1,
            contract_pool: pool,
            masters: self.masters.push(
                NodeV {
                    core: CoreV { id: slave, ..CoreV::empty() },
                    kind: KindV::Contract(ContractV::deployed(owner, name, Some(program), step)),
                },
            ),
            slave_to_master: self.slave_to_master.insert(slave, self.masters.len() as usize),
            ..self
        }
    }

    /// The engine after a contract was called. Its messages are for the next frame.
    pub open spec fn contract_called(
        self,
        src: usize,
        contract_id: usize,
        fn_id: u8,
        volume: Decimal,
    ) -> Option<RpteV<L>> {
        if !self.is_slave(contract_id) {
            Some(self)
        } else {
            let m = self.master(contract_id);
            match m.contract_called(self.program(m), self.ledger, fn_id, src, volume) {
                Some((n, msgs)) => Some(
                    RpteV {
                        masters: self.masters.update(
                            self.slave_to_master[contract_id] as int,
                            n,
                        ),
                        msgs: self.msgs + msgs,
                        ..self
                    },
                ),
                None => None,
            }
        }
    }

    /// The engine after a message that is neither a transfer nor a request to close an order; a
    /// market order joins its group.
    pub open spec fn handled(self, groups: Seq<SwapGroup>, m: MsgV) -> Option<
        (RpteV<L>, Seq<SwapGroup>),
    > {
        match m {
            MsgV::OpenOrder { src_id, owner_node_id, src_token, dst_token, volume, price } => {
                match self.ledger.order_opened(
                    src_id,
                    owner_node_id,
                    src_token,
                    dst_token,
                    volume,
                    price,
                ) {
                    Some(ledger) => Some((RpteV { ledger, ..self }, groups)),
                    None => None,
                }
            },
            MsgV::SwapOrder { src_id: _, owner_node_id, src_token, dst_token, volume } => {
                let (ledger, asked) = self.ledger.swap_asked(
                    owner_node_id,
                    src_token,
                    dst_token,
                    volume,
                );
                let r = RpteV { ledger, ..self };
                match asked {
                    Some((pair_id, d, v)) => Some(
                        (r, grouped(groups, pair_id, d, (owner_node_id, v))),
                    ),
                    None => Some((r, groups)),
                }
            },
            MsgV::CreateContract { owner_node_id, name, program } => Some(
                (self.contract_created(owner_node_id, name, program), groups),
            ),
            MsgV::RegisterToken {
                name,
                can_be_negative,
                not_tradable,
                virtual_anchor,
                swap_whitelist,
            } => Some(
                (
                    RpteV {
                        ledger: self.ledger.token_set_up(
                            name,
                            can_be_negative,
                            not_tradable,
                            virtual_anchor,
                            swap_whitelist,
                        ),
                        ..self
                    },
                    groups,
                ),
            ),
            MsgV::CreateVirtualPair {
                contract_slave_id,
                fn_id,
                quote_token,
                base_token_name,
                swap_only,
            } => Some(
                (
                    match self.ledger.token_by_name(base_token_name) {
                        Some(base) => RpteV {
                            ledger: self.ledger.virtual_pair_made(
                                contract_slave_id,
                                fn_id,
                                quote_token,
                                base,
                                swap_only,
                            ),
                            ..self
                        },
                        None => RpteV { msgs: self.msgs.push(m), ..self },
                    },
                    groups,
                ),
            ),
            MsgV::CallContract { src_id, contract_id, fn_id, volume } => {
                match self.contract_called(src_id, contract_id, fn_id, volume) {
                    Some(r) => Some((r, groups)),
                    None => None,
                }
            },
            MsgV::Issue { token, account_id, volume } => {
                match self.ledger.issued(account_id, token, volume) {
                    Some(Ok(ledger)) => Some((RpteV { ledger, ..self }, groups)),
                    Some(Err(_)) => Some((self, groups)),
                    None => None,
                }
            },
            MsgV::SetPairFee { pair_id, fee_fn } => Some(
                (RpteV { ledger: self.ledger.fee_set(pair_id, fee_fn), ..self }, groups),
            ),
            _ => Some((self, groups)),
        }
    }

    /// The engine after the first `k` messages, without the transfers and the orders to close
    /// among them, and the groups of market orders.
    pub open spec fn others_done(self, msgs: Seq<MsgV>, k: nat) -> Option<
        (RpteV<L>, Seq<SwapGroup>),
    >
        decreases k,
    {
        if k == 0 {
            Some((self, Seq::empty()))
        } else {
            match self.others_done(msgs, (k - 1) as nat) {
                Some((r, groups)) => r.handled(groups, msgs[k - 1]),
                None => None,
            }
        }
    }

    /// The engine after a group of market orders was traded. The orders that are spent are to be
    /// closed in the next frame.
    pub open spec fn group_done(self, g: SwapGroup) -> Option<RpteV<L>> {
        if self.ledger.pair(g.pair_id) is Err {
            Some(self)
        } else {
            match self.ledger.swaps_done(g.pair_id, g.direction, g.swaps) {
                Some((ledger, closes)) => Some(
                    RpteV {
                        ledger,
                        msgs: self.msgs + closes.map_values(
                            |id: usize| MsgV::CloseOrder { order_id: id },
                        ),
                        ..self
                    },
                ),
                None => None,
            }
        }
    }

    /// The engine after the first `k` groups of market orders.
    pub open spec fn groups_done(self, groups: Seq<SwapGroup>, k: nat) -> Option<RpteV<L>>
        decreases k,
    {
        if k == 0 {
            Some(self)
        } else {
            match self.groups_done(groups, (k - 1) as nat) {
                Some(r) => r.group_done(groups[k - 1]),
                None => None,
            }
        }
    }

    /// One round of messages: the transfers, then the orders to close, then the others, then the
    /// market orders. Returns the messages that the nodes sent meanwhile.
    pub open spec fn round_done(self, msgs: Seq<MsgV>) -> Option<(RpteV<L>, Seq<MsgV>)> {
        match self.ledger.transfers_done(msgs, msgs.len()) {
            Some(l1) => match l1.closes_done(msgs, msgs.len()) {
                Some(l2) => match (RpteV { ledger: l2, ..self }).others_done(msgs, msgs.len()) {
                    Some((r, groups)) => match r.groups_done(groups, groups.len()) {
                        Some(n) => Some(
                            (
                                RpteV { ledger: n.ledger.collected(), ..n },
                                sent(n.ledger.nodes, n.ledger.nodes.len()),
                            ),
                        ),
                        None => None,
                    },
                    None => None,
                },
                None => None,
            },
            None => None,
        }
    }

    /// Rounds of messages until there are none or `rounds` have passed.
    pub open spec fn rounds_done(self, msgs: Seq<MsgV>, rounds: nat) -> Option<RpteV<L>>
        decreases rounds,
    {
        if msgs.len() == 0 || rounds == 0 {
            Some(self)
        } else {
            match self.round_done(msgs) {
                Some((r, more)) => r.rounds_done(more, (rounds - 1) as nat),
                None => None,
            }
        }
    }

    /// The engine at the start of a frame, with the programs run, and the messages to handle.
    pub open spec fn frame_begun(self) -> Option<(RpteV<L>, Seq<MsgV>)> {
        match (RpteV { msgs: Seq::empty(), ..self }).contracts_stepped(self.masters.len()) {
            Some((r1, out)) => {
                let r2 = RpteV { ledger: r1.balances_lent(r1.ledger.nodes.len()), ..r1 };
                let r3 = RpteV { ledger: r2.prices_taken(), ..r2 };
                Some(
                    (
                        RpteV { ledger: r3.ledger.collected(), ..r3 },
                        self.msgs + out + sent(r3.ledger.nodes, r3.ledger.nodes.len()),
                    ),
                )
            },
            None => None,
        }
    }

    /// The engine at the end of a frame.
    pub open spec fn frame_ended(self) -> Option<RpteV<L>> {
        let r = self.balances_returned(self.ledger.nodes.len());
        if r.ledger.step_count == u64::MAX {
            None
        } else {
            let n = RpteV {
                ledger: LedgerV { step_count: (r.ledger.step_count + 1) as u64, ..r.ledger },
                ..r
            };
            Some(n.contracts_recycled(n.ledger.nodes.len()))
        }
    }

    /// The engine after a frame. `None` where a number overflows or trading comes to no end.
    pub open spec fn stepped(self) -> Option<RpteV<L>> {
        match self.frame_begun() {
            Some((r, msgs)) => match r.rounds_done(msgs, FRAME_ROUNDS as nat) {
                Some(n) => n.frame_ended(),
                None => None,
            },
            None => None,
        }
    }
}

} // verus!
