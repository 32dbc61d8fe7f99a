//! The engine.

use crate::account::Account;
use crate::any_node::AnyNode;
use crate::books::Books;
use crate::contract::{Contract, ContractLogic, ContractNode};
use crate::contract_presets::LendingPreset;
use crate::decimal::{Amount, Decimal};
use crate::error::Error;
use crate::fee::FeeFn;
use crate::ledger::Ledger;
use crate::ledger_laws::{law_names_and_ids, law_token_registered, lemma_tokens_kept};
use crate::ledger_model::{LedgerV, Part};
use crate::node::{msgs_view, ContractState, Drt, Msg, MsgV, Node, NodeV, OrderBookDepth};
use crate::order::{Order, OrderBrief};
use crate::pair::Pair;
use crate::pair_node::level_at;
use crate::reader::EngineReader;
use crate::route::{discover, discovered, RouteHop};
use crate::rpte_laws::{
    law_first_token, lemma_closes_grown, lemma_collected_grown, lemma_created_grown,
    lemma_fee_grown, lemma_group_grown, lemma_handled_grown, lemma_issued_grown, lemma_lent_grown,
    lemma_returned_grown, lemma_transfers_grown,
};
use crate::rpte_model::{find_group, grouped, sent, RpteV, SwapGroup, FRAME_ROUNDS, PRICE_BASE};
use crate::token::Token;
use crate::trade_log::{candle_data, last_candle, CandleData, TraLog};
use crate::virtual_pair::VirtualPair;
use std::collections::{HashMap, HashSet, VecDeque};
use vstd::prelude::*;

verus! {

broadcast use {
    vstd::std_specs::hash::group_hash_axioms,
    Account::lemma_kind,
    Contract::lemma_kind,
    Order::lemma_kind,
    Pair::lemma_kind,
    Token::lemma_kind,
    VirtualPair::lemma_kind,
};

/// The engine: the ledger, the contracts and the messages for the next frame.
pub struct Rpte<L = LendingPreset> {
    books: Books,
    programs: Vec<L>,
    contract_masters: Vec<Contract>,
    contract_pool: Vec<usize>,
    slave_to_master: HashMap<usize, usize>,
    msgs: Vec<Msg>,
    running: bool,
}

/// What contracts are.
pub open spec fn masters_view(masters: Seq<Contract>) -> Seq<NodeV> {
    masters.map_values(|c: Contract| c@)
}

impl<L> View for Rpte<L> {
    type V = RpteV<L>;

    closed spec fn view(&self) -> RpteV<L> {
        RpteV {
            ledger: self.books@,
            programs: self.programs@,
            masters: masters_view(self.contract_masters@),
            contract_pool: self.contract_pool@,
            slave_to_master: self.slave_to_master@,
            msgs: msgs_view(self.msgs@),
            running: self.running,
        }
    }
}

impl<L> Rpte<L> {
    /// There are never more nodes than ids.
    pub proof fn lemma_ids_suffice(&self)
        ensures
            self@.ledger.nodes.len() <= usize::MAX,
    {
        self.books.lemma_ids_suffice();
    }
}

/// Market orders of one pair and side.
struct Group {
    pair_id: usize,
    direction: Drt,
    swaps: Vec<(usize, Decimal)>,
}

impl View for Group {
    type V = SwapGroup;

    closed spec fn view(&self) -> SwapGroup {
        SwapGroup { pair_id: self.pair_id, direction: self.direction, swaps: self.swaps@ }
    }
}

spec fn groups_view(groups: Seq<Group>) -> Seq<SwapGroup> {
    groups.map_values(|g: Group| g@)
}

/// Adds a market order to its group.
fn add_swap(groups: &mut Vec<Group>, pair_id: usize, direction: Drt, swap: (usize, Decimal))
    ensures
        groups_view(final(groups)@) == grouped(
            groups_view(old(groups)@),
            pair_id,
            direction,
            swap,
        ),
{
    let ghost v = groups_view(groups@);
    let mut i: usize = 0;
    while i < groups.len() && !(groups[i].pair_id == pair_id && groups[i].direction == direction)
        invariant
            i <= groups@.len(),
            groups@ == old(groups)@,
            v == groups_view(groups@),
            find_group(v, pair_id, direction, 0) == find_group(v, pair_id, direction, i as nat),
        decreases groups@.len() - i,
    {
        assert(v[i as int] == groups@[i as int]@);
        i = i + 1;
    }
    if i < groups.len() {
        assert(v[i as int] == groups@[i as int]@);
        groups[i].swaps.push(swap);
        assert(groups_view(groups@) =~= grouped(v, pair_id, direction, swap));
    } else {
        let mut swaps: Vec<(usize, Decimal)> = Vec::new();
        swaps.push(swap);
        groups.push(Group { pair_id, direction, swaps });
        assert(swaps@ =~= seq![swap]);
        assert(groups_view(groups@) =~= grouped(v, pair_id, direction, swap));
    }
}

impl<L: ContractLogic> Rpte<L> {
    /// The program of an index.
    fn program(&self, index: Option<usize>) -> (r: Option<&L>)
        ensures
            match index {
                Some(i) => if i < self@.programs.len() {
                    r is Some && *r->0 == self@.programs[i as int]
                } else {
                    r is None
                },
                None => r is None,
            },
    {
        match index {
            Some(i) => if i < self.programs.len() {
                Some(&self.programs[i])
            } else {
                None
            },
            None => None,
        }
    }

    /// Puts messages among those for the next frame.
    fn enqueue(&mut self, msgs: Vec<Msg>)
        ensures
            final(self)@ == (RpteV { msgs: old(self)@.msgs + msgs_view(msgs@), ..old(self)@ }),
    {
        let mut more: Vec<Msg> = msgs;
        self.msgs.append(&mut more);
        assert(msgs_view(self.msgs@) =~= msgs_view(old(self).msgs@) + msgs_view(msgs@));
    }

    /// Runs the programs of all contracts that are not over. Returns their messages, or `None`
    /// where a number overflows.
    fn step_master_contracts(&mut self) -> (r: Option<Vec<Msg>>)
        ensures
            ({
                let out = old(self)@.contracts_stepped(old(self)@.masters.len());
                &&& r is Some == out is Some
                &&& r is Some ==> (final(self)@, msgs_view((r->0)@)) == out->0
            }),
    {
        let mut out: Vec<Msg> = Vec::new();
        let n: usize = self.contract_masters.len();
        let mut i: usize = 0;
        assert(msgs_view(out@) =~= Seq::empty());
        while i < n
            invariant
                i <= n,
                n == old(self)@.masters.len(),
                n == self.contract_masters@.len(),
                old(self)@.contracts_stepped(i as nat) == Some((self@, msgs_view(out@))),
            decreases n - i,
        {
            let ghost r0 = self@;
            let ghost out0 = msgs_view(out@);
            assert(r0.masters[i as int] == self.contract_masters@[i as int]@);
            if self.contract_masters[i].get_state() != ContractState::Destroyed {
                let index = self.contract_masters[i].get_program();
                let mut master = Contract::new();
                std::mem::swap(&mut master, &mut self.contract_masters[i]);
                let done = master.update_with_reader(
                    self.program(index),
                    self.books.read(),
                    self.books.read().get_step_count(),
                );
                if done.is_none() {
                    proof {
                        lemma_contracts_none(old(self)@, (i + 1) as nat);
                    }
                    return None;
                }
                let ghost stepped = master@;
                let mut more = master.base_mut().take_msgs();
                out.append(&mut more);
                self.contract_masters[i] = master;
                assert(msgs_view(out@) =~= out0 + stepped.core.msgs);
                assert(masters_view(self.contract_masters@) =~= r0.masters.update(
                    i as int,
                    stepped.emptied(),
                ));
            }
            i = i + 1;
        }
        Some(out)
    }

    /// Lends the balances of contracts to their nodes.
    fn sync_master_to_slave(&mut self)
        ensures
            final(self)@ == (RpteV {
                ledger: old(self)@.balances_lent(old(self)@.ledger.nodes.len()),
                ..old(self)@
            }),
    {
        let ghost r0 = self@;
        let mut ledger = self.books.take();
        let n: usize = ledger.len();
        let mut id: usize = 0;
        while id < n
            invariant
                id <= n,
                n == r0.ledger.nodes.len(),
                r0 == old(self)@,
                self@ == (RpteV { ledger: self@.ledger, ..r0 }),
                ledger@ == r0.balances_lent(id as nat),
                ledger@.nodes.len() == n,
            decreases n - id,
        {
            if let Some(index) = self.slave_to_master.get(&id) {
                let m: usize = *index;
                if m < self.contract_masters.len() {
                    assert(r0.masters[m as int] == self.contract_masters@[m as int]@);
                    ledger.node_mut(id).base_mut().overlay(
                        self.contract_masters[m].get_all_balances(),
                    );
                }
            }
            id = id + 1;
        }
        proof {
            ledger.lemma_ids_suffice();
            lemma_lent_grown(r0, n as nat);
        }
        self.books.put(ledger);
    }

    /// The price that a contract quotes for a function, if it does.
    fn get_quote(&self, slave_id: usize, fn_id: u8) -> (r: Option<Decimal>)
        ensures
            r == self@.quote_for(slave_id, fn_id),
    {
        let m: usize = match self.slave_to_master.get(&slave_id) {
            Some(index) => *index,
            None => return None,
        };
        if m >= self.contract_masters.len() {
            return None;
        }
        assert(self@.masters[m as int] == self.contract_masters@[m as int]@);
        match self.contract_masters[m].get_all_balances().get(&(PRICE_BASE + fn_id as usize)) {
            Some(price) => Some(*price),
            None => None,
        }
    }

    /// Has virtual pairs take the prices that their contracts quote.
    fn take_prices(&mut self)
        ensures
            final(self)@ == (RpteV { ledger: old(self)@.prices_taken(), ..old(self)@ }),
    {
        let ghost r0 = self@;
        let mut ledger = self.books.take();
        let n: usize = ledger.len();
        let mut id: usize = 0;
        while id < n
            invariant
                id <= n,
                n == r0.ledger.nodes.len(),
                r0 == old(self)@,
                self@ == (RpteV { ledger: self@.ledger, ..r0 }),
                ledger@ == (LedgerV { nodes: ledger@.nodes, ..r0.ledger }),
                ledger@.nodes.len() == n,
                forall|j: int|
                    0 <= j < id ==> #[trigger] ledger@.nodes[j] == r0.quoted(r0.ledger.nodes[j]),
                forall|j: int| id <= j < n ==> #[trigger] ledger@.nodes[j] == r0.ledger.nodes[j],
            decreases n - id,
        {
            let key: Option<(usize, u8)> = match ledger.node(id) {
                AnyNode::Virtual(v) => Some((v.get_contract_slave_id(), v.get_fn_id())),
                _ => None,
            };
            if let Some((slave_id, fn_id)) = key {
                if let Some(price) = self.get_quote(slave_id, fn_id) {
                    ledger.node_mut(id).set_current_price(price);
                }
            }
            id = id + 1;
        }
        assert(ledger@.nodes =~= r0.prices_taken().nodes);
        proof {
            assert forall|t: usize| #[trigger] r0.ledger.token(t) is Some implies ledger@.token(t)
                is Some by {
                assert(ledger@.nodes[t as int] == r0.quoted(r0.ledger.nodes[t as int]));
            }
            lemma_tokens_kept(r0.ledger, ledger@);
        }
        self.books.put(ledger);
    }

    /// Takes the balances of the contracts' nodes back.
    fn sync_slave_to_master(&mut self)
        ensures
            final(self)@ == old(self)@.balances_returned(old(self)@.ledger.nodes.len()),
    {
        let ghost r0 = self@;
        let mut ledger = self.books.take();
        let n: usize = ledger.len();
        let mut id: usize = 0;
        while id < n
            invariant
                id <= n,
                n == r0.ledger.nodes.len(),
                r0 == old(self)@,
                self@ == (RpteV { ledger: self@.ledger, ..r0.balances_returned(id as nat) }),
                ledger@ == r0.balances_returned(id as nat).ledger,
                ledger@.nodes.len() == n,
            decreases n - id,
        {
            let ghost r1 = self@;
            if let Some(index) = self.slave_to_master.get(&id) {
                let m: usize = *index;
                if m < self.contract_masters.len() {
                    assert(r1.masters[m as int] == self.contract_masters@[m as int]@);
                    let balances = ledger.node_mut(id).drain_balances();
                    self.contract_masters[m].base_mut().overlay(&balances);
                    assert(self@.masters =~= r0.balances_returned((id + 1) as nat).masters);
                }
            }
            id = id + 1;
        }
        proof {
            ledger.lemma_ids_suffice();
            lemma_returned_grown(r0, n as nat);
        }
        self.books.put(ledger);
    }

    /// Puts the nodes of contracts that are over aside for others.
    fn recycle_contracts(&mut self)
        ensures
            final(self)@ == old(self)@.contracts_recycled(old(self)@.ledger.nodes.len()),
    {
        let n: usize = self.books.read().len();
        let mut id: usize = 0;
        let ghost r0 = self@;
        while id < n
            invariant
                id <= n,
                n == r0.ledger.nodes.len(),
                r0 == old(self)@,
                self@ == r0.contracts_recycled(id as nat),
            decreases n - id,
        {
            let over = match self.slave_to_master.get(&id) {
                Some(index) => {
                    let m: usize = *index;
                    if m < self.contract_masters.len() {
                        assert(self@.masters[m as int] == self.contract_masters@[m as int]@);
                        self.contract_masters[m].get_state() == ContractState::Destroyed
                    } else {
                        false
                    }
                },
                None => false,
            };
            if over {
                self.slave_to_master.remove(&id);
                self.contract_pool.push(id);
            }
            id = id + 1;
        }
    }

    /// Deploys a program: a node for the others, and one that runs the program.
    fn create_master_slave(&mut self, owner_node_id: usize, name: &str, program: usize)
        ensures
            final(self)@ == old(self)@.contract_created(owner_node_id, name@, program),
    {
        let mut ledger = self.books.take();
        let step: u64 = ledger.get_step_count();
        let slave_id: usize = match self.contract_pool.pop() {
            Some(id) => id,
            None => ledger.register_node(AnyNode::Contract(Contract::new())),
        };
        if slave_id < ledger.len() {
            ledger.node_mut(slave_id).set_id(slave_id);
            if let Some(slave) = ledger.node_mut(slave_id).as_contract_node() {
                slave.deploy(owner_node_id, name, None, step);
            }
        }
        proof {
            let made = old(self)@.contract_created(owner_node_id, name@, program).ledger;
            assert(ledger@.nodes =~= made.nodes);
            assert(ledger@ =~= made);
            ledger.lemma_ids_suffice();
            lemma_created_grown(old(self)@, owner_node_id, name@, program);
        }
        self.books.put(ledger);
        let mut master = Contract::new();
        master.deploy(owner_node_id, name, Some(program), step);
        master.set_id(slave_id);
        let index: usize = self.contract_masters.len();
        self.slave_to_master.insert(slave_id, index);
        self.contract_masters.push(master);
        assert(self@.masters =~= old(self)@.contract_created(owner_node_id, name@, program).masters);
        assert(self@.contract_pool =~= old(self)@.contract_created(
            owner_node_id,
            name@,
            program,
        ).contract_pool);
    }

    /// Calls a contract. `None` where a number overflows.
    fn call_master(&mut self, src_id: usize, contract_id: usize, fn_id: u8, volume: Decimal) -> (r: Option<
        (),
    >)
        ensures
            ({
                let out = old(self)@.contract_called(src_id, contract_id, fn_id, volume);
                &&& r is Some == out is Some
                &&& r is Some ==> final(self)@ == out->0
            }),
    {
        let m: usize = match self.slave_to_master.get(&contract_id) {
            Some(index) => *index,
            None => return Some(()),
        };
        if m >= self.contract_masters.len() {
            return Some(());
        }
        let ghost r0 = self@;
        assert(r0.masters[m as int] == self.contract_masters@[m as int]@);
        let index = self.contract_masters[m].get_program();
        let mut master = Contract::new();
        std::mem::swap(&mut master, &mut self.contract_masters[m]);
        let msgs = master.call(self.program(index), self.books.read(), src_id, fn_id, volume)?;
        let ghost called = master@;
        self.contract_masters[m] = master;
        assert(self@.masters =~= r0.masters.update(m as int, called));
        self.enqueue(msgs);
        Some(())
    }

    /// Makes the transfers among messages. `None` where a number overflows.
    fn do_transfers(&mut self, msgs: &Vec<Msg>) -> (r: Option<()>)
        ensures
            ({
                let l = old(self)@.ledger.transfers_done(msgs_view(msgs@), msgs@.len());
                &&& r is Some == l is Some
                &&& r is Some ==> final(self)@ == (RpteV { ledger: l->0, ..old(self)@ })
            }),
    {
        let mut i: usize = 0;
        let ghost all = msgs_view(msgs@);
        let mut ledger = self.books.take();
        while i < msgs.len()
            invariant
                i <= msgs@.len(),
                all == msgs_view(msgs@),
                self@ == (RpteV { ledger: self@.ledger, ..old(self)@ }),
                old(self)@.ledger.transfers_done(all, i as nat) == Some(ledger@),
            decreases msgs@.len() - i,
        {
            assert(all[i as int] == msgs@[i as int]@);
            let done = match &msgs[i] {
                Msg::Transfer { src_id, dst_id, token, volume, allow_negative } =>
                    ledger.transfer_and_note(
                        *src_id,
                        *dst_id,
                        *token,
                        *volume,
                        *allow_negative,
                    ),
                Msg::TransferAll { src_id, dst_id } => ledger.transfer_all_and_note(
                    *src_id,
                    *dst_id,
                ),
                _ => Some(()),
            };
            if done.is_none() {
                proof {
                    lemma_transfers_none(old(self)@.ledger, all, (i + 1) as nat);
                }
                return None;
            }
            i = i + 1;
        }
        proof {
            ledger.lemma_ids_suffice();
            lemma_transfers_grown(old(self)@.ledger, all, msgs@.len());
        }
        self.books.put(ledger);
        Some(())
    }

    /// Closes the orders among messages. `None` where a number overflows.
    fn do_closes(&mut self, msgs: &Vec<Msg>) -> (r: Option<()>)
        ensures
            ({
                let l = old(self)@.ledger.closes_done(msgs_view(msgs@), msgs@.len());
                &&& r is Some == l is Some
                &&& r is Some ==> final(self)@ == (RpteV { ledger: l->0, ..old(self)@ })
            }),
    {
        let mut i: usize = 0;
        let ghost all = msgs_view(msgs@);
        let mut ledger = self.books.take();
        while i < msgs.len()
            invariant
                i <= msgs@.len(),
                all == msgs_view(msgs@),
                self@ == (RpteV { ledger: self@.ledger, ..old(self)@ }),
                old(self)@.ledger.closes_done(all, i as nat) == Some(ledger@),
            decreases msgs@.len() - i,
        {
            assert(all[i as int] == msgs@[i as int]@);
            if let Msg::CloseOrder { order_id } = &msgs[i] {
                let done = ledger.close_order(*order_id);
                if done.is_none() {
                    proof {
                        lemma_closes_none(old(self)@.ledger, all, (i + 1) as nat);
                    }
                    return None;
                }
            }
            i = i + 1;
        }
        proof {
            ledger.lemma_ids_suffice();
            lemma_closes_grown(old(self)@.ledger, all, msgs@.len());
        }
        self.books.put(ledger);
        Some(())
    }

    /// Handles a message that is neither a transfer nor a request to close an order. `None` where
    /// a number overflows or trading comes to no end.
    fn handle(&mut self, msg: Msg, groups: &mut Vec<Group>) -> (r: Option<()>)
        ensures
            ({
                let out = old(self)@.handled(groups_view(old(groups)@), msg@);
                &&& r is Some == out is Some
                &&& r is Some ==> (final(self)@, groups_view(final(groups)@)) == out->0
            }),
    {
        let ghost sent = msg@;
        match msg {
            Msg::OpenOrder { src_id, owner_node_id, src_token, dst_token, volume, price } => {
                let mut ledger = self.books.take();
                ledger.open_order(src_id, owner_node_id, src_token, dst_token, volume, price)?;
                proof {
                    ledger.lemma_ids_suffice();
                    lemma_handled_grown(old(self)@, groups_view(old(groups)@), sent);
                }
                self.books.put(ledger);
            },
            Msg::SwapOrder { src_id: _, owner_node_id, src_token, dst_token, volume } => {
                let mut ledger = self.books.take();
                let asked = ledger.ask_swap(owner_node_id, src_token, dst_token, volume);
                proof {
                    ledger.lemma_ids_suffice();
                    lemma_handled_grown(old(self)@, groups_view(old(groups)@), sent);
                }
                self.books.put(ledger);
                if let Some((pair_id, direction, v)) = asked {
                    add_swap(groups, pair_id, direction, (owner_node_id, v));
                }
            },
            Msg::CreateContract { owner_node_id, name, program } => {
                self.create_master_slave(owner_node_id, name.as_str(), program);
            },
            Msg::RegisterToken {
                name,
                can_be_negative,
                not_tradable,
                virtual_anchor,
                swap_whitelist,
            } => {
                let mut ledger = self.books.take();
                ledger.set_up_token(
                    name.as_str(),
                    can_be_negative,
                    not_tradable,
                    virtual_anchor,
                    &swap_whitelist,
                );
                proof {
                    ledger.lemma_ids_suffice();
                    lemma_handled_grown(old(self)@, groups_view(old(groups)@), sent);
                }
                self.books.put(ledger);
            },
            Msg::CreateVirtualPair {
                contract_slave_id,
                fn_id,
                quote_token,
                base_token_name,
                swap_only,
            } => {
                match self.books.read().get_token_by_name(base_token_name.as_str()) {
                    Some(base_token) => {
                        let mut ledger = self.books.take();
                        ledger.make_virtual_pair(
                            contract_slave_id,
                            fn_id,
                            quote_token,
                            base_token,
                            swap_only,
                        );
                        proof {
                            ledger.lemma_ids_suffice();
                            lemma_handled_grown(old(self)@, groups_view(old(groups)@), sent);
                        }
                        self.books.put(ledger);
                    },
                    None => {
                        let mut again: Vec<Msg> = Vec::new();
                        again.push(
                            Msg::CreateVirtualPair {
                                contract_slave_id,
                                fn_id,
                                quote_token,
                                base_token_name,
                                swap_only,
                            },
                        );
                        assert(self@.msgs + msgs_view(again@) =~= self@.msgs.push(sent));
                        self.enqueue(again);
                    },
                }
            },
            Msg::CallContract { src_id, contract_id, fn_id, volume } => {
                self.call_master(src_id, contract_id, fn_id, volume)?;
            },
            Msg::Issue { token, account_id, volume } => {
                let mut ledger = self.books.take();
                let _refused = ledger.issue(account_id, token, volume)?.is_err();
                proof {
                    ledger.lemma_ids_suffice();
                    lemma_handled_grown(old(self)@, groups_view(old(groups)@), sent);
                }
                self.books.put(ledger);
            },
            Msg::SetPairFee { pair_id, fee_fn } => {
                let mut ledger = self.books.take();
                ledger.set_fee(pair_id, fee_fn);
                proof {
                    ledger.lemma_ids_suffice();
                    lemma_handled_grown(old(self)@, groups_view(old(groups)@), sent);
                }
                self.books.put(ledger);
            },
            _ => {},
        }
        Some(())
    }

    /// Handles the messages that are neither transfers nor requests to close an order. `None`
    /// where a number overflows or trading comes to no end.
    fn do_others(&mut self, msgs: Vec<Msg>, groups: &mut Vec<Group>) -> (r: Option<()>)
        requires
            old(groups)@.len() == 0,
        ensures
            ({
                let out = old(self)@.others_done(msgs_view(msgs@), msgs@.len());
                &&& r is Some == out is Some
                &&& r is Some ==> (final(self)@, groups_view(final(groups)@)) == out->0
            }),
    {
        let ghost all = msgs_view(msgs@);
        assert(groups_view(groups@) =~= Seq::empty());
        for msg in sent: msgs
            invariant
                all == msgs_view(sent.seq()),
                old(self)@.others_done(all, sent.index() as nat) == Some(
                    (self@, groups_view(groups@)),
                ),
        {
            assert(all[sent.index()] == msg@);
            let done = self.handle(msg, groups);
            if done.is_none() {
                proof {
                    lemma_others_none(old(self)@, all, (sent.index() + 1) as nat);
                }
                return None;
            }
        }
        Some(())
    }

    /// Trades a group of market orders. `None` where a number overflows or trading comes to no
    /// end.
    fn do_group(&mut self, group: &Group) -> (r: Option<()>)
        ensures
            ({
                let out = old(self)@.group_done(group@);
                &&& r is Some == out is Some
                &&& r is Some ==> final(self)@ == out->0
            }),
    {
        if group.pair_id >= self.books.read().len() || !self.books.read().node(
            group.pair_id,
        ).is_pair() {
            return Some(());
        }
        let mut ledger = self.books.take();
        let closes = ledger.do_swaps(group.pair_id, group.direction, &group.swaps)?;
        proof {
            ledger.lemma_ids_suffice();
            lemma_group_grown(old(self)@, group@);
        }
        self.books.put(ledger);
        let mut msgs: Vec<Msg> = Vec::new();
        let mut i: usize = 0;
        let ghost all = closes@.map_values(|id: usize| MsgV::CloseOrder { order_id: id });
        while i < closes.len()
            invariant
                i <= closes@.len(),
                all == closes@.map_values(|id: usize| MsgV::CloseOrder { order_id: id }),
                msgs_view(msgs@) =~= all.take(i as int),
            decreases closes@.len() - i,
        {
            let ghost before = msgs_view(msgs@);
            msgs.push(Msg::CloseOrder { order_id: closes[i] });
            assert(msgs_view(msgs@) =~= before.push(MsgV::CloseOrder { order_id: closes@[i as int] }));
            i = i + 1;
            assert(all.take(i as int) =~= all.take(i - 1).push(all[i - 1]));
        }
        assert(msgs_view(msgs@) =~= all);
        self.enqueue(msgs);
        Some(())
    }

    /// Trades the groups of market orders. `None` where a number overflows or trading comes to no
    /// end.
    fn do_groups(&mut self, groups: &Vec<Group>) -> (r: Option<()>)
        ensures
            ({
                let out = old(self)@.groups_done(groups_view(groups@), groups@.len());
                &&& r is Some == out is Some
                &&& r is Some ==> final(self)@ == out->0
            }),
    {
        let mut i: usize = 0;
        let ghost all = groups_view(groups@);
        while i < groups.len()
            invariant
                i <= groups@.len(),
                all == groups_view(groups@),
                old(self)@.groups_done(all, i as nat) == Some(self@),
            decreases groups@.len() - i,
        {
            assert(all[i as int] == groups@[i as int]@);
            let done = self.do_group(&groups[i]);
            if done.is_none() {
                proof {
                    lemma_groups_none(old(self)@, all, (i + 1) as nat);
                }
                return None;
            }
            i = i + 1;
        }
        Some(())
    }

    /// One round of messages. Returns those that the nodes sent meanwhile, or `None` where a
    /// number overflows or trading comes to no end.
    fn do_round(&mut self, msgs: Vec<Msg>) -> (r: Option<Vec<Msg>>)
        ensures
            ({
                let out = old(self)@.round_done(msgs_view(msgs@));
                &&& r is Some == out is Some
                &&& r is Some ==> (final(self)@, msgs_view((r->0)@)) == out->0
            }),
    {
        self.do_transfers(&msgs)?;
        self.do_closes(&msgs)?;
        let mut groups: Vec<Group> = Vec::new();
        self.do_others(msgs, &mut groups)?;
        self.do_groups(&groups)?;
        Some(self.collect_msgs())
    }

    /// Has the nodes see the frame and takes their messages.
    fn collect_msgs(&mut self) -> (r: Vec<Msg>)
        ensures
            final(self)@ == old(self)@.with_ledger(old(self)@.ledger.collected()),
            msgs_view(r@) == sent(old(self)@.ledger.nodes, old(self)@.ledger.nodes.len()),
    {
        let mut ledger = self.books.take();
        let msgs = ledger.collect_msgs();
        proof {
            ledger.lemma_ids_suffice();
            lemma_collected_grown(old(self)@.ledger);
        }
        self.books.put(ledger);
        msgs
    }

    /// Advances the engine by one frame. `None` where a number overflows or trading comes to no
    /// end; the engine is not to be used then, for its ledger may be gone.
    pub fn update(&mut self) -> (r: Option<()>)
        ensures
            r is Some == old(self)@.stepped() is Some,
            r is Some ==> final(self)@ == old(self)@.stepped()->0,
    {
        let mut all: Vec<Msg> = Vec::new();
        std::mem::swap(&mut all, &mut self.msgs);
        let ghost r0 = old(self)@;
        assert(self@ =~= (RpteV { msgs: Seq::empty(), ..r0 }));
        let ghost inbox = msgs_view(all@);
        let mut out = self.step_master_contracts()?;
        let ghost out0 = msgs_view(out@);
        all.append(&mut out);
        assert(msgs_view(all@) =~= inbox + out0);
        self.sync_master_to_slave();
        self.take_prices();
        let mut more = self.collect_msgs();
        let ghost more0 = msgs_view(more@);
        all.append(&mut more);
        assert(msgs_view(all@) =~= inbox + out0 + more0);
        assert(r0.frame_begun() == Some((self@, msgs_view(all@))));
        let ghost r1 = self@;
        let ghost all1 = msgs_view(all@);
        let mut rounds: u32 = FRAME_ROUNDS;
        while all.len() > 0 && rounds > 0
            invariant
                r1.rounds_done(all1, FRAME_ROUNDS as nat) == self@.rounds_done(
                    msgs_view(all@),
                    rounds as nat,
                ),
                r0 == old(self)@,
                r0.frame_begun() == Some((r1, all1)),
            decreases rounds,
        {
            all = self.do_round(all)?;
            rounds = rounds - 1;
        }
        self.sync_slave_to_master();
        let ghost l0 = self@.ledger;
        let mut ledger = self.books.take();
        if !ledger.next_step() {
            return None;
        }
        proof {
            assert forall|t: usize| #[trigger] l0.token(t) is Some implies ledger@.token(t)
                is Some by {}
            lemma_tokens_kept(l0, ledger@);
        }
        self.books.put(ledger);
        self.recycle_contracts();
        Some(())
    }

    /// Advances the engine by one frame. `None` where a number overflows or trading comes to no
    /// end; the engine is not to be used then, for its ledger may be gone.
    pub fn step(&mut self) -> (r: Option<()>)
        ensures
            r is Some == old(self)@.stepped() is Some,
            r is Some ==> final(self)@ == old(self)@.stepped()->0,
    {
        self.update()
    }
}

impl Rpte<LendingPreset> {
    /// An engine with nothing but its quote token, for lending contracts.
    pub fn new(global_quote_token_name: &str, precision: u8) -> (r: Rpte<LendingPreset>)
        ensures
            r@ == RpteV::<LendingPreset>::fresh(global_quote_token_name@, precision),
    {
        Rpte::with_programs(global_quote_token_name, precision)
    }
}

impl<L: ContractLogic> Rpte<L> {
    /// An engine with nothing but its quote token, for contracts of any kind.
    pub fn with_programs(global_quote_token_name: &str, precision: u8) -> (r: Rpte<L>)
        ensures
            r@ == RpteV::<L>::fresh(global_quote_token_name@, precision),
    {
        let max: usize = if usize::MAX as u64 >= 10_000_000_000u64 {
            10_000_000_000u64 as usize
        } else {
            usize::MAX
        };
        let mut ledger = Ledger::new(max, precision);
        let id = ledger.register_token(global_quote_token_name);
        ledger.set_global_quote_token(id);
        proof {
            law_first_token::<L>(global_quote_token_name@, precision);
        }
        assert(ledger@ =~= RpteV::<L>::fresh(global_quote_token_name@, precision).ledger);
        let r = Rpte {
            books: Books::new(ledger),
            programs: Vec::new(),
            contract_masters: Vec::new(),
            contract_pool: Vec::new(),
            slave_to_master: HashMap::new(),
            msgs: Vec::new(),
            running: true,
        };
        assert(r@ =~= RpteV::<L>::fresh(global_quote_token_name@, precision));
        r
    }

    /// The number of decimal places that volumes and prices are cut off at.
    pub fn get_precision(&self) -> (r: u8)
        ensures
            r == self@.ledger.precision,
    {
        self.books.read().precision()
    }

    /// Stops the engine.
    pub fn stop(&mut self)
        ensures
            final(self)@ == (RpteV { running: false, ..old(self)@ }),
    {
        self.running = false;
    }

    /// Whether the engine was not stopped.
    pub fn is_running(&self) -> (r: bool)
        ensures
            r == self@.running,
    {
        self.running
    }

    /// What contracts can read. Its tokens have ids and names of their own.
    pub fn reader(&self) -> (r: &Ledger)
        ensures
            r@ == self@.ledger,
            r@.tokens_wf(),
    {
        self.books.read()
    }

    // ---- tokens ----

    /// Registers a token, unless there is one of this name. The token is found by its name and its
    /// name by its id; a new token has the id of a new node, and the tokens of all other names stay
    /// what they were.
    pub fn register_token(&mut self, name: &str) -> (r: usize)
        ensures
            ({
                let (l, id) = old(self)@.ledger.token_registered(name@);
                r == id && final(self)@ == old(self)@.with_ledger(l)
            }),
            old(self)@.ledger.tokens_wf(),
            final(self)@.ledger.tokens_wf(),
            final(self)@.ledger.token(r) is Some,
            final(self)@.ledger.token_by_name(name@) == Some(r),
            final(self)@.ledger.token_name(r) == Some(name@),
            old(self)@.ledger.token_by_name(name@) is None ==> !old(self)@.ledger.has(r),
            old(self)@.ledger.token_by_name(name@) is Some ==> final(self)@ == old(self)@,
            forall|other: Seq<char>|
                other != name@ ==> #[trigger] final(self)@.ledger.token_by_name(other) == old(
                    self,
                )@.ledger.token_by_name(other) && final(self)@.ledger.token_by_name(other) != Some(
                    r,
                ),
    {
        let mut ledger = self.books.take();
        let id = ledger.register_token(name);
        proof {
            ledger.lemma_ids_suffice();
            let l = old(self)@.ledger;
            law_token_registered(l, name@, name@);
            assert forall|other: Seq<char>| other != name@ implies #[trigger] ledger@.token_by_name(
                other,
            ) == l.token_by_name(other) && ledger@.token_by_name(other) != Some(id) by {
                law_token_registered(l, name@, other);
            }
        }
        self.books.put(ledger);
        id
    }

    /// The token that prices are given in where a pair has it.
    pub fn get_global_quote_token(&self) -> (r: usize)
        ensures
            r == self@.ledger.quote,
    {
        self.books.read().global_quote_token()
    }

    /// The token of a name. Its name is the one that it was found by.
    pub fn get_token_by_name(&self, name: &str) -> (r: Option<usize>)
        ensures
            r == self@.ledger.token_by_name(name@),
            r is Some ==> self@.ledger.token_name(r->0) == Some(name@),
    {
        let ledger = self.books.read();
        let found = ledger.get_token_by_name(name);
        proof {
            if found is Some {
                law_names_and_ids(ledger@, name@, found->0);
            }
        }
        found
    }

    /// The name of a token. The token is the one that is found by it.
    pub fn get_token_name(&self, id: usize) -> (r: Option<&str>)
        ensures
            r is Some == self@.ledger.token_name(id) is Some,
            r is Some ==> (r->0)@ == self@.ledger.token_name(id)->0,
            r is Some ==> self@.ledger.token_by_name((r->0)@) == Some(id),
    {
        let ledger = self.books.read();
        let found = ledger.get_token_name(id);
        proof {
            if found is Some {
                law_names_and_ids(ledger@, (found->0)@, id);
            }
        }
        found
    }

    /// How much of a registered token was issued.
    pub fn get_token_total_supply(&self, token: usize) -> (r: Result<Decimal, Error>)
        ensures
            r == self@.ledger.supply(token),
    {
        self.books.read().get_token_total_supply(token)
    }

    /// Sets whether balances of a token may fall below zero.
    pub fn set_token_can_be_negative(&mut self, token: usize, can: bool) -> (r: Result<(), Error>)
        ensures
            match old(self)@.ledger.negative_set(token, can) {
                Ok(l) => r == Ok::<(), Error>(()) && final(self)@ == old(self)@.with_ledger(l),
                Err(e) => r == Err::<(), Error>(e) && final(self)@ == old(self)@,
            },
    {
        let mut ledger = self.books.take();
        let r = ledger.set_token_can_be_negative(token, can);
        proof {
            ledger.lemma_ids_suffice();
            lemma_tokens_kept(old(self)@.ledger, ledger@);
        }
        self.books.put(ledger);
        r
    }

    /// Whether balances of a token may fall below zero.
    pub fn get_token_can_be_negative(&self, token: usize) -> (r: bool)
        ensures
            r == self@.ledger.can_be_negative(token),
    {
        self.books.read().token_can_be_negative(token)
    }

    /// Whether a pair of the two tokens may be made.
    pub fn is_swap_allowed(&self, a: usize, b: usize) -> (r: bool)
        ensures
            r == self@.ledger.swap_allowed(a, b),
    {
        self.books.read().is_swap_allowed(a, b)
    }

    /// All tokens, in the order in which they were registered.
    pub fn get_all_tokens(&self) -> (r: Vec<usize>)
        ensures
            r@ == self@.ledger.tokens.map_values(|t: (usize, Seq<char>)| t.0),
    {
        self.books.read().get_all_tokens()
    }

    // ---- nodes ----

    /// Adds a pair.
    pub fn register_pair(&mut self, new_pair: AnyNode) -> (r: usize)
        requires
            new_pair@.is_pair(),
        ensures
            final(self)@ == old(self)@.with_ledger(old(self)@.ledger.pair_registered(new_pair@)),
            r == old(self)@.ledger.next_id(),
    {
        let mut ledger = self.books.take();
        let r = ledger.register_pair(new_pair);
        proof {
            ledger.lemma_ids_suffice();
            lemma_tokens_kept(old(self)@.ledger, ledger@);
        }
        self.books.put(ledger);
        r
    }

    /// Adds a node and gives it its id.
    pub fn register_node(&mut self, new_node: AnyNode) -> (r: usize)
        ensures
            final(self)@ == old(self)@.with_ledger(old(self)@.ledger.with_new_node(new_node@)),
            r == old(self)@.ledger.next_id(),
    {
        let mut ledger = self.books.take();
        let r = ledger.register_node(new_node);
        proof {
            ledger.lemma_ids_suffice();
            lemma_tokens_kept(old(self)@.ledger, ledger@);
        }
        self.books.put(ledger);
        r
    }

    /// Registers an account.
    pub fn register_account(&mut self) -> (r: usize)
        ensures
            final(self)@ == old(self)@.with_ledger(old(self)@.ledger.account_registered()),
            r == old(self)@.ledger.next_id(),
    {
        let mut ledger = self.books.take();
        let r = ledger.register_account();
        proof {
            ledger.lemma_ids_suffice();
            lemma_tokens_kept(old(self)@.ledger, ledger@);
        }
        self.books.put(ledger);
        r
    }

    /// All accounts, in the order in which they were registered.
    pub fn get_all_accounts(&self) -> (r: Vec<usize>)
        ensures
            r@ == self@.ledger.accounts,
    {
        self.books.read().get_all_accounts()
    }

    /// All pairs, in the order in which they were registered.
    pub fn get_all_pairs(&self) -> (r: Vec<usize>)
        ensures
            r@ == self@.ledger.pairs,
    {
        self.books.read().get_all_pairs()
    }

    /// All pairs, each with its quote token, its base token and its price.
    pub fn get_all_pairs_info(&self) -> (r: Vec<(usize, usize, usize, Decimal)>)
        ensures
            r@ == self@.ledger.pairs_info(self@.ledger.pairs.len()),
    {
        self.books.read().get_all_pairs_info()
    }

    /// The fewest hops over pairs that lead from one token to another, or nothing where no hops do
    /// or none are needed.
    pub fn route_discover(&self, src_token: usize, dst_token: usize) -> (r: Vec<RouteHop>)
        ensures
            discovered(
                self@.ledger.pairs_info(self@.ledger.pairs.len()),
                src_token,
                dst_token,
                r@,
            ),
    {
        discover(&self.get_all_pairs_info(), src_token, dst_token)
    }

    /// The quote token of a pair.
    pub fn get_pair_quote_token(&self, pair_id: usize) -> (r: Result<usize, Error>)
        ensures
            match self@.ledger.pair(pair_id) {
                Ok(p) => r == Ok::<usize, Error>(p.quote_token),
                Err(e) => r == Err::<usize, Error>(e),
            },
    {
        match self.books.read().get_pair(pair_id) {
            Ok((quote, _, _)) => Ok(quote),
            Err(e) => Err(e),
        }
    }

    /// The base token of a pair.
    pub fn get_pair_base_token(&self, pair_id: usize) -> (r: Result<usize, Error>)
        ensures
            match self@.ledger.pair(pair_id) {
                Ok(p) => r == Ok::<usize, Error>(p.base_token),
                Err(e) => r == Err::<usize, Error>(e),
            },
    {
        match self.books.read().get_pair(pair_id) {
            Ok((_, base, _)) => Ok(base),
            Err(e) => Err(e),
        }
    }

    /// Sets or drops the fee of a pair.
    pub fn set_pair_fee(&mut self, pair_id: usize, fee_fn: Option<FeeFn>) -> (r: Result<(), Error>)
        ensures
            match old(self)@.ledger.pair(pair_id) {
                Ok(_) => r == Ok::<(), Error>(()),
                Err(e) => r == Err::<(), Error>(e),
            },
            final(self)@ == old(self)@.with_ledger(old(self)@.ledger.fee_set(pair_id, fee_fn)),
    {
        match self.books.read().get_pair(pair_id) {
            Ok(_) => {
                let mut ledger = self.books.take();
                ledger.set_fee(pair_id, fee_fn);
                proof {
                    ledger.lemma_ids_suffice();
                    lemma_fee_grown(old(self)@.ledger, pair_id, fee_fn);
                }
                self.books.put(ledger);
                Ok(())
            },
            Err(e) => Err(e),
        }
    }

    /// All open orders.
    pub fn get_all_orders(&self) -> (r: Vec<usize>)
        ensures
            r@ == self@.ledger.open_orders(self@.ledger.nodes.len()),
    {
        self.books.read().get_all_orders()
    }

    // ---- balances ----

    /// The balance of a registered token that a node holds.
    pub fn get_node_balance(&self, id: usize, token: usize) -> (r: Result<Decimal, Error>)
        ensures
            r == self@.ledger.node_balance(id, token),
    {
        self.books.read().get_node_balance(id, token)
    }

    /// What a registered account holds of each token, in its own balance and in its open orders,
    /// without the tokens that it holds nothing of.
    pub fn get_account_equity(&self, account_id: usize) -> (r: Result<
        HashMap<usize, Decimal>,
        Error,
    >)
        ensures
            match self@.ledger.account_error(account_id) {
                Some(e) => r is Err && r->Err_0 == e,
                None => match self@.ledger.equities(account_id, self@.ledger.tokens.len()) {
                    Some(m) => r is Ok && (r->Ok_0)@ == m,
                    None => r is Err && r->Err_0 == Error::Overflow,
                },
            },
    {
        self.books.read().get_account_equity(account_id)
    }

    /// What a registered account holds of a registered token, in its own balance and in its open
    /// orders.
    pub fn get_account_equity_token(&self, account_id: usize, token: usize) -> (r: Result<
        Decimal,
        Error,
    >)
        ensures
            r == self@.ledger.account_equity(account_id, token),
    {
        self.books.read().get_account_equity_token(account_id, token)
    }

    /// A value cut off at the engine's precision.
    pub fn round(&self, value: Decimal) -> (r: Decimal)
        ensures
            r == self@.rounded(value),
    {
        self.books.read().round(value)
    }

    /// An amount of one token in another one, by a pair of them or else over the quote token, or
    /// zero. `None` where a number overflows.
    pub fn convert_value(&self, src_token: usize, dst_token: usize, amount: Decimal) -> (r: Option<
        Decimal,
    >)
        ensures
            r == self@.ledger.exchanged(src_token, dst_token, amount),
    {
        self.books.read().exchange(src_token, dst_token, amount)
    }

    /// What an account holds, in its own balance and in its open orders, in another token (the
    /// quote token where none is given).
    pub fn account_equity_value(&self, account_id: usize, dst_token: Option<usize>) -> (r: Result<
        Decimal,
        Error,
    >)
        ensures
            r == self@.ledger.worth(
                account_id,
                self@.target(dst_token),
                Part::Net,
                self@.ledger.tokens.len(),
            ),
    {
        self.books.read().get_account_worth(account_id, self.target_of(dst_token), Part::Net)
    }

    /// What an account owns: the sum of the tokens of which it has a positive amount, in another
    /// token (the quote token where none is given).
    pub fn get_account_assets(&self, account_id: usize, dst_token: Option<usize>) -> (r: Result<
        Decimal,
        Error,
    >)
        ensures
            r == self@.ledger.worth(
                account_id,
                self@.target(dst_token),
                Part::Assets,
                self@.ledger.tokens.len(),
            ),
    {
        self.books.read().get_account_worth(account_id, self.target_of(dst_token), Part::Assets)
    }

    /// What an account owes: the sum of the tokens of which it has a negative amount, in another
    /// token (the quote token where none is given).
    pub fn get_account_liabilities(&self, account_id: usize, dst_token: Option<usize>) -> (r: Result<
        Decimal,
        Error,
    >)
        ensures
            r == self@.ledger.worth(
                account_id,
                self@.target(dst_token),
                Part::Liabilities,
                self@.ledger.tokens.len(),
            ),
    {
        self.books.read().get_account_worth(account_id, self.target_of(dst_token), Part::Liabilities)
    }

    /// The token that a worth is given in.
    fn target_of(&self, dst_token: Option<usize>) -> (r: usize)
        ensures
            r == self@.target(dst_token),
    {
        match dst_token {
            Some(t) => t,
            None => self.books.read().global_quote_token(),
        }
    }

    /// Issues a token to a node and counts it among what was issued.
    pub fn issue<A: Amount>(&mut self, node_id: usize, token: usize, volume: A) -> (r: Result<
        (),
        Error,
    >)
        ensures
            match old(self)@.ledger.issued(node_id, token, volume.amount()) {
                Some(Ok(l)) => r == Ok::<(), Error>(()) && final(self)@ == old(self)@.with_ledger(
                    l,
                ),
                Some(Err(e)) => r == Err::<(), Error>(e) && final(self)@ == old(self)@,
                None => r == Err::<(), Error>(Error::Overflow) && final(self)@ == old(self)@,
            },
    {
        let amount = volume.into_decimal();
        let mut ledger = self.books.take();
        let done = ledger.issue(node_id, token, amount);
        proof {
            ledger.lemma_ids_suffice();
            if let Some(Ok(_)) = old(self)@.ledger.issued(node_id, token, amount) {
                lemma_issued_grown(old(self)@.ledger, node_id, token, amount);
            }
        }
        self.books.put(ledger);
        match done {
            Some(r) => r,
            None => Err(Error::Overflow),
        }
    }

    // ---- the market ----

    /// The pair of two tokens, made where there is none, and whether the first one is its quote
    /// token.
    fn find_or_make_pair(&mut self, src_token: usize, dst_token: usize) -> (r: Result<
        (usize, bool),
        Error,
    >)
        ensures
            match old(self)@.ledger.pair_for(src_token, dst_token) {
                Ok((l, id, forward)) => {
                    &&& r == Ok::<(usize, bool), Error>((id, forward))
                    &&& final(self)@ == old(self)@.with_ledger(l)
                    &&& l.has(id)
                    &&& l.node(id).is_pair()
                },
                Err(e) => r == Err::<(usize, bool), Error>(e) && final(self)@ == old(self)@,
            },
    {
        let mut ledger = self.books.take();
        let made = ledger.get_or_create_pair(src_token, dst_token);
        proof {
            lemma_tokens_kept(old(self)@.ledger, ledger@);
        }
        self.books.put(ledger);
        made
    }

    /// The price of the pair of two tokens, made where there is none, with its quote and its base
    /// token: one base token costs this much of the quote token.
    pub fn get_current_price(&mut self, src_token: usize, dst_token: usize) -> (r: Result<
        (Decimal, usize, usize),
        Error,
    >)
        ensures
            match old(self)@.ledger.pair_for(src_token, dst_token) {
                Ok((l, id, _)) => {
                    let p = l.node(id).pair();
                    &&& final(self)@ == old(self)@.with_ledger(l)
                    &&& r == Ok::<(Decimal, usize, usize), Error>(
                        (p.price, p.quote_token, p.base_token),
                    )
                },
                Err(e) => final(self)@ == old(self)@ && r == Err::<
                    (Decimal, usize, usize),
                    Error,
                >(e),
            },
    {
        match self.find_or_make_pair(src_token, dst_token) {
            Ok((id, _)) => match self.books.read().get_pair(id) {
                Ok((quote, base, price)) => Ok((price, quote, base)),
                Err(e) => Err(e),
            },
            Err(e) => Err(e),
        }
    }

    /// A price level of the pair of two tokens, made where there is none: of the buy orders where
    /// the first token is the quote token, of the sell orders otherwise.
    pub fn get_order_book(&mut self, src_token: usize, dst_token: usize, depth: usize) -> (r: Result<
        OrderBookDepth,
        Error,
    >)
        ensures
            match old(self)@.ledger.pair_for(src_token, dst_token) {
                Ok((l, id, forward)) => {
                    let d = if forward {
                        Drt::Buy
                    } else {
                        Drt::Sell
                    };
                    &&& final(self)@ == old(self)@.with_ledger(l)
                    &&& match level_at(l.node(id).pair().book.queue(d), depth) {
                        Some(level) => r == Ok::<OrderBookDepth, Error>(level),
                        None => r == Err::<OrderBookDepth, Error>(Error::Overflow),
                    }
                },
                Err(e) => final(self)@ == old(self)@ && r == Err::<OrderBookDepth, Error>(e),
            },
    {
        match self.find_or_make_pair(src_token, dst_token) {
            Ok((id, forward)) => {
                let direction = if forward {
                    Drt::Buy
                } else {
                    Drt::Sell
                };
                match self.books.read().node(id).get_order_book(direction, depth) {
                    Some(level) => Ok(level),
                    None => Err(Error::Overflow),
                }
            },
            Err(e) => Err(e),
        }
    }

    /// The trades of the pair of two tokens, made where there is none.
    pub fn get_tra_logs(&mut self, src_token: usize, dst_token: usize) -> (r: Result<
        VecDeque<TraLog>,
        Error,
    >)
        ensures
            match old(self)@.ledger.pair_for(src_token, dst_token) {
                Ok((l, id, _)) => {
                    &&& final(self)@ == old(self)@.with_ledger(l)
                    &&& r is Ok
                    &&& (r->Ok_0)@ == l.node(id).pair().logs
                },
                Err(e) => final(self)@ == old(self)@ && r is Err && r->Err_0 == e,
            },
    {
        match self.find_or_make_pair(src_token, dst_token) {
            Ok((id, _)) => Ok(self.books.read().node(id).get_tra_logs()),
            Err(e) => Err(e),
        }
    }

    /// The candles of the pair of two tokens, made where there is none.
    pub fn get_candle_data(&mut self, src_token: usize, dst_token: usize, interval: u64) -> (r: Result<
        VecDeque<CandleData>,
        Error,
    >)
        ensures
            match old(self)@.ledger.pair_for(src_token, dst_token) {
                Ok((l, id, _)) => {
                    &&& final(self)@ == old(self)@.with_ledger(l)
                    &&& match candle_data(l.node(id).pair().logs, interval) {
                        Some(candles) => r is Ok && (r->Ok_0)@ == candles,
                        None => r is Err && r->Err_0 == Error::Overflow,
                    }
                },
                Err(e) => final(self)@ == old(self)@ && r is Err && r->Err_0 == e,
            },
    {
        match self.find_or_make_pair(src_token, dst_token) {
            Ok((id, _)) => match self.books.read().node(id).get_candle_data(interval) {
                Some(candles) => Ok(candles),
                None => Err(Error::Overflow),
            },
            Err(e) => Err(e),
        }
    }

    /// The candle of the interval that the last trade of the pair of two tokens lies in. The pair
    /// is made where there is none.
    pub fn latest_candle(&mut self, src_token: usize, dst_token: usize, interval: u64) -> (r: Result<
        Option<CandleData>,
        Error,
    >)
        ensures
            match old(self)@.ledger.pair_for(src_token, dst_token) {
                Ok((l, id, _)) => {
                    &&& final(self)@ == old(self)@.with_ledger(l)
                    &&& match last_candle(l.node(id).pair().logs, interval) {
                        Some(candle) => r == Ok::<Option<CandleData>, Error>(candle),
                        None => r == Err::<Option<CandleData>, Error>(Error::Overflow),
                    }
                },
                Err(e) => final(self)@ == old(self)@ && r == Err::<Option<CandleData>, Error>(e),
            },
    {
        match self.find_or_make_pair(src_token, dst_token) {
            Ok((id, _)) => match self.books.read().node(id).latest_candle(interval) {
                Some(candle) => Ok(candle),
                None => Err(Error::Overflow),
            },
            Err(e) => Err(e),
        }
    }

    // ---- orders ----

    /// Takes an order out of those that were closed, or makes a new one.
    pub fn new_order(&mut self) -> (r: usize)
        ensures
            ({
                let (l, id) = old(self)@.ledger.order_taken();
                r == id && final(self)@ == old(self)@.with_ledger(l)
            }),
    {
        let mut ledger = self.books.take();
        let r = ledger.new_order();
        proof {
            ledger.lemma_ids_suffice();
            lemma_tokens_kept(old(self)@.ledger, ledger@);
        }
        self.books.put(ledger);
        r
    }

    /// Puts an order among those that may be opened again.
    pub fn return_order(&mut self, order_id: usize)
        ensures
            final(self)@ == old(self)@.with_ledger(
                LedgerV {
                    order_pool: old(self)@.ledger.order_pool.push(order_id),
                    ..old(self)@.ledger
                },
            ),
    {
        let mut ledger = self.books.take();
        ledger.return_order(order_id);
        proof {
            lemma_tokens_kept(old(self)@.ledger, ledger@);
        }
        self.books.put(ledger);
    }

    /// The orders of an account.
    pub fn get_account_orders(&self, account_id: usize) -> (r: Result<&HashSet<usize>, Error>)
        ensures
            match self@.ledger.account(account_id) {
                Ok(orders) => r is Ok && (r->Ok_0)@ == orders,
                Err(e) => r is Err && r->Err_0 == e,
            },
    {
        self.books.read().get_account_orders(account_id)
    }

    /// The orders of an account, by rising id.
    pub fn list_account_orders(&self, account_id: usize) -> (r: Result<Vec<usize>, Error>)
        ensures
            match self@.ledger.account(account_id) {
                Ok(orders) => r is Ok && (r->Ok_0)@ == LedgerV::orders_among(
                    orders,
                    self@.ledger.nodes.len(),
                ),
                Err(e) => r is Err && r->Err_0 == e,
            },
    {
        self.books.read().list_account_orders(account_id)
    }

    /// What an order book is to know of an order.
    pub fn get_order_brief(&self, order_id: usize) -> (r: Result<OrderBrief, Error>)
        ensures
            r == self@.ledger.order_brief(order_id),
    {
        self.books.read().get_order_brief(order_id)
    }

    // ---- requests for the next frame ----

    /// Sends a message.
    pub fn send_msg(&mut self, msg: Msg)
        ensures
            final(self)@ == old(self)@.with_msg(msg@),
    {
        self.msgs.push(msg);
        assert(msgs_view(self.msgs@) =~= msgs_view(old(self).msgs@).push(msg@));
    }

    /// Deploys a contract.
    pub fn deploy(&mut self, owner_node_id: usize, name: &str, program: L)
        ensures
            final(self)@ == (RpteV {
                programs: old(self)@.programs.push(program),
                ..old(self)@.with_msg(
                    MsgV::CreateContract {
                        owner_node_id,
                        name: name@,
                        program: old(self)@.programs.len() as usize,
                    },
                )
            }),
    {
        let index: usize = self.programs.len();
        self.programs.push(program);
        self.send_msg(
            Msg::CreateContract { owner_node_id, name: name.to_owned(), program: index },
        );
    }

    /// Opens a limit order.
    pub fn make<A: Amount, B: Amount>(
        &mut self,
        src_id: usize,
        src_token: usize,
        dst_token: usize,
        volume: A,
        price: B,
    )
        ensures
            final(self)@ == old(self)@.with_msg(
                MsgV::OpenOrder {
                    src_id,
                    owner_node_id: src_id,
                    src_token,
                    dst_token,
                    volume: old(self)@.rounded(volume.amount()),
                    price: old(self)@.rounded(price.amount()),
                },
            ),
    {
        let volume = self.round(volume.into_decimal());
        let price = self.round(price.into_decimal());
        self.send_msg(
            Msg::OpenOrder { src_id, owner_node_id: src_id, src_token, dst_token, volume, price },
        );
    }

    /// Trades at the market's price.
    pub fn swap<A: Amount>(&mut self, src_id: usize, src_token: usize, dst_token: usize, volume: A)
        ensures
            final(self)@ == old(self)@.with_msg(
                MsgV::SwapOrder {
                    src_id,
                    owner_node_id: src_id,
                    src_token,
                    dst_token,
                    volume: old(self)@.rounded(volume.amount()),
                },
            ),
    {
        let volume = self.round(volume.into_decimal());
        self.send_msg(
            Msg::SwapOrder { src_id, owner_node_id: src_id, src_token, dst_token, volume },
        );
    }

    /// Calls a contract.
    pub fn call_contract<A: Amount>(
        &mut self,
        src_id: usize,
        contract_id: usize,
        fn_id: u8,
        volume: A,
    )
        ensures
            final(self)@ == old(self)@.with_msg(
                MsgV::CallContract {
                    src_id,
                    contract_id,
                    fn_id,
                    volume: old(self)@.rounded(volume.amount()),
                },
            ),
    {
        let volume = self.round(volume.into_decimal());
        self.send_msg(Msg::CallContract { src_id, contract_id, fn_id, volume });
    }

    /// Transfers a token, unless the paying node does not have enough.
    pub fn transfer<A: Amount>(&mut self, src_id: usize, dst_id: usize, token: usize, volume: A)
        ensures
            final(self)@ == old(self)@.with_msg(
                MsgV::Transfer {
                    src_id,
                    dst_id,
                    token,
                    volume: old(self)@.rounded(volume.amount()),
                    allow_negative: false,
                },
            ),
    {
        let volume = self.round(volume.into_decimal());
        self.send_msg(Msg::Transfer { src_id, dst_id, token, volume, allow_negative: false });
    }

    /// Transfers a token, even where the paying node does not have enough.
    pub fn transfer_with_overdraft<A: Amount>(
        &mut self,
        src_id: usize,
        dst_id: usize,
        token: usize,
        volume: A,
    )
        ensures
            final(self)@ == old(self)@.with_msg(
                MsgV::Transfer {
                    src_id,
                    dst_id,
                    token,
                    volume: old(self)@.rounded(volume.amount()),
                    allow_negative: true,
                },
            ),
    {
        let volume = self.round(volume.into_decimal());
        self.send_msg(Msg::Transfer { src_id, dst_id, token, volume, allow_negative: true });
    }

    /// Closes an order.
    pub fn cancel_order(&mut self, order_id: usize)
        ensures
            final(self)@ == old(self)@.with_msg(MsgV::CloseOrder { order_id }),
    {
        self.send_msg(Msg::CloseOrder { order_id });
    }
}

/// Where a transfer overflows, those that follow do.
proof fn lemma_transfers_none(l: LedgerV, msgs: Seq<MsgV>, k: nat)
    requires
        k <= msgs.len(),
        l.transfers_done(msgs, k) is None,
    ensures
        l.transfers_done(msgs, msgs.len()) is None,
    decreases msgs.len() - k,
{
    if k < msgs.len() {
        lemma_transfers_none(l, msgs, k + 1);
    }
}

/// Where closing an order overflows, closing those that follow does.
proof fn lemma_closes_none(l: LedgerV, msgs: Seq<MsgV>, k: nat)
    requires
        k <= msgs.len(),
        l.closes_done(msgs, k) is None,
    ensures
        l.closes_done(msgs, msgs.len()) is None,
    decreases msgs.len() - k,
{
    if k < msgs.len() {
        lemma_closes_none(l, msgs, k + 1);
    }
}

/// Where a message overflows, those that follow do.
proof fn lemma_others_none<L: ContractLogic>(r: RpteV<L>, msgs: Seq<MsgV>, k: nat)
    requires
        k <= msgs.len(),
        r.others_done(msgs, k) is None,
    ensures
        r.others_done(msgs, msgs.len()) is None,
    decreases msgs.len() - k,
{
    if k < msgs.len() {
        lemma_others_none(r, msgs, k + 1);
    }
}

/// Where a group overflows, those that follow do.
proof fn lemma_groups_none<L: ContractLogic>(r: RpteV<L>, groups: Seq<SwapGroup>, k: nat)
    requires
        k <= groups.len(),
        r.groups_done(groups, k) is None,
    ensures
        r.groups_done(groups, groups.len()) is None,
    decreases groups.len() - k,
{
    if k < groups.len() {
        lemma_groups_none(r, groups, k + 1);
    }
}

/// Where a program overflows, running those that follow does.
proof fn lemma_contracts_none<L: ContractLogic>(r: RpteV<L>, k: nat)
    requires
        k <= r.masters.len(),
        r.contracts_stepped(k) is None,
    ensures
        r.contracts_stepped(r.masters.len()) is None,
    decreases r.masters.len() - k,
{
    if k < r.masters.len() {
        lemma_contracts_none(r, k + 1);
    }
}

} // verus!
