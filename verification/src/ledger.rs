//! The ledger: all nodes, what is registered of them, and what requests do to them.

use crate::account::{Account, AccountNode};
use crate::any_node::AnyNode;
use crate::contract::Contract;
use crate::decimal::Decimal;
use crate::error::Error;
use crate::fee::FeeFn;
use crate::ledger_model::{find_id, find_name, not_after, part_added, LedgerV, Part};
use crate::node::{msgs_view, CoreV, Drt, KindV, Msg, Node, NodeV, OrderBookDepth, SwapTransfer};
use crate::order::{Order, OrderBrief, OrderNode, OrderType};
use crate::pair::Pair;
use crate::reader::EngineReader;
use crate::rpte_model::sent;
use crate::token::{Token, TokenNode};
use crate::trade_log::{CandleData, TraLog};
use crate::virtual_pair::VirtualPair;
use std::collections::{HashMap, HashSet, VecDeque};
use vstd::prelude::*;

verus! {

broadcast use {
    vstd::std_specs::hash::group_hash_axioms,
    Account::lemma_kind,
    Contract::lemma_kind,
    Order::lemma_kind,
    Pair::lemma_kind,
    Token::lemma_kind,
    VirtualPair::lemma_kind,
};

/// The nodes and what is registered of them.
pub struct Ledger {
    nodes: Vec<AnyNode>,
    tokens: Vec<(usize, String)>,
    global_quote_token: usize,
    order_pool: Vec<usize>,
    registered_orders: HashSet<usize>,
    registered_accounts: Vec<usize>,
    registered_pairs: Vec<usize>,
    token_virtual_anchors: HashMap<usize, usize>,
    step_count: u64,
    max_tra_log_length: usize,
    precision: u8,
}

/// What nodes are.
pub open spec fn nodes_view(nodes: Seq<AnyNode>) -> Seq<NodeV> {
    nodes.map_values(|n: AnyNode| n@)
}

/// Tokens and their names.
pub open spec fn tokens_view(tokens: Seq<(usize, String)>) -> Seq<(usize, Seq<char>)> {
    tokens.map_values(|t: (usize, String)| (t.0, t.1@))
}

impl View for Ledger {
    type V = LedgerV;

    closed spec fn view(&self) -> LedgerV {
        LedgerV {
            nodes: nodes_view(self.nodes@),
            tokens: tokens_view(self.tokens@),
            quote: self.global_quote_token,
            order_pool: self.order_pool@,
            orders: self.registered_orders@,
            accounts: self.registered_accounts@,
            pairs: self.registered_pairs@,
            anchors: self.token_virtual_anchors@,
            step_count: self.step_count,
            max_tra_log_length: self.max_tra_log_length,
            precision: self.precision,
        }
    }
}

impl Ledger {
    /// There are never more nodes than ids.
    pub proof fn lemma_ids_suffice(&self)
        ensures
            self@.nodes.len() <= usize::MAX,
    {
        assert(self.nodes.len() == self.nodes@.len());
    }
}

impl LedgerV {
    /// A ledger without nodes.
    pub open spec fn empty(max_tra_log_length: usize, precision: u8) -> LedgerV {
        LedgerV {
            nodes: Seq::empty(),
            tokens: Seq::empty(),
            quote: 0,
            order_pool: Seq::empty(),
            orders: Set::empty(),
            accounts: Seq::empty(),
            pairs: Seq::empty(),
            anchors: Map::empty(),
            step_count: 0,
            max_tra_log_length,
            precision,
        }
    }
}

/// The bytes of the first text are not after those of the second one.
fn bytes_not_after(a: &[u8], b: &[u8]) -> (r: bool)
    ensures
        r == not_after(a@, b@, 0),
{
    let mut i: usize = 0;
    while i < a.len()
        invariant
            i <= a@.len(),
            not_after(a@, b@, 0) == not_after(a@, b@, i as nat),
        decreases a@.len() - i,
    {
        if i >= b.len() {
            return false;
        }
        if a[i] != b[i] {
            return a[i] < b[i];
        }
        i = i + 1;
    }
    true
}

impl Ledger {
    /// A ledger without nodes.
    pub fn new(max_tra_log_length: usize, precision: u8) -> (r: Ledger)
        ensures
            r@ == LedgerV::empty(max_tra_log_length, precision),
    {
        let r = Ledger {
            nodes: Vec::new(),
            tokens: Vec::new(),
            global_quote_token: 0,
            order_pool: Vec::new(),
            registered_orders: HashSet::new(),
            registered_accounts: Vec::new(),
            registered_pairs: Vec::new(),
            token_virtual_anchors: HashMap::new(),
            step_count: 0,
            max_tra_log_length,
            precision,
        };
        assert(r@ =~= LedgerV::empty(max_tra_log_length, precision));
        r
    }

    // ---- nodes ----

    /// The number of nodes.
    pub fn len(&self) -> (r: usize)
        ensures
            r == self@.nodes.len(),
    {
        self.nodes.len()
    }

    /// A node.
    pub fn node(&self, id: usize) -> (r: &AnyNode)
        requires
            self@.has(id),
        ensures
            r@ == self@.node(id),
    {
        &self.nodes[id]
    }

    /// A node, to be changed.
    pub fn node_mut(&mut self, id: usize) -> (r: &mut AnyNode)
        requires
            old(self)@.has(id),
        ensures
            r@ == old(self)@.node(id),
            final(self)@ == old(self)@.with_node(id, final(r)@),
    {
        let r = &mut self.nodes[id];
        assert(nodes_view(old(self).nodes@.update(id as int, *final(r))) =~= nodes_view(
            old(self).nodes@,
        ).update(id as int, final(r)@));
        r
    }

    /// Adds a node and gives it its id.
    pub fn register_node(&mut self, new_node: AnyNode) -> (r: usize)
        ensures
            final(self)@ == old(self)@.with_new_node(new_node@),
            r == old(self)@.next_id(),
            r == old(self)@.nodes.len(),
    {
        let mut n = new_node;
        let id: usize = self.nodes.len();
        n.set_id(id);
        self.nodes.push(n);
        assert(nodes_view(self.nodes@) =~= nodes_view(old(self).nodes@).push(n@));
        id
    }

    /// The number of the frame.
    pub fn get_step_count(&self) -> (r: u64)
        ensures
            r == self@.step_count,
    {
        self.step_count
    }

    /// Moves on to the next frame. Returns whether there is one.
    pub fn next_step(&mut self) -> (r: bool)
        ensures
            r == (old(self)@.step_count < u64::MAX),
            r ==> final(self)@ == (LedgerV {
                step_count: (old(self)@.step_count + 1) as u64,
                ..old(self)@
            }),
            !r ==> final(self)@ == old(self)@,
    {
        if self.step_count == u64::MAX {
            return false;
        }
        self.step_count = self.step_count + 1;
        true
    }

    /// Makes a virtual pair.
    pub fn make_virtual_pair(
        &mut self,
        contract_slave_id: usize,
        fn_id: u8,
        quote_token: usize,
        base_token: usize,
        swap_only: bool,
    ) -> (r: usize)
        ensures
            final(self)@ == old(self)@.virtual_pair_made(
                contract_slave_id,
                fn_id,
                quote_token,
                base_token,
                swap_only,
            ),
            r == old(self)@.next_id(),
    {
        let pair = VirtualPair::new(
            contract_slave_id,
            fn_id,
            quote_token,
            base_token,
            self.max_tra_log_length,
            self.precision,
            swap_only,
        );
        self.register_pair(AnyNode::Virtual(pair))
    }

    /// Sets or drops the fee of a pair, if the node is one.
    pub fn set_fee(&mut self, pair_id: usize, fee_fn: Option<FeeFn>)
        ensures
            final(self)@ == old(self)@.fee_set(pair_id, fee_fn),
    {
        if pair_id < self.nodes.len() && self.node(pair_id).is_pair() {
            self.node_mut(pair_id).set_fee_fn(fee_fn);
        }
    }

    /// Collects the messages of all nodes.
    pub fn collect_msgs(&mut self) -> (r: Vec<Msg>)
        ensures
            msgs_view(r@) == sent(old(self)@.nodes, old(self)@.nodes.len()),
            final(self)@ == old(self)@.collected(),
    {
        let mut out: Vec<Msg> = Vec::new();
        let step: u64 = self.step_count;
        let n: usize = self.nodes.len();
        let mut i: usize = 0;
        let ghost l0 = self@;
        assert(msgs_view(out@) =~= Seq::empty());
        while i < n
            invariant
                i <= n,
                n == l0.nodes.len(),
                l0 == old(self)@,
                step == l0.step_count,
                self@ == (LedgerV { nodes: self@.nodes, ..l0 }),
                self@.nodes.len() == n,
                forall|j: int|
                    0 <= j < i ==> #[trigger] self@.nodes[j] == l0.nodes[j].updated(step).emptied(),
                forall|j: int| i <= j < n ==> #[trigger] self@.nodes[j] == l0.nodes[j],
                msgs_view(out@) == sent(l0.nodes, i as nat),
            decreases n - i,
        {
            let ghost out0 = msgs_view(out@);
            let mut more = self.node_mut(i).upload_msgs(step);
            out.append(&mut more);
            assert(msgs_view(out@) =~= out0 + l0.nodes[i as int].core.msgs);
            i = i + 1;
        }
        assert(self@.nodes =~= l0.collected().nodes);
        out
    }

    // ---- tokens ----

    /// The token of a name.
    pub fn get_token_by_name(&self, name: &str) -> (r: Option<usize>)
        ensures
            r == self@.token_by_name(name@),
    {
        let key: String = name.to_owned();
        let mut i: usize = 0;
        while i < self.tokens.len()
            invariant
                i <= self.tokens@.len(),
                key@ == name@,
                self@.token_by_name(name@) == find_name(self@.tokens, name@, i as nat),
            decreases self.tokens@.len() - i,
        {
            assert(self@.tokens[i as int] == (self.tokens@[i as int].0, self.tokens@[i as int].1@));
            if self.tokens[i].1 == key {
                return Some(self.tokens[i].0);
            }
            i = i + 1;
        }
        None
    }

    /// The name of a token.
    pub fn get_token_name(&self, id: usize) -> (r: Option<&str>)
        ensures
            r is Some == self@.token_name(id) is Some,
            r is Some ==> (r->0)@ == self@.token_name(id)->0,
    {
        let mut i: usize = 0;
        while i < self.tokens.len()
            invariant
                i <= self.tokens@.len(),
                self@.token_name(id) == find_id(self@.tokens, id, i as nat),
            decreases self.tokens@.len() - i,
        {
            assert(self@.tokens[i as int] == (self.tokens@[i as int].0, self.tokens@[i as int].1@));
            if self.tokens[i].0 == id {
                return Some(self.tokens[i].1.as_str());
            }
            i = i + 1;
        }
        None
    }

    /// Whether a token is registered.
    pub fn is_token(&self, id: usize) -> (r: bool)
        ensures
            r == self@.is_token(id),
    {
        self.get_token_name(id).is_some()
    }

    /// Registers a token, unless there is one of this name.
    pub fn register_token(&mut self, name: &str) -> (r: usize)
        ensures
            (final(self)@, r) == old(self)@.token_registered(name@),
    {
        match self.get_token_by_name(name) {
            Some(id) => id,
            None => {
                let id = self.register_node(AnyNode::Token(Token::new(name)));
                self.tokens.push((id, name.to_owned()));
                assert(tokens_view(self.tokens@) =~= old(self)@.tokens.push((id, name@)));
                id
            },
        }
    }

    /// Whether balances of a token may fall below zero.
    pub fn token_can_be_negative(&self, id: usize) -> (r: bool)
        ensures
            r == self@.can_be_negative(id),
    {
        if id >= self.nodes.len() {
            return false;
        }
        match self.node(id).as_token_node_ref() {
            Some(t) => t.can_be_negative(),
            None => false,
        }
    }

    /// How much of a token was issued.
    pub fn token_total_supply(&self, id: usize) -> (r: Decimal)
        ensures
            r == self@.total_supply(id),
    {
        if id >= self.nodes.len() {
            return Decimal::zero();
        }
        match self.node(id).as_token_node_ref() {
            Some(t) => t.total_supply(),
            None => Decimal::zero(),
        }
    }

    /// Whether a token accepts another one.
    fn accepts(&self, id: usize, other: usize) -> (r: bool)
        ensures
            r == (self@.token(id) matches Some(t) ==> t.accepts(other)),
    {
        if id >= self.nodes.len() {
            return true;
        }
        match self.node(id).as_token_node_ref() {
            Some(t) => t.can_swap_with(other),
            None => true,
        }
    }

    /// Whether a pair of the two tokens may be made.
    pub fn is_swap_allowed(&self, a: usize, b: usize) -> (r: bool)
        ensures
            r == self@.swap_allowed(a, b),
    {
        a != b && self.accepts(a, b) && self.accepts(b, a)
    }

    // ---- pairs ----

    /// The quote token, the base token and the price of the pair at a position of the list.
    fn pair_info_at(&self, i: usize) -> (r: Option<(usize, usize, Decimal)>)
        requires
            i < self@.pairs.len(),
        ensures
            r is Some == self@.pair_at(i as int),
            r is Some ==> r->0 == (
                self@.node(self@.pairs[i as int]).pair().quote_token,
                self@.node(self@.pairs[i as int]).pair().base_token,
                self@.node(self@.pairs[i as int]).pair().price,
            ),
    {
        let id = self.registered_pairs[i];
        if id >= self.nodes.len() {
            return None;
        }
        self.node(id).pair_info()
    }

    /// The first pair that trades two tokens, and whether the first of them is its quote token.
    fn find_pair(&self, src: usize, dst: usize) -> (r: Option<(usize, bool)>)
        ensures
            r == self@.find_pair(src, dst, 0),
            r is Some ==> self@.has((r->0).0) && self@.node((r->0).0).is_pair(),
    {
        let mut i: usize = 0;
        while i < self.registered_pairs.len()
            invariant
                i <= self@.pairs.len(),
                self.registered_pairs@ == self@.pairs,
                self@.find_pair(src, dst, 0) == self@.find_pair(src, dst, i as nat),
            decreases self@.pairs.len() - i,
        {
            if let Some((quote, base, _price)) = self.pair_info_at(i) {
                if quote == src && base == dst {
                    return Some((self.registered_pairs[i], true));
                }
                if quote == dst && base == src {
                    return Some((self.registered_pairs[i], false));
                }
            }
            i = i + 1;
        }
        None
    }

    /// The first pair with this quote token and this base token.
    fn find_oriented(&self, quote_token: usize, base_token: usize) -> (r: Option<usize>)
        ensures
            r == self@.find_oriented(quote_token, base_token, 0),
            r is Some ==> self@.has(r->0) && self@.node(r->0).is_pair(),
    {
        let mut i: usize = 0;
        while i < self.registered_pairs.len()
            invariant
                i <= self@.pairs.len(),
                self.registered_pairs@ == self@.pairs,
                self@.find_oriented(quote_token, base_token, 0) == self@.find_oriented(
                    quote_token,
                    base_token,
                    i as nat,
                ),
            decreases self@.pairs.len() - i,
        {
            if let Some((quote, base, _price)) = self.pair_info_at(i) {
                if quote == quote_token && base == base_token {
                    return Some(self.registered_pairs[i]);
                }
            }
            i = i + 1;
        }
        None
    }

    /// Whether the name of the first token is not after that of the second one.
    fn name_not_after(&self, a: usize, b: usize) -> (r: bool)
        ensures
            r == not_after(self@.name_bytes(a), self@.name_bytes(b), 0),
    {
        proof {
            reveal_strlit("");
            assert(""@ =~= Seq::<char>::empty());
        }
        let x: &str = match self.get_token_name(a) {
            Some(n) => n,
            None => "",
        };
        let y: &str = match self.get_token_name(b) {
            Some(n) => n,
            None => "",
        };
        bytes_not_after(x.as_bytes(), y.as_bytes())
    }

    /// Adds a pair.
    pub fn register_pair(&mut self, new_pair: AnyNode) -> (r: usize)
        ensures
            final(self)@ == old(self)@.pair_registered(new_pair@),
            r == old(self)@.next_id(),
            r == old(self)@.nodes.len(),
    {
        let id = self.register_node(new_pair);
        self.registered_pairs.push(id);
        id
    }

    /// The pair of two tokens, made where there is none, and whether the first token is its quote
    /// token.
    pub fn get_or_create_pair(&mut self, src_token: usize, dst_token: usize) -> (r: Result<
        (usize, bool),
        Error,
    >)
        ensures
            match old(self)@.pair_for(src_token, dst_token) {
                Ok((l, id, forward)) => {
                    &&& r == Ok::<(usize, bool), Error>((id, forward))
                    &&& final(self)@ == l
                    &&& l.has(id)
                    &&& l.node(id).is_pair()
                },
                Err(e) => r == Err::<(usize, bool), Error>(e) && final(self)@ == old(self)@,
            },
    {
        if let Some(found) = self.find_pair(src_token, dst_token) {
            return Ok(found);
        }
        if !self.is_swap_allowed(src_token, dst_token) {
            return Err(Error::SwapNotAllowed { src: src_token, dst: dst_token });
        }
        let src_quotes = if src_token == self.global_quote_token {
            true
        } else if dst_token == self.global_quote_token {
            false
        } else {
            self.name_not_after(src_token, dst_token)
        };
        let (quote, base) = if src_quotes {
            (src_token, dst_token)
        } else {
            (dst_token, src_token)
        };
        let pair = Pair::new(
            quote,
            base,
            Decimal::one(),
            self.max_tra_log_length,
            self.precision,
        );
        let id = self.register_pair(AnyNode::Pair(pair));
        Ok((id, src_quotes))
    }

    // ---- balances ----

    /// A value cut off at the engine's precision.
    pub fn round(&self, value: Decimal) -> (r: Decimal)
        ensures
            r == value.truncated(self@.precision as nat),
    {
        value.truncate(self.precision)
    }

    /// The balance of a token that a node holds, zero where there is no such node.
    pub fn node_balance(&self, node_id: usize, token: usize) -> (r: Decimal)
        ensures
            r == self@.balance(node_id, token),
    {
        if node_id < self.nodes.len() {
            self.node(node_id).balance(token)
        } else {
            Decimal::zero()
        }
    }

    /// The balance of a registered token that a node holds.
    pub fn get_node_balance(&self, id: usize, token: usize) -> (r: Result<Decimal, Error>)
        ensures
            r == self@.node_balance(id, token),
    {
        if id >= self.nodes.len() {
            return Err(Error::NodeNotFound { id, len: self.nodes.len() });
        }
        if !self.is_token(token) {
            return Err(Error::TokenNotRegistered(token));
        }
        Ok(self.node(id).balance(token))
    }

    /// Moves an amount from one node to another. `None` where a number overflows; a refused
    /// transfer changes nothing.
    pub fn transfer(
        &mut self,
        src_id: usize,
        dst_id: usize,
        token: usize,
        amount: Decimal,
        allow_negative: bool,
    ) -> (r: Option<Result<(), Error>>)
        ensures
            match old(self)@.transferred(src_id, dst_id, token, amount, allow_negative) {
                Some(Ok(l)) => r == Some(Ok::<(), Error>(())) && final(self)@ == l,
                Some(Err(e)) => r == Some(Err::<(), Error>(e)) && final(self)@ == old(self)@,
                None => r is None && final(self)@ == old(self)@,
            },
            r == Some(Ok::<(), Error>(())) && old(self)@.transfer_fits(
                src_id,
                dst_id,
                token,
                amount,
            ) ==> old(self)@.transfer_exact(src_id, dst_id, token, amount),
    {
        let volume = self.round(amount);
        if !self.is_token(token) {
            return Some(Err(Error::TokenNotRegistered(token)));
        }
        if src_id == dst_id {
            return Some(Ok(()));
        }
        let len: usize = self.nodes.len();
        if src_id >= len || dst_id >= len {
            let id: usize = if src_id < dst_id {
                dst_id
            } else {
                src_id
            };
            return Some(Err(Error::IndexOutOfBounds { id, len }));
        }
        let free = self.token_can_be_negative(token) || allow_negative;
        let has = self.node(src_id).balance(token);
        let current = self.node(dst_id).balance(token);
        if !free && has < volume {
            return Some(
                Err(Error::InsufficientBalance { node_id: src_id, token, has, need: volume }),
            );
        }
        let sum = current.checked_add(volume)?;
        proof {
            Decimal::lemma_zero();
        }
        if !free && sum < Decimal::zero() {
            return Some(
                Err(Error::NegativeDestination { node_id: dst_id, token, current, volume }),
            );
        }
        let rest = has.checked_sub(volume)?;
        self.node_mut(src_id).set_balance(token, rest);
        self.node_mut(dst_id).set_balance(token, sum);
        Some(Ok(()))
    }

    /// Moves everything that one node holds to another. `None` where a number overflows.
    pub fn transfer_all(&mut self, src_id: usize, dst_id: usize) -> (r: Option<Result<(), Error>>)
        ensures
            match old(self)@.all_transferred(src_id, dst_id) {
                Some(Ok(l)) => r == Some(Ok::<(), Error>(())) && final(self)@ == l,
                Some(Err(e)) => r == Some(Err::<(), Error>(e)) && final(self)@ == old(self)@,
                None => r is None,
            },
    {
        if src_id == dst_id {
            return Some(Ok(()));
        }
        let len: usize = self.nodes.len();
        if src_id >= len || dst_id >= len {
            let id: usize = if src_id < dst_id {
                dst_id
            } else {
                src_id
            };
            return Some(Err(Error::IndexOutOfBounds { id, len }));
        }
        let balances = self.node_mut(src_id).drain_balances();
        self.node_mut(dst_id).base_mut().absorb(&balances)?;
        Some(Ok(()))
    }

    /// Issues a token to a node. `None` where a number overflows.
    pub fn issue(&mut self, node_id: usize, token: usize, amount: Decimal) -> (r: Option<
        Result<(), Error>,
    >)
        ensures
            match old(self)@.issued(node_id, token, amount) {
                Some(Ok(l)) => r == Some(Ok::<(), Error>(())) && final(self)@ == l,
                Some(Err(e)) => r == Some(Err::<(), Error>(e)) && final(self)@ == old(self)@,
                None => r is None && final(self)@ == old(self)@,
            },
    {
        if node_id >= self.nodes.len() {
            return Some(Err(Error::NodeNotFound { id: node_id, len: self.nodes.len() }));
        }
        if !self.is_token(token) {
            return Some(Err(Error::TokenNotRegistered(token)));
        }
        let volume = self.round(amount);
        let sum = self.node(node_id).balance(token).checked_add(volume)?;
        if token < self.nodes.len() {
            if let Some(t) = self.node_mut(token).as_token_node() {
                t.adjust_total_supply(volume)?;
            }
        }
        self.node_mut(node_id).set_balance(token, sum);
        Some(Ok(()))
    }

    // ---- orders ----

    /// What an order book is to know of an order.
    pub fn get_order_brief(&self, order_id: usize) -> (r: Result<OrderBrief, Error>)
        ensures
            r == self@.order_brief(order_id),
            r is Ok ==> {
                let o = self@.order(order_id)->Ok_0;
                &&& self@.has(o.pair_node_id)
                &&& self@.node(o.pair_node_id).is_pair()
            },
    {
        if !self.registered_orders.contains(&order_id) {
            return Err(Error::OrderNotRegistered(order_id));
        }
        let len: usize = self.nodes.len();
        if order_id >= len {
            return Err(Error::NodeNotFound { id: order_id, len });
        }
        let order = match self.node(order_id).as_order_node_ref() {
            Some(o) => o,
            None => return Err(Error::NotAnOrderNode(order_id)),
        };
        let pair_id = order.get_pair_node_id();
        let src_token = order.get_src_token();
        let dst_token = order.get_dst_token();
        if pair_id >= len {
            return Err(Error::PairNotFound(pair_id));
        }
        let (quote, base, _price) = match self.node(pair_id).pair_info() {
            Some(info) => info,
            None => return Err(Error::NotAPairNode(pair_id)),
        };
        let direction = if quote == src_token && base == dst_token {
            Drt::Buy
        } else {
            Drt::Sell
        };
        Ok(
            OrderBrief {
                id: order_id,
                direction,
                src_token,
                dst_token,
                src_volume: order.balance(src_token),
                dst_volume: order.balance(dst_token),
                price: *order.get_price(),
                step_count_created: order.get_step_count_created(),
            },
        )
    }

    /// Adds an order to those of an account, if the node is one.
    fn insert_account_order(&mut self, account_id: usize, order_id: usize)
        ensures
            final(self)@ == old(self)@.with_account_order(account_id, order_id),
    {
        if account_id < self.nodes.len() {
            if let Some(a) = self.node_mut(account_id).as_account_node() {
                a.insert_order(order_id);
            }
            assert(self@.nodes =~= old(self)@.with_account_order(account_id, order_id).nodes);
        }
    }

    /// Takes an order from those of an account, if the node is one.
    fn remove_account_order(&mut self, account_id: usize, order_id: usize)
        ensures
            final(self)@ == old(self)@.without_account_order(account_id, order_id),
    {
        if account_id < self.nodes.len() {
            if let Some(a) = self.node_mut(account_id).as_account_node() {
                a.remove_order(order_id);
            }
            assert(self@.nodes =~= old(self)@.without_account_order(account_id, order_id).nodes);
        }
    }

    /// Has the pair and the owner of an open order take note of what it holds.
    pub fn note_order(&mut self, order_id: usize)
        ensures
            final(self)@ == old(self)@.order_noted(order_id),
    {
        if !self.registered_orders.contains(&order_id) || order_id >= self.nodes.len() {
            return;
        }
        let (owner_id, pair_id, open_limit) = match self.node(order_id).as_order_node_ref() {
            Some(o) => (
                o.get_owner_node_id(),
                o.get_pair_node_id(),
                o.is_open() && *o.get_order_type() != OrderType::Swap,
            ),
            None => return,
        };
        if open_limit {
            match self.get_order_brief(order_id) {
                Ok(brief) => {
                    self.node_mut(pair_id).update_brief(brief);
                },
                Err(_) => return,
            }
        }
        self.insert_account_order(owner_id, order_id);
    }

    /// Tries a transfer and has both ends noted. `None` where a number overflows.
    pub fn transfer_and_note(
        &mut self,
        src_id: usize,
        dst_id: usize,
        token: usize,
        volume: Decimal,
        allow_negative: bool,
    ) -> (r: Option<()>)
        ensures
            ({
                let l = old(self)@.transfer_noted(src_id, dst_id, token, volume, allow_negative);
                &&& r is Some == l is Some
                &&& r is Some ==> final(self)@ == l->0
            }),
    {
        let _refused = self.transfer(src_id, dst_id, token, volume, allow_negative)?.is_err();
        self.note_order(src_id);
        self.note_order(dst_id);
        Some(())
    }

    /// Tries a transfer of everything and has both ends noted. `None` where a number overflows.
    pub fn transfer_all_and_note(&mut self, src_id: usize, dst_id: usize) -> (r: Option<()>)
        ensures
            ({
                let l = old(self)@.transfer_all_noted(src_id, dst_id);
                &&& r is Some == l is Some
                &&& r is Some ==> final(self)@ == l->0
            }),
    {
        let _refused = self.transfer_all(src_id, dst_id)?.is_err();
        self.note_order(src_id);
        self.note_order(dst_id);
        Some(())
    }

    /// Closes an order. `None` where a number overflows.
    pub fn close_order(&mut self, order_id: usize) -> (r: Option<()>)
        ensures
            ({
                let l = old(self)@.order_closed(order_id);
                &&& r is Some == l is Some
                &&& r is Some ==> final(self)@ == l->0
            }),
    {
        if !self.registered_orders.remove(&order_id) {
            assert(self@.orders =~= old(self)@.orders);
            return Some(());
        }
        if order_id >= self.nodes.len() {
            return Some(());
        }
        let (owner_id, pair_id) = match self.node_mut(order_id).as_order_node() {
            Some(o) => {
                let ends = (o.get_owner_node_id(), o.get_pair_node_id());
                o.close();
                ends
            },
            None => {
                assert(self@.nodes =~= old(self)@.nodes);
                return Some(());
            },
        };
        if self.transfer_all(order_id, owner_id)?.is_err() {
            return Some(());
        }
        if pair_id < self.nodes.len() && self.node(pair_id).is_pair() {
            self.node_mut(pair_id).cancel_brief(order_id);
        }
        self.remove_account_order(owner_id, order_id);
        self.order_pool.push(order_id);
        Some(())
    }

    /// Takes an order out of those that were closed, or makes a new one.
    pub fn new_order(&mut self) -> (r: usize)
        ensures
            (final(self)@, r) == old(self)@.order_taken(),
    {
        match self.order_pool.pop() {
            Some(id) => {
                self.registered_orders.insert(id);
                id
            },
            None => {
                let id = self.register_node(AnyNode::Order(Order::default()));
                self.registered_orders.insert(id);
                assert(self@.order_pool =~= old(self)@.order_pool);
                id
            },
        }
    }

    /// Whether a node may not put up this much.
    fn lacks(&self, id: usize, token: usize, volume: Decimal) -> (r: bool)
        ensures
            r == self@.lacks(id, token, volume),
    {
        if self.token_can_be_negative(token) {
            return false;
        }
        let has = match self.get_node_balance(id, token) {
            Ok(b) => b,
            Err(_) => Decimal::zero(),
        };
        volume > has
    }

    /// Puts an order on its pair and has its owner note it. `None` where a number overflows or
    /// trading comes to no end.
    fn place_order(&mut self, order_id: usize, pair_id: usize, owner_id: usize) -> (r: Option<()>)
        requires
            old(self)@.order(order_id) is Ok,
            (old(self)@.order(order_id)->Ok_0).pair_node_id == pair_id,
        ensures
            ({
                let l = old(self)@.order_placed(order_id, pair_id, owner_id);
                &&& r is Some == l is Some
                &&& r is Some ==> final(self)@ == l->0
            }),
    {
        if let Ok(brief) = self.get_order_brief(order_id) {
            let precision: u8 = self.precision;
            self.node_mut(pair_id).insert_brief(brief, precision)?;
            self.insert_account_order(owner_id, order_id);
        }
        Some(())
    }

    /// Opens a limit order and trades it as far as it meets others. `None` where a number
    /// overflows or trading comes to no end.
    pub fn open_order(
        &mut self,
        src_id: usize,
        owner_id: usize,
        src_token: usize,
        dst_token: usize,
        volume: Decimal,
        price: Decimal,
    ) -> (r: Option<()>)
        ensures
            ({
                let l = old(self)@.order_opened(
                    src_id,
                    owner_id,
                    src_token,
                    dst_token,
                    volume,
                    price,
                );
                &&& r is Some == l is Some
                &&& r is Some ==> final(self)@ == l->0
            }),
    {
        if volume.is_zero() || price.is_zero() || self.lacks(src_id, src_token, volume) {
            return Some(());
        }
        let pair_id = match self.get_or_create_pair(src_token, dst_token) {
            Ok((id, _)) => id,
            Err(_) => return Some(()),
        };
        let id = self.new_order();
        let step_count: u64 = self.step_count;
        if id >= self.nodes.len() {
            return Some(());
        }
        let ghost l1 = self@;
        let opened = match self.node_mut(id).as_order_node() {
            Some(o) => o.open(
                owner_id,
                pair_id,
                src_token,
                dst_token,
                price,
                step_count,
                OrderType::Make,
            ),
            None => false,
        };
        if !opened {
            assert(self@.nodes =~= l1.nodes);
            return Some(());
        }
        let _refused = self.transfer(src_id, id, src_token, volume, false)?.is_err();
        self.place_order(id, pair_id, owner_id)
    }

    /// What a market order asks for: the pair, the side and the volume.
    pub fn ask_swap(
        &mut self,
        owner_id: usize,
        src_token: usize,
        dst_token: usize,
        volume: Decimal,
    ) -> (r: Option<(usize, Drt, Decimal)>)
        ensures
            (final(self)@, r) == old(self)@.swap_asked(owner_id, src_token, dst_token, volume),
            r is Some ==> final(self)@.has((r->0).0) && final(self)@.node((r->0).0).is_pair(),
    {
        let pair_id = match self.get_or_create_pair(src_token, dst_token) {
            Ok((id, _)) => id,
            Err(_) => return None,
        };
        let has = match self.get_node_balance(owner_id, src_token) {
            Ok(b) => b,
            Err(_) => return None,
        };
        let v = if self.token_can_be_negative(src_token) {
            volume
        } else {
            volume.min(has)
        };
        if v.is_zero() {
            return None;
        }
        let (quote, base, _price) = match self.node(pair_id).pair_info() {
            Some(info) => info,
            None => return None,
        };
        let direction = if quote == src_token && base == dst_token {
            Drt::Buy
        } else {
            Drt::Sell
        };
        Some((pair_id, direction, v))
    }

    /// Makes the transfers out of trades. `None` where a number overflows.
    fn settle_swaps(&mut self, transfers: &Vec<SwapTransfer>) -> (r: Option<()>)
        ensures
            ({
                let l = old(self)@.swaps_settled(transfers@, transfers@.len());
                &&& r is Some == l is Some
                &&& r is Some ==> final(self)@ == l->0
            }),
    {
        let mut i: usize = 0;
        while i < transfers.len()
            invariant
                i <= transfers@.len(),
                old(self)@.swaps_settled(transfers@, i as nat) == Some(self@),
            decreases transfers@.len() - i,
        {
            let t = transfers[i];
            let done = self.transfer_and_note(t.src_id, t.dst_id, t.token, t.volume, false);
            if done.is_none() {
                proof {
                    lemma_settled_none(old(self)@, transfers@, (i + 1) as nat);
                }
                return None;
            }
            i = i + 1;
        }
        Some(())
    }

    /// Trades market orders of one pair and side. Returns the orders to close, or `None` where a
    /// number overflows or trading comes to no end.
    pub fn do_swaps(&mut self, pair_id: usize, direction: Drt, swaps: &Vec<(usize, Decimal)>) -> (r: Option<Vec<usize>>)
        requires
            old(self)@.has(pair_id),
            old(self)@.node(pair_id).is_pair(),
        ensures
            ({
                let out = old(self)@.swaps_done(pair_id, direction, swaps@);
                &&& r is Some == out is Some
                &&& r is Some ==> (final(self)@, (r->0)@) == out->0
            }),
    {
        let precision: u8 = self.precision;
        let (transfers, closes) = if swaps.len() == 1 {
            let (owner_id, volume) = swaps[0];
            self.node_mut(pair_id).process_swap(owner_id, direction, volume, precision)?
        } else {
            self.node_mut(pair_id).process_swaps_batch(direction, swaps, precision)?
        };
        self.settle_swaps(&transfers)?;
        Some(closes)
    }

    /// Registers a token with the given settings.
    pub fn set_up_token(
        &mut self,
        name: &str,
        can_be_negative: bool,
        not_tradable: bool,
        virtual_anchor: Option<usize>,
        swap_whitelist: &Vec<usize>,
    )
        ensures
            final(self)@ == old(self)@.token_set_up(
                name@,
                can_be_negative,
                not_tradable,
                virtual_anchor,
                swap_whitelist@,
            ),
    {
        let id = self.register_token(name);
        let ghost l0 = self@;
        if id < self.nodes.len() {
            let whitelist = set_of(swap_whitelist);
            if let Some(t) = self.node_mut(id).as_token_node() {
                if can_be_negative {
                    t.set_can_be_negative(true);
                }
                if not_tradable {
                    t.set_not_tradable(true);
                }
                if swap_whitelist.len() > 0 {
                    t.set_swap_whitelist(whitelist);
                }
            }
        }
        if let Some(anchor) = virtual_anchor {
            self.token_virtual_anchors.insert(id, anchor);
        }
        assert(self@ =~= old(self)@.token_set_up(
            name@,
            can_be_negative,
            not_tradable,
            virtual_anchor,
            swap_whitelist@,
        ));
    }
}

impl Ledger {
    /// Whether an account is registered.
    pub fn is_account(&self, id: usize) -> (r: bool)
        ensures
            r == self@.accounts.contains(id),
    {
        let mut i: usize = 0;
        while i < self.registered_accounts.len()
            invariant
                i <= self@.accounts.len(),
                self.registered_accounts@ == self@.accounts,
                forall|j: int| 0 <= j < i ==> self@.accounts[j] != id,
            decreases self@.accounts.len() - i,
        {
            if self.registered_accounts[i] == id {
                assert(self@.accounts[i as int] == id);
                return true;
            }
            i = i + 1;
        }
        false
    }

    /// What an account holds of a token, in its own balance and in its open orders. `None` where
    /// it overflows.
    pub fn equity(&self, account_id: usize, token: usize) -> (r: Option<Decimal>)
        requires
            self@.has(account_id),
        ensures
            r == self@.equity(account_id, token),
    {
        let own = self.node(account_id).balance(token);
        let orders = match self.node(account_id).as_account_node_ref() {
            Some(a) => a.get_orders(),
            None => return Some(own),
        };
        let mut total = own;
        let mut i: usize = 0;
        while i < self.nodes.len()
            invariant
                i <= self@.nodes.len(),
                self@.nodes.len() == self.nodes@.len(),
                self@.equity(account_id, token) == self@.held_with_orders(
                    account_id,
                    orders@,
                    token,
                    self@.nodes.len(),
                ),
                self@.held_with_orders(account_id, orders@, token, i as nat) == Some(total),
            decreases self@.nodes.len() - i,
        {
            if orders.contains(&i) {
                match total.checked_add(self.node(i).balance(token)) {
                    Some(t) => {
                        total = t;
                    },
                    None => {
                        proof {
                            lemma_held_none(
                                self@,
                                account_id,
                                orders@,
                                token,
                                (i + 1) as nat,
                            );
                        }
                        return None;
                    },
                }
            }
            i = i + 1;
        }
        Some(total)
    }

    /// An amount of one token in another one by the price between them: `Some(None)` where there
    /// is no price.
    fn convert_directly(&self, src: usize, dst: usize, amount: Decimal) -> (r: Option<
        Option<Decimal>,
    >)
        ensures
            r == self@.converted_directly(src, dst, amount),
    {
        match self.price_between(src, dst)? {
            Some((price, quote, _base)) => {
                if price.is_zero() {
                    Some(None)
                } else if src == quote {
                    Some(Some(amount.checked_div(price)?))
                } else {
                    Some(Some(amount.checked_mul(price)?))
                }
            },
            None => Some(None),
        }
    }

    /// An amount of one token in another one by the price between them, zero where there is none.
    fn convert_in_one(&self, src: usize, dst: usize, amount: Decimal) -> (r: Option<Decimal>)
        ensures
            r == self@.converted_in_one(src, dst, amount),
    {
        if amount.is_zero() || src == dst {
            return Some(amount);
        }
        match self.convert_directly(src, dst, amount)? {
            Some(v) => Some(v),
            None => Some(Decimal::zero()),
        }
    }
}

impl EngineReader for Ledger {
    open spec fn ledger(&self) -> LedgerV {
        self@
    }

    fn precision(&self) -> (r: u8) {
        self.precision
    }

    fn global_quote_token(&self) -> (r: usize) {
        self.global_quote_token
    }

    fn get_token_name(&self, id: usize) -> (r: Option<&str>) {
        Ledger::get_token_name(self, id)
    }

    fn get_token_by_name(&self, name: &str) -> (r: Option<usize>) {
        Ledger::get_token_by_name(self, name)
    }

    fn get_all_tokens(&self) -> (r: Vec<usize>) {
        let mut out: Vec<usize> = Vec::new();
        let mut i: usize = 0;
        let ghost all = self@.tokens.map_values(|t: (usize, Seq<char>)| t.0);
        while i < self.tokens.len()
            invariant
                i <= self.tokens@.len(),
                all == self@.tokens.map_values(|t: (usize, Seq<char>)| t.0),
                out@ == all.take(i as int),
            decreases self.tokens@.len() - i,
        {
            out.push(self.tokens[i].0);
            i = i + 1;
            assert(out@ =~= all.take(i as int));
        }
        assert(all.take(i as int) =~= all);
        out
    }

    fn get_all_accounts(&self) -> (r: Vec<usize>) {
        copy_ids(&self.registered_accounts)
    }

    fn node_balance(&self, node_id: usize, token: usize) -> (r: Decimal) {
        Ledger::node_balance(self, node_id, token)
    }

    fn get_current_price(&self, quote_token: usize, base_token: usize) -> (r: Option<
        Option<Decimal>,
    >) {
        if let Some(anchor) = self.token_virtual_anchors.get(&quote_token) {
            if *anchor == base_token {
                return Some(Some(Decimal::one()));
            }
        }
        if let Some(anchor) = self.token_virtual_anchors.get(&base_token) {
            if *anchor == quote_token {
                return Some(Some(Decimal::one()));
            }
        }
        if let Some(id) = self.find_oriented(quote_token, base_token) {
            let (_q, _b, price) = self.node(id).pair_info()?;
            return Some(if price.is_zero() {
                None
            } else {
                Some(price)
            });
        }
        if let Some(id) = self.find_oriented(base_token, quote_token) {
            let (_q, _b, price) = self.node(id).pair_info()?;
            if price.is_zero() {
                return Some(None);
            }
            return Some(Some(Decimal::one().checked_div(price)?));
        }
        Some(None)
    }

    fn price_between(&self, src: usize, dst: usize) -> (r: Option<
        Option<(Decimal, usize, usize)>,
    >) {
        if let Some(price) = self.get_current_price(src, dst)? {
            return Some(Some((price, src, dst)));
        }
        if let Some(price) = self.get_current_price(dst, src)? {
            if !price.is_zero() {
                return Some(Some((Decimal::one().checked_div(price)?, dst, src)));
            }
        }
        Some(None)
    }

    fn convert_value(&self, src: usize, dst: usize, amount: Decimal) -> (r: Option<Decimal>) {
        if amount.is_zero() || src == dst {
            return Some(amount);
        }
        if let Some(v) = self.convert_directly(src, dst, amount)? {
            return Some(v);
        }
        let quote = self.global_quote_token;
        if src != quote && dst != quote {
            let mid = self.convert_in_one(src, quote, amount)?;
            if !mid.is_zero() {
                return self.convert_in_one(quote, dst, mid);
            }
        }
        Some(Decimal::zero())
    }

    fn account_equity_token(&self, account_id: usize, token: usize) -> (r: Option<Decimal>) {
        if !self.is_account(account_id) || account_id >= self.nodes.len() {
            return Some(Decimal::zero());
        }
        self.equity(account_id, token)
    }

    fn token_total_supply(&self, token: usize) -> (r: Decimal) {
        Ledger::token_total_supply(self, token)
    }

    fn token_can_be_negative(&self, token: usize) -> (r: bool) {
        Ledger::token_can_be_negative(self, token)
    }

    fn get_order_book(&self, quote_token: usize, base_token: usize, depth: usize) -> (r: Option<
        Vec<OrderBookDepth>,
    >) {
        let mut out: Vec<OrderBookDepth> = Vec::new();
        if let Some(id) = self.find_oriented(quote_token, base_token) {
            let buy = self.node(id).get_order_book(Drt::Buy, depth)?;
            let sell = self.node(id).get_order_book(Drt::Sell, depth)?;
            out.push(buy);
            out.push(sell);
            assert(out@ =~= seq![buy, sell]);
        }
        Some(out)
    }

    fn get_tra_logs(&self, quote_token: usize, base_token: usize) -> (r: VecDeque<TraLog>) {
        match self.find_oriented(quote_token, base_token) {
            Some(id) => self.node(id).get_tra_logs(),
            None => VecDeque::new(),
        }
    }

    fn get_candle_data(&self, quote_token: usize, base_token: usize, interval: u64) -> (r: Option<
        VecDeque<CandleData>,
    >) {
        match self.find_oriented(quote_token, base_token) {
            Some(id) => self.node(id).get_candle_data(interval),
            None => Some(VecDeque::new()),
        }
    }

    fn latest_candle(&self, quote_token: usize, base_token: usize, interval: u64) -> (r: Option<
        Option<CandleData>,
    >) {
        match self.find_oriented(quote_token, base_token) {
            Some(id) => self.node(id).latest_candle(interval),
            None => Some(None),
        }
    }
}

impl Ledger {
    // ---- what the engine answers ----

    /// Sets the token that prices are given in where a pair has it.
    pub fn set_global_quote_token(&mut self, id: usize)
        ensures
            final(self)@ == (LedgerV { quote: id, ..old(self)@ }),
    {
        self.global_quote_token = id;
    }

    /// Registers an account.
    pub fn register_account(&mut self) -> (r: usize)
        ensures
            final(self)@ == old(self)@.account_registered(),
            r == old(self)@.next_id(),
    {
        let id = self.register_node(AnyNode::Account(Account::new()));
        self.registered_accounts.push(id);
        id
    }

    /// All pairs, in the order in which they were registered.
    pub fn get_all_pairs(&self) -> (r: Vec<usize>)
        ensures
            r@ == self@.pairs,
    {
        copy_ids(&self.registered_pairs)
    }

    /// All pairs, each with its quote token, its base token and its price.
    pub fn get_all_pairs_info(&self) -> (r: Vec<(usize, usize, usize, Decimal)>)
        ensures
            r@ == self@.pairs_info(self@.pairs.len()),
    {
        let mut out: Vec<(usize, usize, usize, Decimal)> = Vec::new();
        let mut i: usize = 0;
        while i < self.registered_pairs.len()
            invariant
                i <= self@.pairs.len(),
                self.registered_pairs@ == self@.pairs,
                out@ == self@.pairs_info(i as nat),
            decreases self@.pairs.len() - i,
        {
            if let Some((quote, base, price)) = self.pair_info_at(i) {
                out.push((self.registered_pairs[i], quote, base, price));
            }
            i = i + 1;
        }
        out
    }

    /// All open orders.
    pub fn get_all_orders(&self) -> (r: Vec<usize>)
        ensures
            r@ == self@.open_orders(self@.nodes.len()),
    {
        let mut out: Vec<usize> = Vec::new();
        let mut i: usize = 0;
        while i < self.nodes.len()
            invariant
                i <= self@.nodes.len(),
                self@.nodes.len() == self.nodes@.len(),
                out@ == self@.open_orders(i as nat),
            decreases self@.nodes.len() - i,
        {
            if self.registered_orders.contains(&i) && self.node(i).is_open() {
                out.push(i);
            }
            i = i + 1;
        }
        out
    }

    /// How much of a registered token was issued.
    pub fn get_token_total_supply(&self, token: usize) -> (r: Result<Decimal, Error>)
        ensures
            r == self@.supply(token),
    {
        if !self.is_token(token) {
            return Err(Error::TokenNotRegistered(token));
        }
        if token >= self.nodes.len() {
            return Err(Error::NotATokenNode(token));
        }
        match self.node(token).as_token_node_ref() {
            Some(t) => Ok(t.total_supply()),
            None => Err(Error::NotATokenNode(token)),
        }
    }

    /// Sets whether balances of a token may fall below zero.
    pub fn set_token_can_be_negative(&mut self, token: usize, can: bool) -> (r: Result<(), Error>)
        ensures
            match old(self)@.negative_set(token, can) {
                Ok(l) => r == Ok::<(), Error>(()) && final(self)@ == l,
                Err(e) => r == Err::<(), Error>(e) && final(self)@ == old(self)@,
            },
    {
        if !self.is_token(token) {
            return Err(Error::TokenNotRegistered(token));
        }
        if token >= self.nodes.len() {
            return Err(Error::NotATokenNode(token));
        }
        match self.node_mut(token).as_token_node() {
            Some(t) => {
                t.set_can_be_negative(can);
                Ok(())
            },
            None => {
                assert(self@.nodes =~= old(self)@.nodes);
                Err(Error::NotATokenNode(token))
            },
        }
    }

    /// The orders of an account.
    pub fn get_account_orders(&self, account_id: usize) -> (r: Result<&HashSet<usize>, Error>)
        ensures
            match self@.account(account_id) {
                Ok(orders) => r is Ok && (r->Ok_0)@ == orders,
                Err(e) => r is Err && r->Err_0 == e,
            },
    {
        if account_id >= self.nodes.len() {
            return Err(Error::NodeNotFound { id: account_id, len: self.nodes.len() });
        }
        match self.node(account_id).as_account_node_ref() {
            Some(a) => Ok(a.get_orders()),
            None => Err(Error::NotAnAccountNode(account_id)),
        }
    }

    /// The orders of an account, by rising id.
    pub fn list_account_orders(&self, account_id: usize) -> (r: Result<Vec<usize>, Error>)
        ensures
            match self@.account(account_id) {
                Ok(orders) => r is Ok && (r->Ok_0)@ == LedgerV::orders_among(
                    orders,
                    self@.nodes.len(),
                ),
                Err(e) => r is Err && r->Err_0 == e,
            },
    {
        let orders = match self.get_account_orders(account_id) {
            Ok(orders) => orders,
            Err(e) => return Err(e),
        };
        let mut out: Vec<usize> = Vec::new();
        let mut i: usize = 0;
        assert(out@ =~= Seq::empty());
        while i < self.nodes.len()
            invariant
                i <= self.nodes@.len(),
                out@ == LedgerV::orders_among(orders@, i as nat),
            decreases self.nodes@.len() - i,
        {
            if orders.contains(&i) {
                out.push(i);
            }
            i = i + 1;
        }
        Ok(out)
    }

    /// The quote token, the base token and the price of a pair.
    pub fn get_pair(&self, pair_id: usize) -> (r: Result<(usize, usize, Decimal), Error>)
        ensures
            match self@.pair(pair_id) {
                Ok(p) => r == Ok::<(usize, usize, Decimal), Error>(
                    (p.quote_token, p.base_token, p.price),
                ),
                Err(e) => r == Err::<(usize, usize, Decimal), Error>(e),
            },
    {
        if pair_id >= self.nodes.len() {
            return Err(Error::PairNotFound(pair_id));
        }
        match self.node(pair_id).pair_info() {
            Some(info) => Ok(info),
            None => Err(Error::NotAPairNode(pair_id)),
        }
    }

    /// Puts an order among those that may be opened again.
    pub fn return_order(&mut self, order_id: usize)
        ensures
            final(self)@ == (LedgerV {
                order_pool: old(self)@.order_pool.push(order_id),
                ..old(self)@
            }),
    {
        self.order_pool.push(order_id);
    }

    /// An amount of one token in another one by the first pair that has a price and trades the
    /// two. `Some(None)` where there is none, `None` where a number overflows.
    fn exchange_directly(&self, src: usize, dst: usize, amount: Decimal) -> (r: Option<
        Option<Decimal>,
    >)
        ensures
            r == self@.exchanged_directly(src, dst, amount, 0),
    {
        let mut i: usize = 0;
        while i < self.registered_pairs.len()
            invariant
                i <= self@.pairs.len(),
                self.registered_pairs@ == self@.pairs,
                self@.exchanged_directly(src, dst, amount, 0) == self@.exchanged_directly(
                    src,
                    dst,
                    amount,
                    i as nat,
                ),
            decreases self@.pairs.len() - i,
        {
            if let Some((quote, base, price)) = self.pair_info_at(i) {
                if !price.is_zero() {
                    if quote == src && base == dst {
                        return Some(Some(self.round(amount.checked_div(price)?)));
                    }
                    if quote == dst && base == src {
                        return Some(Some(self.round(amount.checked_mul(price)?)));
                    }
                }
            }
            i = i + 1;
        }
        Some(None)
    }

    /// An amount of one token in another one, zero where there is no price. `None` where a number
    /// overflows.
    pub fn exchange(&self, src: usize, dst: usize, amount: Decimal) -> (r: Option<Decimal>)
        ensures
            r == self@.exchanged(src, dst, amount),
    {
        if amount.is_zero() || src == dst {
            return Some(amount);
        }
        if let Some(v) = self.exchange_directly(src, dst, amount)? {
            return Some(v);
        }
        let quote = self.global_quote_token;
        if src != quote && dst != quote {
            if let Some(mid) = self.exchange_directly(src, quote, amount)? {
                if !mid.is_zero() {
                    if let Some(v) = self.exchange_directly(quote, dst, mid)? {
                        return Some(v);
                    }
                }
            }
        }
        Some(Decimal::zero())
    }

    /// What a registered account holds of a registered token, in its own balance and in its open
    /// orders.
    pub fn get_account_equity_token(&self, account_id: usize, token: usize) -> (r: Result<
        Decimal,
        Error,
    >)
        ensures
            r == self@.account_equity(account_id, token),
    {
        let len: usize = self.nodes.len();
        if !self.is_account(account_id) || account_id >= len {
            return Err(Error::NodeNotFound { id: account_id, len });
        }
        if !self.is_token(token) {
            return Err(Error::TokenNotRegistered(token));
        }
        if self.node(account_id).as_account_node_ref().is_none() {
            return Err(Error::NotAnAccountNode(account_id));
        }
        match self.equity(account_id, token) {
            Some(v) => Ok(v),
            None => Err(Error::Overflow),
        }
    }

    /// What a registered account holds of each token, in its own balance and in its open orders,
    /// without the tokens that it holds nothing of.
    pub fn get_account_equity(&self, account_id: usize) -> (r: Result<
        HashMap<usize, Decimal>,
        Error,
    >)
        ensures
            match self@.account_error(account_id) {
                Some(e) => r is Err && r->Err_0 == e,
                None => match self@.equities(account_id, self@.tokens.len()) {
                    Some(m) => r is Ok && (r->Ok_0)@ == m,
                    None => r is Err && r->Err_0 == Error::Overflow,
                },
            },
    {
        let len: usize = self.nodes.len();
        if !self.is_account(account_id) || account_id >= len {
            return Err(Error::NodeNotFound { id: account_id, len });
        }
        if self.node(account_id).as_account_node_ref().is_none() {
            return Err(Error::NotAnAccountNode(account_id));
        }
        proof {
            Decimal::lemma_zero();
        }
        let mut out: HashMap<usize, Decimal> = HashMap::new();
        let mut i: usize = 0;
        while i < self.tokens.len()
            invariant
                i <= self.tokens@.len(),
                self@.has(account_id),
                self@.account_error(account_id) is None,
                Decimal::of(0, 0).val() == 0,
                self@.equities(account_id, i as nat) == Some(out@),
            decreases self.tokens@.len() - i,
        {
            assert(self@.tokens[i as int].0 == self.tokens@[i as int].0);
            let token = self.tokens[i].0;
            match self.equity(account_id, token) {
                Some(v) => {
                    if v != Decimal::zero() {
                        out.insert(token, v);
                    }
                },
                None => {
                    proof {
                        lemma_equities_none(self@, account_id, (i + 1) as nat);
                    }
                    return Err(Error::Overflow);
                },
            }
            i = i + 1;
        }
        Ok(out)
    }

    /// A part of what a registered account holds, in another token.
    pub fn get_account_worth(&self, account_id: usize, dst: usize, part: Part) -> (r: Result<
        Decimal,
        Error,
    >)
        ensures
            r == self@.worth(account_id, dst, part, self@.tokens.len()),
    {
        proof {
            Decimal::lemma_zero();
        }
        let mut total = Decimal::zero();
        let mut i: usize = 0;
        while i < self.tokens.len()
            invariant
                i <= self.tokens@.len(),
                Decimal::of(0, 0).val() == 0,
                self@.worth(account_id, dst, part, i as nat) == Ok::<Decimal, Error>(total),
            decreases self.tokens@.len() - i,
        {
            assert(self@.tokens[i as int].0 == self.tokens@[i as int].0);
            let token = self.tokens[i].0;
            let next = match self.get_account_equity_token(account_id, token) {
                Ok(held) => if held.is_zero() {
                    Ok(total)
                } else {
                    match self.exchange(token, dst, held) {
                        Some(value) => match add_part(part, total, value) {
                            Some(sum) => Ok(sum),
                            None => Err(Error::Overflow),
                        },
                        None => Err(Error::Overflow),
                    }
                },
                Err(e) => Err(e),
            };
            match next {
                Ok(sum) => {
                    total = sum;
                },
                Err(e) => {
                    proof {
                        lemma_worth_err(self@, account_id, dst, part, (i + 1) as nat);
                    }
                    return Err(e);
                },
            }
            i = i + 1;
        }
        Ok(total)
    }
}

impl LedgerV {
    /// The ledger with one more account.
    pub open spec fn account_registered(self) -> LedgerV {
        LedgerV {
            accounts: self.accounts.push(self.next_id()),
            ..self.with_new_node(
                NodeV { core: CoreV::empty(), kind: KindV::Account(Set::empty()) },
            )
        }
    }
}

/// A sum with one more value, as far as it belongs to the part.
fn add_part(part: Part, total: Decimal, value: Decimal) -> (r: Option<Decimal>)
    ensures
        r == part_added(part, total, value),
{
    proof {
        Decimal::lemma_zero();
    }
    match part {
        Part::Net => total.checked_add(value),
        Part::Assets => if value > Decimal::zero() {
            total.checked_add(value)
        } else {
            Some(total)
        },
        Part::Liabilities => if value < Decimal::zero() {
            total.checked_add(value.abs())
        } else {
            Some(total)
        },
    }
}

/// Where the sum for some tokens overflows, that for more does.
proof fn lemma_equities_none(l: LedgerV, id: usize, k: nat)
    requires
        k <= l.tokens.len(),
        l.equities(id, k) is None,
    ensures
        l.equities(id, l.tokens.len()) is None,
    decreases l.tokens.len() - k,
{
    if k < l.tokens.len() {
        lemma_equities_none(l, id, k + 1);
    }
}

/// Where the worth of some tokens is refused, that of more is, for the same reason.
proof fn lemma_worth_err(l: LedgerV, id: usize, dst: usize, part: Part, k: nat)
    requires
        k <= l.tokens.len(),
        l.worth(id, dst, part, k) is Err,
    ensures
        l.worth(id, dst, part, l.tokens.len()) == l.worth(id, dst, part, k),
    decreases l.tokens.len() - k,
{
    if k < l.tokens.len() {
        lemma_worth_err(l, id, dst, part, k + 1);
    }
}

/// A copy of a list of ids.
pub(crate) fn copy_ids(ids: &Vec<usize>) -> (r: Vec<usize>)
    ensures
        r@ == ids@,
{
    let mut out: Vec<usize> = Vec::new();
    let mut i: usize = 0;
    while i < ids.len()
        invariant
            i <= ids@.len(),
            out@ == ids@.take(i as int),
        decreases ids@.len() - i,
    {
        out.push(ids[i]);
        i = i + 1;
        assert(out@ =~= ids@.take(i as int));
    }
    assert(ids@.take(i as int) =~= ids@);
    out
}

/// Where the sum with some orders overflows, that with more does.
proof fn lemma_held_none(l: LedgerV, id: usize, orders: Set<usize>, token: usize, k: nat)
    requires
        k <= l.nodes.len(),
        l.held_with_orders(id, orders, token, k) is None,
    ensures
        l.held_with_orders(id, orders, token, l.nodes.len()) is None,
    decreases l.nodes.len() - k,
{
    if k < l.nodes.len() {
        lemma_held_none(l, id, orders, token, k + 1);
    }
}

/// Where a transfer overflows, those that follow do.
proof fn lemma_settled_none(l: LedgerV, transfers: Seq<SwapTransfer>, k: nat)
    requires
        k <= transfers.len(),
        l.swaps_settled(transfers, k) is None,
    ensures
        l.swaps_settled(transfers, transfers.len()) is None,
    decreases transfers.len() - k,
{
    if k < transfers.len() {
        lemma_settled_none(l, transfers, k + 1);
    }
}

/// The set of the given ids.
fn set_of(ids: &Vec<usize>) -> (r: HashSet<usize>)
    ensures
        r@ == ids@.to_set(),
{
    let mut out: HashSet<usize> = HashSet::new();
    let mut i: usize = 0;
    assert(ids@.take(0).to_set() =~= Set::empty());
    while i < ids.len()
        invariant
            i <= ids@.len(),
            out@ == ids@.take(i as int).to_set(),
        decreases ids@.len() - i,
    {
        out.insert(ids[i]);
        i = i + 1;
        proof {
            let a = ids@.take(i - 1);
            let b = ids@.take(i as int);
            assert(b =~= a.push(ids@[i - 1]));
            assert forall|x: usize| b.to_set().contains(x) == (a.to_set().contains(x) || x == ids@[i
                - 1]) by {
                if a.contains(x) {
                    let j = choose|j: int| 0 <= j < a.len() && a[j] == x;
                    assert(b[j] == x);
                }
                assert(b[i - 1] == ids@[i - 1]);
                if b.contains(x) {
                    let j = choose|j: int| 0 <= j < b.len() && b[j] == x;
                    if j < i - 1 {
                        assert(a[j] == x);
                    }
                }
            }
            assert(out@ =~= b.to_set());
        }
    }
    assert(ids@.take(i as int) =~= ids@);
    out
}

} // verus!
