//! Orders.

use crate::decimal::Decimal;
use crate::node::{CoreV, Drt, KindV, Node, NodeCore, NodeV};
use vstd::prelude::*;

verus! {

/// The kind of an order.
#[derive(Clone, Copy, Debug, PartialEq, Eq, Structural)]
pub enum OrderType {
    /// A limit order.
    Make,
    /// A market order.
    Swap,
}

impl Default for OrderType {
    fn default() -> (r: OrderType)
        ensures
            r == OrderType::Make,
    {
        OrderType::Make
    }
}

/// What an order book knows of an order.
#[derive(Clone, Copy, Debug)]
pub struct OrderBrief {
    /// The order's node.
    pub id: usize,
    /// Its side.
    pub direction: Drt,
    /// The token that it spends.
    pub src_token: usize,
    /// The token that it wants.
    pub dst_token: usize,
    /// What it has left to spend.
    pub src_volume: Decimal,
    /// What it has received.
    pub dst_volume: Decimal,
    /// Its limit.
    pub price: Decimal,
    /// The frame in which it was opened.
    pub step_count_created: u64,
}

/// An order: a node that holds what its owner put up for trade.
pub struct Order {
    core: NodeCore,
    owner_node_id: usize,
    pair_node_id: usize,
    src_token: usize,
    dst_token: usize,
    price: Decimal,
    step_count_created: u64,
    openning: bool,
    order_type: OrderType,
}

/// What an order is beside its core.
pub struct OrderV {
    pub owner_node_id: usize,
    pub pair_node_id: usize,
    pub src_token: usize,
    pub dst_token: usize,
    pub price: Decimal,
    pub step_count_created: u64,
    pub openning: bool,
    pub order_type: OrderType,
}

impl OrderV {
    /// An order that was never opened.
    pub open spec fn blank() -> OrderV {
        OrderV {
            owner_node_id: 0,
            pair_node_id: 0,
            src_token: 0,
            dst_token: 0,
            price: Decimal::of(0, 0),
            step_count_created: 0,
            openning: false,
            order_type: OrderType::Make,
        }
    }
}

impl View for Order {
    type V = NodeV;

    closed spec fn view(&self) -> NodeV {
        NodeV {
            core: self.core@,
            kind: KindV::Order(
                OrderV {
                    owner_node_id: self.owner_node_id,
                    pair_node_id: self.pair_node_id,
                    src_token: self.src_token,
                    dst_token: self.dst_token,
                    price: self.price,
                    step_count_created: self.step_count_created,
                    openning: self.openning,
                    order_type: self.order_type,
                },
            ),
        }
    }
}

impl Node for Order {
    fn base(&self) -> (r: &NodeCore) {
        &self.core
    }

    fn base_mut(&mut self) -> (r: &mut NodeCore) {
        &mut self.core
    }

    fn update(&mut self, _step_count: u64) {
    }

    fn is_open(&self) -> (r: bool) {
        self.openning
    }
}

impl Default for Order {
    fn default() -> (r: Order)
        ensures
            r@ == (NodeV { core: CoreV::empty(), kind: KindV::Order(OrderV::blank()) }),
    {
        Order {
            core: NodeCore::new(),
            owner_node_id: 0,
            pair_node_id: 0,
            src_token: 0,
            dst_token: 0,
            price: Decimal::zero(),
            step_count_created: 0,
            openning: false,
            order_type: OrderType::Make,
        }
    }
}

/// What the engine asks of an order.
pub trait OrderNode: Node {
    /// What the order is beside its core.
    spec fn order(&self) -> OrderV;

    /// The node that the order trades for.
    fn get_owner_node_id(&self) -> (r: usize)
        ensures
            r == self.order().owner_node_id,
    ;

    /// The pair that the order is placed on.
    fn get_pair_node_id(&self) -> (r: usize)
        ensures
            r == self.order().pair_node_id,
    ;

    /// The token that the order spends.
    fn get_src_token(&self) -> (r: usize)
        ensures
            r == self.order().src_token,
    ;

    /// The token that the order wants.
    fn get_dst_token(&self) -> (r: usize)
        ensures
            r == self.order().dst_token,
    ;

    /// The order's limit.
    fn get_price(&self) -> (r: &Decimal)
        ensures
            r == self.order().price,
    ;

    /// The frame in which the order was opened.
    fn get_step_count_created(&self) -> (r: u64)
        ensures
            r == self.order().step_count_created,
    ;

    /// The order's kind.
    fn get_order_type(&self) -> (r: &OrderType)
        ensures
            r == self.order().order_type,
    ;

    /// Opens the order, unless it would own itself.
    fn open(
        &mut self,
        owner_node_id: usize,
        pair_node_id: usize,
        src_token: usize,
        dst_token: usize,
        price: Decimal,
        step_count_created: u64,
        order_type: OrderType,
    ) -> (r: bool)
        ensures
            r == (owner_node_id != old(self)@.core.id),
            !r ==> final(self)@ == old(self)@ && final(self).order() == old(self).order(),
            r ==> final(self).order() == (OrderV {
                owner_node_id,
                pair_node_id,
                src_token,
                dst_token,
                price,
                step_count_created,
                openning: true,
                order_type,
            }),
            final(self)@.core == old(self)@.core,
    ;

    /// Marks the order as closed.
    fn close(&mut self)
        ensures
            final(self).order() == (OrderV { openning: false, ..old(self).order() }),
            final(self)@.core == old(self)@.core,
    ;
}

impl OrderNode for Order {
    open spec fn order(&self) -> OrderV {
        self@.kind->Order_0
    }

    fn get_owner_node_id(&self) -> (r: usize) {
        self.owner_node_id
    }

    fn get_pair_node_id(&self) -> (r: usize) {
        self.pair_node_id
    }

    fn get_src_token(&self) -> (r: usize) {
        self.src_token
    }

    fn get_dst_token(&self) -> (r: usize) {
        self.dst_token
    }

    fn get_price(&self) -> (r: &Decimal) {
        &self.price
    }

    fn get_step_count_created(&self) -> (r: u64) {
        self.step_count_created
    }

    fn get_order_type(&self) -> (r: &OrderType) {
        &self.order_type
    }

    fn open(
        &mut self,
        owner_node_id: usize,
        pair_node_id: usize,
        src_token: usize,
        dst_token: usize,
        price: Decimal,
        step_count_created: u64,
        order_type: OrderType,
    ) -> (r: bool)
        ensures
            final(self)@.kind is Order,
    {
        if owner_node_id == self.core.get_id() {
            return false;
        }
        self.owner_node_id = owner_node_id;
        self.pair_node_id = pair_node_id;
        self.src_token = src_token;
        self.dst_token = dst_token;
        self.price = price;
        self.step_count_created = step_count_created;
        self.openning = true;
        self.order_type = order_type;
        true
    }

    fn close(&mut self)
        ensures
            final(self)@.kind is Order,
    {
        self.openning = false;
    }
}

impl Order {
    /// An order is an order.
    pub broadcast proof fn lemma_kind(self)
        ensures
            (#[trigger] self@).kind is Order,
    {
    }
}

} // verus!
