//! Accounts.

use crate::node::{CoreV, KindV, Node, NodeCore, NodeV};
use std::collections::HashSet;
use vstd::prelude::*;

verus! {

broadcast use vstd::std_specs::hash::group_hash_axioms;

/// An account: a node that orders trade for.
pub struct Account {
    core: NodeCore,
    order_ids: HashSet<usize>,
}

impl View for Account {
    type V = NodeV;

    closed spec fn view(&self) -> NodeV {
        NodeV { core: self.core@, kind: KindV::Account(self.order_ids@) }
    }
}

impl Node for Account {
    fn base(&self) -> (r: &NodeCore) {
        &self.core
    }

    fn base_mut(&mut self) -> (r: &mut NodeCore) {
        &mut self.core
    }

    fn update(&mut self, _step_count: u64) {
    }

    fn is_open(&self) -> (r: bool) {
        false
    }
}

impl Default for Account {
    fn default() -> (r: Account)
        ensures
            r@ == (NodeV { core: CoreV::empty(), kind: KindV::Account(Set::empty()) }),
    {
        Account::new()
    }
}

impl Account {
    /// An account that holds nothing and has no orders.
    pub fn new() -> (r: Account)
        ensures
            r@ == (NodeV { core: CoreV::empty(), kind: KindV::Account(Set::empty()) }),
    {
        Account { core: NodeCore::new(), order_ids: HashSet::new() }
    }

    /// An account is an account.
    pub broadcast proof fn lemma_kind(self)
        ensures
            (#[trigger] self@).kind is Account,
    {
    }
}

/// What the engine asks of an account.
pub trait AccountNode: Node {
    /// The account's open orders.
    spec fn orders(&self) -> Set<usize>;

    /// Adds an order.
    fn insert_order(&mut self, order_id: usize)
        ensures
            final(self).orders() == old(self).orders().insert(order_id),
            final(self)@.core == old(self)@.core,
    ;

    /// Takes an order away.
    fn remove_order(&mut self, order_id: usize)
        ensures
            final(self).orders() == old(self).orders().remove(order_id),
            final(self)@.core == old(self)@.core,
    ;

    /// The account's open orders.
    fn get_orders(&self) -> (r: &HashSet<usize>)
        ensures
            r@ == self.orders(),
    ;
}

impl AccountNode for Account {
    open spec fn orders(&self) -> Set<usize> {
        self@.kind->Account_0
    }

    fn insert_order(&mut self, order_id: usize) {
        self.order_ids.insert(order_id);
    }

    fn remove_order(&mut self, order_id: usize) {
        self.order_ids.remove(&order_id);
    }

    fn get_orders(&self) -> (r: &HashSet<usize>) {
        &self.order_ids
    }
}

} // verus!
