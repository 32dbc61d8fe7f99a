//! The nodes of the engine, what they hold, and the messages they exchange.

use crate::decimal::{decimal_sum, Decimal};
use crate::contract::ContractV;
use crate::fee::FeeFn;
use crate::matching::PairV;
use crate::order::OrderV;
use crate::token::TokenV;
use crate::virtual_pair::VirtualV;
use std::collections::HashMap;
use vstd::prelude::*;

verus! {

broadcast use vstd::std_specs::hash::group_hash_axioms;

/// The side of an order.
#[derive(Clone, Copy, Debug, PartialEq, Eq, Hash, Structural)]
pub enum Drt {
    /// Spends the quote token.
    Buy,
    /// Spends the base token.
    Sell,
}

/// Where a contract stands in its life.
#[derive(Clone, Copy, Debug, PartialEq, Eq, Structural)]
pub enum ContractState {
    /// Deployed, its creation hook has not run.
    Creating,
    /// Its update hook runs in each frame.
    Running,
    /// Its end hook runs in the next frame.
    Ending,
    /// Over, or never deployed.
    Destroyed,
}

/// One transfer out of a trade.
#[derive(Clone, Copy, Debug)]
pub struct SwapTransfer {
    /// The node that pays.
    pub src_id: usize,
    /// The node that receives.
    pub dst_id: usize,
    /// The token that moves.
    pub token: usize,
    /// How much of it moves.
    pub volume: Decimal,
}

/// One price level of an order book.
#[derive(Clone, Copy, Debug)]
pub struct OrderBookDepth {
    /// The price.
    pub price: Decimal,
    /// What the orders at this price still offer.
    pub volume: Decimal,
}

/// A message to the engine.
pub enum Msg {
    /// Move `volume` of `token` from one node to another.
    Transfer { src_id: usize, dst_id: usize, token: usize, volume: Decimal, allow_negative: bool },
    /// Move everything that one node holds to another.
    TransferAll { src_id: usize, dst_id: usize },
    /// Open a limit order.
    OpenOrder {
        src_id: usize,
        owner_node_id: usize,
        src_token: usize,
        dst_token: usize,
        volume: Decimal,
        price: Decimal,
    },
    /// Trade at the market's price.
    SwapOrder {
        src_id: usize,
        owner_node_id: usize,
        src_token: usize,
        dst_token: usize,
        volume: Decimal,
    },
    /// Close an order and give back what it holds.
    CloseOrder { order_id: usize },
    /// Deploy the contract program with the given index.
    CreateContract { owner_node_id: usize, name: String, program: usize },
    /// Register a token.
    RegisterToken {
        name: String,
        can_be_negative: bool,
        not_tradable: bool,
        virtual_anchor: Option<usize>,
        swap_whitelist: Vec<usize>,
    },
    /// Create a pair whose counterparty is a contract.
    CreateVirtualPair {
        contract_slave_id: usize,
        fn_id: u8,
        quote_token: usize,
        base_token_name: String,
        swap_only: bool,
    },
    /// Call a contract.
    CallContract { src_id: usize, contract_id: usize, fn_id: u8, volume: Decimal },
    /// Issue a token (or burn it, with a negative volume).
    Issue { token: usize, account_id: usize, volume: Decimal },
    /// Set or drop the fee of a pair.
    SetPairFee { pair_id: usize, fee_fn: Option<FeeFn> },
}

/// What a message says.
pub enum MsgV {
    Transfer { src_id: usize, dst_id: usize, token: usize, volume: Decimal, allow_negative: bool },
    TransferAll { src_id: usize, dst_id: usize },
    OpenOrder {
        src_id: usize,
        owner_node_id: usize,
        src_token: usize,
        dst_token: usize,
        volume: Decimal,
        price: Decimal,
    },
    SwapOrder {
        src_id: usize,
        owner_node_id: usize,
        src_token: usize,
        dst_token: usize,
        volume: Decimal,
    },
    CloseOrder { order_id: usize },
    CreateContract { owner_node_id: usize, name: Seq<char>, program: usize },
    RegisterToken {
        name: Seq<char>,
        can_be_negative: bool,
        not_tradable: bool,
        virtual_anchor: Option<usize>,
        swap_whitelist: Seq<usize>,
    },
    CreateVirtualPair {
        contract_slave_id: usize,
        fn_id: u8,
        quote_token: usize,
        base_token_name: Seq<char>,
        swap_only: bool,
    },
    CallContract { src_id: usize, contract_id: usize, fn_id: u8, volume: Decimal },
    Issue { token: usize, account_id: usize, volume: Decimal },
    SetPairFee { pair_id: usize, fee_fn: Option<FeeFn> },
}

impl View for Msg {
    type V = MsgV;

    open spec fn view(&self) -> MsgV {
        match *self {
            Msg::Transfer { src_id, dst_id, token, volume, allow_negative } => MsgV::Transfer {
                src_id,
                dst_id,
                token,
                volume,
                allow_negative,
            },
            Msg::TransferAll { src_id, dst_id } => MsgV::TransferAll { src_id, dst_id },
            Msg::OpenOrder { src_id, owner_node_id, src_token, dst_token, volume, price } =>
                MsgV::OpenOrder { src_id, owner_node_id, src_token, dst_token, volume, price },
            Msg::SwapOrder { src_id, owner_node_id, src_token, dst_token, volume } =>
                MsgV::SwapOrder { src_id, owner_node_id, src_token, dst_token, volume },
            Msg::CloseOrder { order_id } => MsgV::CloseOrder { order_id },
            Msg::CreateContract { owner_node_id, name, program } => MsgV::CreateContract {
                owner_node_id,
                name: name@,
                program,
            },
            Msg::RegisterToken {
                name,
                can_be_negative,
                not_tradable,
                virtual_anchor,
                swap_whitelist,
            } => MsgV::RegisterToken {
                name: name@,
                can_be_negative,
                not_tradable,
                virtual_anchor,
                swap_whitelist: swap_whitelist@,
            },
            Msg::CreateVirtualPair {
                contract_slave_id,
                fn_id,
                quote_token,
                base_token_name,
                swap_only,
            } => MsgV::CreateVirtualPair {
                contract_slave_id,
                fn_id,
                quote_token,
                base_token_name: base_token_name@,
                swap_only,
            },
            Msg::CallContract { src_id, contract_id, fn_id, volume } => MsgV::CallContract {
                src_id,
                contract_id,
                fn_id,
                volume,
            },
            Msg::Issue { token, account_id, volume } => MsgV::Issue { token, account_id, volume },
            Msg::SetPairFee { pair_id, fee_fn } => MsgV::SetPairFee { pair_id, fee_fn },
        }
    }
}

/// What a sequence of messages says.
pub open spec fn msgs_view(msgs: Seq<Msg>) -> Seq<MsgV> {
    msgs.map_values(|m: Msg| m@)
}

/// What every node has: an id, balances by token, and messages not yet collected.
pub struct NodeCore {
    id: usize,
    sheet: HashMap<usize, Decimal>,
    msgs: Vec<Msg>,
}

/// What every node has.
#[verifier::ext_equal]
pub struct CoreV {
    pub id: usize,
    pub sheet: Map<usize, Decimal>,
    pub msgs: Seq<MsgV>,
}

impl CoreV {
    /// The core of a node that nothing has happened to.
    pub open spec fn empty() -> CoreV {
        CoreV { id: 0, sheet: Map::empty(), msgs: Seq::empty() }
    }

    /// The balance of a token, zero where there is none.
    pub open spec fn balance(self, token: usize) -> Decimal {
        if self.sheet.dom().contains(token) {
            self.sheet[token]
        } else {
            Decimal::of(0, 0)
        }
    }

    pub open spec fn with_balance(self, token: usize, volume: Decimal) -> CoreV {
        CoreV { sheet: self.sheet.insert(token, volume), ..self }
    }

    pub open spec fn with_msg(self, msg: MsgV) -> CoreV {
        CoreV { msgs: self.msgs.push(msg), ..self }
    }

    pub open spec fn with_msgs(self, msgs: Seq<MsgV>) -> CoreV {
        CoreV { msgs: self.msgs + msgs, ..self }
    }
}

/// Balances with others added to them, or `None` where a sum overflows.
pub open spec fn merged(to: CoreV, from: Map<usize, Decimal>) -> Option<CoreV> {
    if exists|t: usize|
        #![trigger from.dom().contains(t)]
        from.dom().contains(t) && decimal_sum(to.balance(t), from[t]) is None {
        None
    } else {
        Some(
            CoreV {
                sheet: Map::new(
                    |t: usize| to.sheet.dom().contains(t) || from.dom().contains(t),
                    |t: usize|
                        if from.dom().contains(t) {
                            decimal_sum(to.balance(t), from[t])->0
                        } else {
                            to.sheet[t]
                        },
                ),
                ..to
            },
        )
    }
}

/// The tokens that there are balances of.
pub fn tokens_of(sheet: &HashMap<usize, Decimal>) -> (r: Vec<usize>)
    ensures
        r@.no_duplicates(),
        r@.to_set() == sheet@.dom(),
{
    let mut out: Vec<usize> = Vec::new();
    let ghost all = vstd::std_specs::iter::IteratorSpec::remaining(
        &vstd::std_specs::hash::spec_keys_iter(sheet),
    ).unref();
    for k in iter: sheet.keys()
        invariant
            iter.seq().unref() == all,
            iter.seq().no_duplicates(),
            out@ == all.take(iter.index()),
            all.to_set() == sheet@.dom(),
    {
        out.push(*k);
        assert(out@ =~= all.take(iter.index() + 1));
    }
    assert(out@ =~= all);
    out
}

impl View for NodeCore {
    type V = CoreV;

    closed spec fn view(&self) -> CoreV {
        CoreV { id: self.id, sheet: self.sheet@, msgs: msgs_view(self.msgs@) }
    }
}

impl NodeCore {
    pub fn new() -> (r: NodeCore)
        ensures
            r@ == CoreV::empty(),
    {
        NodeCore { id: 0, sheet: HashMap::new(), msgs: Vec::new() }
    }

    pub fn get_id(&self) -> (r: usize)
        ensures
            r == self@.id,
    {
        self.id
    }

    pub fn set_id(&mut self, id: usize)
        ensures
            final(self)@ == (CoreV { id, ..old(self)@ }),
    {
        self.id = id;
    }

    pub fn balance(&self, token: usize) -> (r: Decimal)
        ensures
            r == self@.balance(token),
    {
        match self.sheet.get(&token) {
            Some(v) => *v,
            None => Decimal::zero(),
        }
    }

    pub fn set_balance(&mut self, token: usize, volume: Decimal)
        ensures
            final(self)@ == old(self)@.with_balance(token, volume),
    {
        self.sheet.insert(token, volume);
    }

    pub fn balances(&self) -> (r: &HashMap<usize, Decimal>)
        ensures
            r@ == self@.sheet,
    {
        &self.sheet
    }

    pub fn drain_balances(&mut self) -> (r: HashMap<usize, Decimal>)
        ensures
            r@ == old(self)@.sheet,
            final(self)@ == (CoreV { sheet: Map::empty(), ..old(self)@ }),
    {
        let mut out: HashMap<usize, Decimal> = HashMap::new();
        std::mem::swap(&mut out, &mut self.sheet);
        out
    }

    /// Adds balances, or returns `None` where a sum overflows.
    pub fn absorb(&mut self, from: &HashMap<usize, Decimal>) -> (r: Option<()>)
        ensures
            ({
                let m = merged(old(self)@, from@);
                &&& r is Some == m is Some
                &&& r is Some ==> final(self)@ == m->0
            }),
    {
        let keys = tokens_of(from);
        let ghost start = self@;
        let ghost mut done: Set<usize> = Set::empty();
        let mut i: usize = 0;
        while i < keys.len()
            invariant
                i <= keys@.len(),
                keys@.no_duplicates(),
                keys@.to_set() == from@.dom(),
                start == old(self)@,
                self@.id == start.id,
                self@.msgs == start.msgs,
                forall|t: usize| #[trigger]
                    done.contains(t) ==> exists|j: int| 0 <= j < i && keys@[j] == t,
                forall|j: int| 0 <= j < i ==> done.contains(#[trigger] keys@[j]),
                self@.sheet.dom() =~= start.sheet.dom().union(done),
                forall|t: usize|
                    #![trigger self@.sheet[t]]
                    start.sheet.dom().contains(t) && !done.contains(t) ==> self@.sheet[t]
                        == start.sheet[t],
                forall|t: usize| #[trigger]
                    done.contains(t) ==> decimal_sum(start.balance(t), from@[t]) == Some(
                        self@.sheet[t],
                    ),
            decreases keys@.len() - i,
        {
            let t = keys[i];
            assert(keys@.to_set().contains(t));
            assert(!done.contains(t));
            let more = match from.get(&t) {
                Some(v) => *v,
                None => Decimal::zero(),
            };
            let sum = self.balance(t).checked_add(more);
            if sum.is_none() {
                assert(from@.dom().contains(t));
                return None;
            }
            self.set_balance(t, sum.unwrap());
            proof {
                done = done.insert(t);
            }
            i = i + 1;
        }
        proof {
            assert(done =~= from@.dom()) by {
                assert forall|t: usize| from@.dom().contains(t) implies done.contains(t) by {
                    assert(keys@.to_set().contains(t));
                    let j = choose|j: int| 0 <= j < keys@.len() && keys@[j] == t;
                    assert(done.contains(keys@[j]));
                }
                assert forall|t: usize| done.contains(t) implies from@.dom().contains(t) by {
                    assert(keys@.to_set().contains(t));
                }
            }
            assert(self@.sheet =~= (merged(start, from@)->0).sheet);
        }
        Some(())
    }

    /// Sets all the given balances.
    pub fn overlay(&mut self, from: &HashMap<usize, Decimal>)
        ensures
            final(self)@ == (CoreV {
                sheet: old(self)@.sheet.union_prefer_right(from@),
                ..old(self)@
            }),
    {
        let keys = tokens_of(from);
        let ghost start = self@;
        let ghost mut done: Set<usize> = Set::empty();
        let mut i: usize = 0;
        while i < keys.len()
            invariant
                i <= keys@.len(),
                keys@.to_set() == from@.dom(),
                start == old(self)@,
                self@.id == start.id,
                self@.msgs == start.msgs,
                forall|t: usize| #[trigger] done.contains(t) ==> from@.dom().contains(t),
                forall|j: int| 0 <= j < i ==> done.contains(#[trigger] keys@[j]),
                self@.sheet.dom() =~= start.sheet.dom().union(done),
                forall|t: usize|
                    #![trigger self@.sheet[t]]
                    start.sheet.dom().contains(t) && !done.contains(t) ==> self@.sheet[t]
                        == start.sheet[t],
                forall|t: usize| #[trigger] done.contains(t) ==> self@.sheet[t] == from@[t],
            decreases keys@.len() - i,
        {
            let t = keys[i];
            assert(keys@.to_set().contains(t));
            if let Some(v) = from.get(&t) {
                self.set_balance(t, *v);
            }
            proof {
                done = done.insert(t);
            }
            i = i + 1;
        }
        proof {
            assert(done =~= from@.dom()) by {
                assert forall|t: usize| from@.dom().contains(t) implies done.contains(t) by {
                    assert(keys@.to_set().contains(t));
                    let j = choose|j: int| 0 <= j < keys@.len() && keys@[j] == t;
                    assert(done.contains(keys@[j]));
                }
            }
            assert(self@.sheet =~= start.sheet.union_prefer_right(from@));
        }
    }

    pub fn send_msg(&mut self, msg: Msg)
        ensures
            final(self)@ == old(self)@.with_msg(msg@),
    {
        self.msgs.push(msg);
        assert(msgs_view(self.msgs@) =~= msgs_view(old(self).msgs@).push(msg@));
    }

    pub fn append_msgs(&mut self, msgs: Vec<Msg>)
        ensures
            final(self)@ == old(self)@.with_msgs(msgs_view(msgs@)),
    {
        let mut more: Vec<Msg> = msgs;
        self.msgs.append(&mut more);
        assert(msgs_view(self.msgs@) =~= msgs_view(old(self).msgs@) + msgs_view(msgs@));
    }

    pub fn take_msgs(&mut self) -> (r: Vec<Msg>)
        ensures
            msgs_view(r@) == old(self)@.msgs,
            final(self)@ == (CoreV { msgs: Seq::empty(), ..old(self)@ }),
    {
        let mut out: Vec<Msg> = Vec::new();
        std::mem::swap(&mut out, &mut self.msgs);
        assert(msgs_view(self.msgs@) =~= Seq::empty());
        out
    }
}

/// What a node is beside its core.
pub enum KindV {
    Token(TokenV),
    Account(Set<usize>),
    Order(OrderV),
    Pair(PairV),
    Virtual(VirtualV),
    Contract(ContractV),
}

/// A node.
pub struct NodeV {
    pub core: CoreV,
    pub kind: KindV,
}

impl NodeV {
    /// The node at the start of a frame: a pair takes note of the frame's number.
    pub open spec fn updated(self, step_count: u64) -> NodeV {
        match self.kind {
            KindV::Pair(p) => NodeV { kind: KindV::Pair(PairV { step_count, ..p }), ..self },
            KindV::Virtual(v) => NodeV {
                kind: KindV::Virtual(VirtualV { pair: PairV { step_count, ..v.pair }, ..v }),
                ..self
            },
            _ => self,
        }
    }

    pub open spec fn with_core(self, core: CoreV) -> NodeV {
        NodeV { core, ..self }
    }

    pub open spec fn with_balance(self, token: usize, volume: Decimal) -> NodeV {
        NodeV { core: self.core.with_balance(token, volume), ..self }
    }

    /// The node after its messages were collected.
    pub open spec fn emptied(self) -> NodeV {
        NodeV { core: CoreV { msgs: Seq::empty(), ..self.core }, ..self }
    }

    /// The balance of a token, zero where there is none.
    pub open spec fn balance(self, token: usize) -> Decimal {
        self.core.balance(token)
    }

    /// Whether the node is an open order.
    pub open spec fn is_open(self) -> bool {
        self.kind matches KindV::Order(o) && o.openning
    }
}

/// What the engine asks of every node.
pub trait Node: View<V = NodeV> {
    fn base(&self) -> (r: &NodeCore)
        ensures
            r@ == self@.core,
    ;

    fn base_mut(&mut self) -> (r: &mut NodeCore)
        ensures
            r@ == old(self)@.core,
            final(self)@ == (NodeV { core: final(r)@, ..old(self)@ }),
    ;

    /// Takes note of the number of the frame.
    fn update(&mut self, step_count: u64)
        ensures
            final(self)@ == old(self)@.updated(step_count),
    ;

    /// Takes note of the number of the frame and hands out the messages.
    fn upload_msgs(&mut self, step_count: u64) -> (r: Vec<Msg>)
        ensures
            msgs_view(r@) == old(self)@.core.msgs,
            final(self)@ == old(self)@.updated(step_count).emptied(),
    {
        self.update(step_count);
        self.base_mut().take_msgs()
    }

    /// Whether the node is an open order.
    fn is_open(&self) -> (r: bool)
        ensures
            r == self@.is_open(),
    ;

    /// The node's id.
    fn get_id(&self) -> (r: usize)
        ensures
            r == self@.core.id,
    {
        self.base().get_id()
    }

    /// Sets the node's id.
    fn set_id(&mut self, id: usize)
        ensures
            final(self)@ == (NodeV { core: CoreV { id, ..old(self)@.core }, ..old(self)@ }),
    {
        self.base_mut().set_id(id)
    }

    /// The balance of a token, zero where there is none.
    fn balance(&self, token: usize) -> (r: Decimal)
        ensures
            r == self@.balance(token),
    {
        self.base().balance(token)
    }

    /// Sets the balance of a token.
    fn set_balance(&mut self, token: usize, volume: Decimal)
        ensures
            final(self)@ == old(self)@.with_balance(token, volume),
    {
        self.base_mut().set_balance(token, volume)
    }

    /// Changes the balance of a token, or returns `None` and changes nothing where the sum
    /// overflows.
    fn adjust_balance(&mut self, token: usize, delta: Decimal) -> (r: Option<()>)
        ensures
            match decimal_sum(old(self)@.balance(token), delta) {
                Some(sum) => r is Some && final(self)@ == old(self)@.with_balance(token, sum),
                None => r is None && final(self)@ == old(self)@,
            },
    {
        let sum = self.balance(token).checked_add(delta)?;
        self.set_balance(token, sum);
        Some(())
    }

    /// Takes all balances out of the node.
    fn drain_balances(&mut self) -> (r: HashMap<usize, Decimal>)
        ensures
            r@ == old(self)@.core.sheet,
            final(self)@ == (NodeV {
                core: CoreV { sheet: Map::empty(), ..old(self)@.core },
                ..old(self)@
            }),
    {
        self.base_mut().drain_balances()
    }

    /// Puts a message into the node's outbox.
    fn send_msg(&mut self, msg: Msg)
        ensures
            final(self)@ == (NodeV { core: old(self)@.core.with_msg(msg@), ..old(self)@ }),
    {
        self.base_mut().send_msg(msg)
    }
}

} // verus!
