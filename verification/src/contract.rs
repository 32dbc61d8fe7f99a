//! Contracts.

use crate::decimal::Decimal;
use crate::ledger::Ledger;
use crate::ledger_model::LedgerV;
use crate::node::{msgs_view, ContractState, CoreV, KindV, Msg, MsgV, Node, NodeCore, NodeV};
use std::collections::HashMap;
use vstd::prelude::*;

verus! {

/// A contract: a node whose program runs in each frame and can be called.
///
/// The program itself is kept by the engine; the contract knows its index there and which of its
/// hooks are still to run.
pub struct Contract {
    core: NodeCore,
    owner_node_id: usize,
    name: String,
    state: ContractState,
    step_count_created: u64,
    program: Option<usize>,
    on_create: bool,
    on_update: bool,
    on_end: bool,
}

/// What a contract is beside its core.
#[verifier::ext_equal]
pub struct ContractV {
    pub owner_node_id: usize,
    pub name: Seq<char>,
    pub state: ContractState,
    pub step_count_created: u64,
    pub program: Option<usize>,
    pub on_create: bool,
    pub on_update: bool,
    pub on_end: bool,
}

impl ContractV {
    /// A contract that was never deployed.
    pub open spec fn blank() -> ContractV {
        ContractV {
            owner_node_id: 0,
            name: Seq::empty(),
            state: ContractState::Destroyed,
            step_count_created: 0,
            program: None,
            on_create: false,
            on_update: false,
            on_end: false,
        }
    }

    /// A contract that was just deployed.
    pub open spec fn deployed(
        owner_node_id: usize,
        name: Seq<char>,
        program: Option<usize>,
        step_count: u64,
    ) -> ContractV {
        ContractV {
            owner_node_id,
            name,
            state: ContractState::Creating,
            step_count_created: step_count,
            program,
            on_create: true,
            on_update: true,
            on_end: true,
        }
    }
}

impl View for Contract {
    type V = NodeV;

    closed spec fn view(&self) -> NodeV {
        NodeV {
            core: self.core@,
            kind: KindV::Contract(
                ContractV {
                    owner_node_id: self.owner_node_id,
                    name: self.name@,
                    state: self.state,
                    step_count_created: self.step_count_created,
                    program: self.program,
                    on_create: self.on_create,
                    on_update: self.on_update,
                    on_end: self.on_end,
                },
            ),
        }
    }
}

impl Node for Contract {
    fn base(&self) -> (r: &NodeCore) {
        &self.core
    }

    fn base_mut(&mut self) -> (r: &mut NodeCore) {
        &mut self.core
    }

    fn update(&mut self, _step_count: u64) {
    }

    fn is_open(&self) -> (r: bool) {
        false
    }
}

impl Contract {
    /// A contract that was never deployed.
    pub fn new() -> (r: Contract)
        ensures
            r@ == (NodeV { core: CoreV::empty(), kind: KindV::Contract(ContractV::blank()) }),
    {
        let name = String::new();
        proof {
            reveal_strlit("");
            assert(name@ =~= Seq::<char>::empty());
        }
        Contract {
            core: NodeCore::new(),
            owner_node_id: 0,
            name,
            state: ContractState::Destroyed,
            step_count_created: 0,
            program: None,
            on_create: false,
            on_update: false,
            on_end: false,
        }
    }

    /// A contract is a contract.
    pub broadcast proof fn lemma_kind(self)
        ensures
            (#[trigger] self@).kind is Contract,
    {
    }
}

/// What the engine asks of a contract.
pub trait ContractNode: Node {
    /// What the contract is beside its core.
    spec fn contract(&self) -> ContractV;

    /// Where the contract stands in its life.
    fn get_state(&self) -> (r: ContractState)
        ensures
            r == self.contract().state,
    ;

    /// Sets where the contract stands in its life.
    fn set_state(&mut self, state: ContractState)
        ensures
            final(self).contract() == (ContractV { state, ..old(self).contract() }),
            final(self)@.core == old(self)@.core,
    ;

    /// The node that deployed the contract.
    fn get_owner_node_id(&self) -> (r: usize)
        ensures
            r == self.contract().owner_node_id,
    ;

    /// The frame in which the contract was deployed.
    fn get_step_count_created(&self) -> (r: u64)
        ensures
            r == self.contract().step_count_created,
    ;

    /// The contract's name.
    fn get_name(&self) -> (r: &str)
        ensures
            r@ == self.contract().name,
    ;

    /// Sets the contract's name.
    fn set_name(&mut self, name: &str)
        ensures
            final(self).contract() == (ContractV { name: name@, ..old(self).contract() }),
            final(self)@.core == old(self)@.core,
    ;

    /// Deploys a program.
    fn deploy(
        &mut self,
        owner_node_id: usize,
        name: &str,
        program: Option<usize>,
        step_count: u64,
    )
        ensures
            final(self).contract() == ContractV::deployed(owner_node_id, name@, program, step_count),
            final(self)@.core == old(self)@.core,
    ;

    /// Ends the contract, if it is running.
    fn end(&mut self)
        ensures
            final(self).contract() == (ContractV {
                state: if old(self).contract().state == ContractState::Running {
                    ContractState::Ending
                } else {
                    old(self).contract().state
                },
                ..old(self).contract()
            }),
            final(self)@.core == old(self)@.core,
    ;

    /// All balances.
    fn get_all_balances(&self) -> (r: &HashMap<usize, Decimal>)
        ensures
            r@ == self@.core.sheet,
    ;
}

impl ContractNode for Contract {
    open spec fn contract(&self) -> ContractV {
        self@.kind->Contract_0
    }

    fn get_state(&self) -> (r: ContractState) {
        self.state
    }

    fn set_state(&mut self, state: ContractState) {
        self.state = state;
    }

    fn get_owner_node_id(&self) -> (r: usize) {
        self.owner_node_id
    }

    fn get_step_count_created(&self) -> (r: u64) {
        self.step_count_created
    }

    fn get_name(&self) -> (r: &str) {
        self.name.as_str()
    }

    fn set_name(&mut self, name: &str) {
        self.name = name.to_owned();
    }

    fn deploy(
        &mut self,
        owner_node_id: usize,
        name: &str,
        program: Option<usize>,
        step_count: u64,
    ) {
        self.owner_node_id = owner_node_id;
        self.name = name.to_owned();
        self.program = program;
        self.on_create = true;
        self.on_update = true;
        self.on_end = true;
        self.step_count_created = step_count;
        self.state = ContractState::Creating;
    }

    fn end(&mut self) {
        if self.state == ContractState::Running {
            self.state = ContractState::Ending;
        }
    }

    fn get_all_balances(&self) -> (r: &HashMap<usize, Decimal>) {
        self.core.balances()
    }
}

/// A contract's program: what it does when it is created, in each frame, at its end and when it
/// is called. Each hook may change the contract and returns messages to the engine; it returns
/// `None` where a number overflows.
pub trait ContractLogic: Sized {
    /// What [`ContractLogic::on_create`] does.
    spec fn created(&self, c: NodeV, l: LedgerV, step: u64) -> Option<(NodeV, Seq<MsgV>)>;

    /// What [`ContractLogic::on_update`] does.
    spec fn updated(&self, c: NodeV, l: LedgerV, step: u64) -> Option<(NodeV, Seq<MsgV>)>;

    /// What [`ContractLogic::on_end`] does.
    spec fn ended(&self, c: NodeV, l: LedgerV, step: u64) -> Option<(NodeV, Seq<MsgV>)>;

    /// What [`ContractLogic::on_called`] does.
    spec fn called(
        &self,
        c: NodeV,
        l: LedgerV,
        fn_id: u8,
        caller: usize,
        volume: Decimal,
    ) -> Option<(NodeV, Seq<MsgV>)>;

    /// Runs in the first frame.
    fn on_create(&self, contract: &mut Contract, reader: &Ledger, step_count: u64) -> (r: Option<
        Vec<Msg>,
    >)
        ensures
            ({
                let out = self.created(old(contract)@, reader@, step_count);
                &&& r is Some == out is Some
                &&& r is Some ==> (final(contract)@, msgs_view((r->0)@)) == out->0
            }),
    ;

    /// Runs in each frame after the first one.
    fn on_update(&self, contract: &mut Contract, reader: &Ledger, step_count: u64) -> (r: Option<
        Vec<Msg>,
    >)
        ensures
            ({
                let out = self.updated(old(contract)@, reader@, step_count);
                &&& r is Some == out is Some
                &&& r is Some ==> (final(contract)@, msgs_view((r->0)@)) == out->0
            }),
    ;

    /// Runs in the last frame.
    fn on_end(&self, contract: &mut Contract, reader: &Ledger, step_count: u64) -> (r: Option<
        Vec<Msg>,
    >)
        ensures
            ({
                let out = self.ended(old(contract)@, reader@, step_count);
                &&& r is Some == out is Some
                &&& r is Some ==> (final(contract)@, msgs_view((r->0)@)) == out->0
            }),
    ;

    /// Runs when a node calls a function of the contract.
    fn on_called(
        &self,
        contract: &mut Contract,
        reader: &Ledger,
        fn_id: u8,
        caller_id: usize,
        volume: Decimal,
    ) -> (r: Option<Vec<Msg>>)
        ensures
            ({
                let out = self.called(old(contract)@, reader@, fn_id, caller_id, volume);
                &&& r is Some == out is Some
                &&& r is Some ==> (final(contract)@, msgs_view((r->0)@)) == out->0
            }),
    ;
}

impl NodeV {
    /// What the contract is beside its core.
    pub open spec fn contract(self) -> ContractV {
        self.kind->Contract_0
    }

    pub open spec fn with_contract(self, c: ContractV) -> NodeV {
        NodeV { kind: KindV::Contract(c), ..self }
    }

    pub open spec fn with_msgs(self, msgs: Seq<MsgV>) -> NodeV {
        NodeV { core: self.core.with_msgs(msgs), ..self }
    }

    /// The contract after a frame: the hook of its state has run, and the state has moved on
    /// from creation to running and from the end to destruction.
    pub open spec fn contract_stepped<L: ContractLogic>(
        self,
        program: Option<L>,
        l: LedgerV,
        step: u64,
    ) -> Option<NodeV> {
        let c = self.contract();
        match c.state {
            ContractState::Creating => {
                let ready = self.with_contract(ContractV { on_create: false, ..c });
                let out = if c.on_create && program is Some {
                    (program->0).created(ready, l, step)
                } else {
                    Some((ready, Seq::empty()))
                };
                match out {
                    Some((n, msgs)) => Some(
                        n.with_contract(
                            ContractV { state: ContractState::Running, ..n.contract() },
                        ).with_msgs(msgs),
                    ),
                    None => None,
                }
            },
            ContractState::Running => {
                let out = if c.on_update && program is Some {
                    (program->0).updated(self, l, step)
                } else {
                    Some((self, Seq::empty()))
                };
                match out {
                    Some((n, msgs)) => Some(n.with_msgs(msgs)),
                    None => None,
                }
            },
            ContractState::Ending => {
                let ready = self.with_contract(ContractV { on_end: false, ..c });
                let out = if c.on_end && program is Some {
                    (program->0).ended(ready, l, step)
                } else {
                    Some((ready, Seq::empty()))
                };
                match out {
                    Some((n, msgs)) => Some(
                        n.with_contract(
                            ContractV {
                                state: ContractState::Destroyed,
                                on_update: false,
                                ..n.contract()
                            },
                        ).with_msgs(msgs),
                    ),
                    None => None,
                }
            },
            ContractState::Destroyed => Some(self),
        }
    }

    /// The contract after a call, and the messages of the call.
    pub open spec fn contract_called<L: ContractLogic>(
        self,
        program: Option<L>,
        l: LedgerV,
        fn_id: u8,
        caller: usize,
        volume: Decimal,
    ) -> Option<(NodeV, Seq<MsgV>)> {
        match program {
            Some(p) => p.called(self, l, fn_id, caller, volume),
            None => Some((self, Seq::empty())),
        }
    }
}

impl Contract {
    /// The index of the contract's program.
    pub fn get_program(&self) -> (r: Option<usize>)
        ensures
            r == self@.contract().program,
    {
        self.program
    }

    /// Runs the hook of the contract's state and moves the state on. `None` where a number
    /// overflows.
    pub fn update_with_reader<L: ContractLogic>(
        &mut self,
        program: Option<&L>,
        reader: &Ledger,
        step_count: u64,
    ) -> (r: Option<()>)
        ensures
            ({
                let p = match program {
                    Some(x) => Some(*x),
                    None => None,
                };
                let out = old(self)@.contract_stepped(p, reader@, step_count);
                &&& r is Some == out is Some
                &&& r is Some ==> final(self)@ == out->0
            }),
    {
        match self.state {
            ContractState::Creating => {
                let run = self.on_create;
                self.on_create = false;
                if run {
                    if let Some(p) = program {
                        let msgs = p.on_create(self, reader, step_count)?;
                        self.core.append_msgs(msgs);
                    }
                }
                self.state = ContractState::Running;
                if !(run && program.is_some()) {
                    assert(self.core@.msgs + Seq::<MsgV>::empty() =~= self.core@.msgs);
                }
            },
            ContractState::Running => {
                if self.on_update {
                    if let Some(p) = program {
                        let msgs = p.on_update(self, reader, step_count)?;
                        self.core.append_msgs(msgs);
                        return Some(());
                    }
                }
                assert(self.core@.msgs + Seq::<MsgV>::empty() =~= self.core@.msgs);
            },
            ContractState::Ending => {
                let run = self.on_end;
                self.on_end = false;
                if run {
                    if let Some(p) = program {
                        let msgs = p.on_end(self, reader, step_count)?;
                        self.core.append_msgs(msgs);
                    }
                }
                self.state = ContractState::Destroyed;
                self.on_update = false;
                if !(run && program.is_some()) {
                    assert(self.core@.msgs + Seq::<MsgV>::empty() =~= self.core@.msgs);
                }
            },
            ContractState::Destroyed => {},
        }
        Some(())
    }

    /// Calls a function of the contract. Returns its messages, or `None` where a number
    /// overflows.
    pub fn call<L: ContractLogic>(
        &mut self,
        program: Option<&L>,
        reader: &Ledger,
        src_id: usize,
        fn_id: u8,
        volume: Decimal,
    ) -> (r: Option<Vec<Msg>>)
        ensures
            ({
                let p = match program {
                    Some(x) => Some(*x),
                    None => None,
                };
                let out = old(self)@.contract_called(p, reader@, fn_id, src_id, volume);
                &&& r is Some == out is Some
                &&& r is Some ==> (final(self)@, msgs_view((r->0)@)) == out->0
            }),
    {
        match program {
            Some(p) => p.on_called(self, reader, fn_id, src_id, volume),
            None => {
                let msgs: Vec<Msg> = Vec::new();
                assert(msgs_view(msgs@) =~= Seq::empty());
                Some(msgs)
            },
        }
    }
}

} // verus!
