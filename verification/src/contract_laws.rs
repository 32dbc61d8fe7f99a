//! What passes between a contract and its node in a frame: balances, prices, and the node itself.

use crate::contract::ContractLogic;
use crate::decimal::Decimal;
use crate::ledger_model::LedgerV;
use crate::matching::PairV;
use crate::node::{ContractState, KindV, NodeV};
use crate::rpte_model::{RpteV, PRICE_BASE};
use crate::virtual_pair::VirtualV;
use vstd::prelude::*;

verus! {

/// Whether a node is that of the contract at a position.
pub open spec fn runs_at<L>(r: RpteV<L>, id: usize, i: int) -> bool {
    r.slave_to_master.dom().contains(id) && r.slave_to_master[id] == i && i < r.masters.len()
}

/// Whether a node has what another one has, and what the sheet says where that says anything.
pub open spec fn overlaid(n: NodeV, over: NodeV, r: NodeV) -> bool {
    &&& r.kind == n.kind
    &&& r.core.id == n.core.id
    &&& r.core.msgs == n.core.msgs
    &&& forall|t: usize| #[trigger]
        r.balance(t) == if over.core.sheet.dom().contains(t) {
            over.balance(t)
        } else {
            n.balance(t)
        }
}

proof fn lemma_lent<L: ContractLogic>(r: RpteV<L>, k: nat)
    requires
        k <= r.ledger.nodes.len(),
        r.ledger.nodes.len() <= usize::MAX,
    ensures
        r.balances_lent(k) == (LedgerV { nodes: r.balances_lent(k).nodes, ..r.ledger }),
        r.balances_lent(k).nodes.len() == r.ledger.nodes.len(),
        forall|id: usize|
            r.ledger.has(id) ==> if id < k && r.is_slave(id) {
                overlaid(
                    r.ledger.node(id),
                    r.master(id),
                    #[trigger] r.balances_lent(k).node(id),
                )
            } else {
                r.balances_lent(k).node(id) == r.ledger.node(id)
            },
    decreases k,
{
    if k > 0 {
        lemma_lent(r, (k - 1) as nat);
        let l = r.balances_lent((k - 1) as nat);
        let m = r.balances_lent(k);
        assert forall|id: usize| r.ledger.has(id) implies if id < k && r.is_slave(id) {
            overlaid(r.ledger.node(id), r.master(id), #[trigger] m.node(id))
        } else {
            m.node(id) == r.ledger.node(id)
        } by {
            assert(l.node(id) == l.node(id));
            if id as int == k - 1 && r.is_slave(id) {
                assert(l.node(id) == r.ledger.node(id));
                assert(overlaid(r.ledger.node(id), r.master(id), m.node(id)));
            } else {
                assert(m.node(id) == l.node(id));
            }
        }
    }
}

/// At the start of a frame the node of a contract has what the contract keeps, where the contract
/// keeps anything. No other node changes.
pub proof fn law_balances_lent<L: ContractLogic>(r: RpteV<L>, id: usize, i: int)
    requires
        r.ledger.has(id),
        r.ledger.nodes.len() <= usize::MAX,
    ensures
        ({
            let n = r.balances_lent(r.ledger.nodes.len()).node(id);
            &&& runs_at(r, id, i) ==> overlaid(r.ledger.node(id), r.masters[i], n)
            &&& (forall|j: int| !runs_at(r, id, j)) ==> n == r.ledger.node(id)
        }),
{
    lemma_lent(r, r.ledger.nodes.len());
    let n = r.balances_lent(r.ledger.nodes.len()).node(id);
    if r.is_slave(id) {
        assert(runs_at(r, id, r.slave_to_master[id] as int));
    }
}

/// A pair with a contract has the price that the contract quotes for the pair's function, where it
/// quotes one: what the contract keeps under the key of the function. Nothing else of any node
/// changes.
pub proof fn law_prices_taken<L: ContractLogic>(r: RpteV<L>, id: usize)
    requires
        r.ledger.has(id),
    ensures
        ({
            let a = r.ledger.node(id);
            let b = r.prices_taken().node(id);
            match a.kind {
                KindV::Virtual(v) => {
                    let key = (PRICE_BASE + v.fn_id) as usize;
                    &&& b.core == a.core
                    &&& b.kind matches KindV::Virtual(w) && {
                        &&& w == (VirtualV {
                            pair: PairV { price: w.pair.price, ..v.pair },
                            ..v
                        })
                        &&& w.pair.price == v.pair.price || exists|i: int| #[trigger]
                            runs_at(r, v.contract_slave_id, i) && r.masters[i].core.sheet.dom().contains(
                                key,
                            ) && w.pair.price == r.masters[i].balance(key)
                        &&& forall|i: int| #[trigger]
                            runs_at(r, v.contract_slave_id, i)
                                && r.masters[i].core.sheet.dom().contains(key) ==> w.pair.price
                                == r.masters[i].balance(key)
                    }
                },
                _ => b == a,
            }
        }),
{
    let a = r.ledger.node(id);
    assert(r.prices_taken().node(id) == r.quoted(a));
    if let KindV::Virtual(v) = a.kind {
        if r.is_slave(v.contract_slave_id) {
            assert(runs_at(
                r,
                v.contract_slave_id,
                r.slave_to_master[v.contract_slave_id] as int,
            ));
        }
    }
}

/// Whether no two nodes are of one contract.
pub open spec fn one_node_each<L>(r: RpteV<L>) -> bool {
    forall|a: usize, b: usize|
        r.slave_to_master.dom().contains(a) && r.slave_to_master.dom().contains(b) && a != b
            ==> #[trigger] r.slave_to_master[a] != #[trigger] r.slave_to_master[b]
}

proof fn lemma_returned<L: ContractLogic>(r: RpteV<L>, k: nat)
    requires
        k <= r.ledger.nodes.len(),
        r.ledger.nodes.len() <= usize::MAX,
        one_node_each(r),
    ensures
        ({
            let n = r.balances_returned(k);
            &&& n == (RpteV { ledger: n.ledger, masters: n.masters, ..r })
            &&& n.masters.len() == r.masters.len()
            &&& n.ledger == (LedgerV { nodes: n.ledger.nodes, ..r.ledger })
            &&& n.ledger.nodes.len() == r.ledger.nodes.len()
            &&& forall|id: usize|
                r.ledger.has(id) ==> if id < k && r.is_slave(id) {
                    (#[trigger] n.ledger.node(id)).core.sheet == Map::<usize, Decimal>::empty()
                } else {
                    n.ledger.node(id) == r.ledger.node(id)
                }
            &&& forall|id: usize|
                r.is_slave(id) ==> if id < k {
                    overlaid(r.master(id), r.ledger.node(id), #[trigger] n.master(id))
                } else {
                    n.master(id) == r.master(id)
                }
        }),
    decreases k,
{
    if k > 0 {
        lemma_returned(r, (k - 1) as nat);
        let a = r.balances_returned((k - 1) as nat);
        let n = r.balances_returned(k);
        let last = (k - 1) as usize;
        if r.is_slave(last) {
            assert(a.ledger.node(last) == r.ledger.node(last));
            assert(a.master(last) == r.master(last));
        }
        assert forall|id: usize| r.ledger.has(id) implies if id < k && r.is_slave(id) {
            (#[trigger] n.ledger.node(id)).core.sheet == Map::<usize, Decimal>::empty()
        } else {
            n.ledger.node(id) == r.ledger.node(id)
        } by {
            assert(a.ledger.has(id));
            assert(id != last ==> n.ledger.node(id) == a.ledger.node(id));
            assert(id == last && !r.is_slave(last) ==> n.ledger.node(id) == a.ledger.node(id));
        }
        assert forall|id: usize| r.is_slave(id) implies if id < k {
            overlaid(r.master(id), r.ledger.node(id), #[trigger] n.master(id))
        } else {
            n.master(id) == r.master(id)
        } by {
            assert(a.master(id) == a.master(id));
            if id == last {
                assert(overlaid(r.master(id), r.ledger.node(id), n.master(id)));
            } else {
                assert(r.is_slave(last) ==> r.slave_to_master[id] != r.slave_to_master[last]);
                assert(n.master(id) == a.master(id));
            }
        }
    }
}

/// At the end of a frame the contract keeps what its node has got, where that has anything, and the
/// node is left with nothing.
pub proof fn law_balances_returned<L: ContractLogic>(r: RpteV<L>, id: usize, i: int)
    requires
        r.ledger.has(id),
        r.ledger.nodes.len() <= usize::MAX,
        one_node_each(r),
        runs_at(r, id, i),
    ensures
        ({
            let n = r.balances_returned(r.ledger.nodes.len());
            &&& overlaid(r.masters[i], r.ledger.node(id), n.masters[i])
            &&& forall|t: usize| (#[trigger] n.ledger.node(id).balance(t)).val() == 0
        }),
{
    Decimal::lemma_zero();
    lemma_returned(r, r.ledger.nodes.len());
    let n = r.balances_returned(r.ledger.nodes.len());
    assert(r.is_slave(id));
    assert(n.master(id) == n.masters[i]);
    assert(n.ledger.node(id) == n.ledger.node(id));
}

proof fn lemma_recycled<L: ContractLogic>(r: RpteV<L>, k: nat)
    requires
        k <= r.ledger.nodes.len(),
        r.ledger.nodes.len() <= usize::MAX,
    ensures
        ({
            let n = r.contracts_recycled(k);
            &&& n == (RpteV {
                slave_to_master: n.slave_to_master,
                contract_pool: n.contract_pool,
                ..r
            })
            &&& forall|id: usize| #[trigger]
                n.slave_to_master.dom().contains(id) <==> r.slave_to_master.dom().contains(id) && !(
                id < k && r.is_slave(id) && r.master(id).contract().state
                    == ContractState::Destroyed)
            &&& forall|id: usize| #[trigger]
                n.slave_to_master.dom().contains(id) ==> n.slave_to_master[id]
                    == r.slave_to_master[id]
            &&& forall|id: usize| #[trigger]
                n.contract_pool.contains(id) <==> r.contract_pool.contains(id) || (id < k
                    && r.is_slave(id) && r.master(id).contract().state == ContractState::Destroyed)
        }),
    decreases k,
{
    if k > 0 {
        lemma_recycled(r, (k - 1) as nat);
        let a = r.contracts_recycled((k - 1) as nat);
        let n = r.contracts_recycled(k);
        let last = (k - 1) as usize;
        assert(a.slave_to_master.dom().contains(last) <==> r.slave_to_master.dom().contains(last));
        if n.contract_pool != a.contract_pool {
            assert(n.contract_pool == a.contract_pool.push(last));
            assert forall|id: usize| #[trigger]
                n.contract_pool.contains(id) <==> a.contract_pool.contains(id) || id == last by {
                if a.contract_pool.contains(id) {
                    let j = choose|j: int|
                        0 <= j < a.contract_pool.len() && a.contract_pool[j] == id;
                    assert(n.contract_pool[j] == id);
                }
                if id == last {
                    assert(n.contract_pool[a.contract_pool.len() as int] == id);
                }
            }
        }
    }
}

/// The node of a contract that is over is not its node any more and may become that of another one;
/// the node of any other contract stays what it is.
pub proof fn law_contracts_recycled<L: ContractLogic>(r: RpteV<L>, id: usize, i: int)
    requires
        r.ledger.nodes.len() <= usize::MAX,
        r.ledger.has(id),
        runs_at(r, id, i),
    ensures
        ({
            let n = r.contracts_recycled(r.ledger.nodes.len());
            if r.masters[i].contract().state == ContractState::Destroyed {
                &&& !n.slave_to_master.dom().contains(id)
                &&& n.contract_pool.contains(id)
            } else {
                &&& runs_at(n, id, i)
                &&& n.contract_pool.contains(id) == r.contract_pool.contains(id)
            }
        }),
{
    lemma_recycled(r, r.ledger.nodes.len());
    let n = r.contracts_recycled(r.ledger.nodes.len());
    assert(r.is_slave(id));
    assert(r.master(id) == r.masters[i]);
    assert(n.slave_to_master.dom().contains(id) <==> r.masters[i].contract().state
        != ContractState::Destroyed);
    assert(n.contract_pool.contains(id) <==> r.contract_pool.contains(id)
        || r.masters[i].contract().state == ContractState::Destroyed);
}

} // verus!
