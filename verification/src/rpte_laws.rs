//! What holds of the engine from frame to frame.

use crate::contract::ContractLogic;
use crate::decimal::Decimal;
use crate::ledger_laws::law_token_registered;
use crate::ledger_model::LedgerV;
use crate::message_laws::{all_tame, law_pairs_send, tame};
use crate::order::{OrderType, OrderV};
use crate::node::{ContractState, KindV, MsgV, NodeV, SwapTransfer};
use crate::rpte_model::{sent, RpteV, SwapGroup};
use vstd::prelude::*;

verus! {

// ---- what stays ----

/// Whether one ledger may come after another one in a frame: nodes, tokens and pairs are added and
/// never taken away, tokens stay tokens with ids and names of their own, and the number of the
/// frame, the precision, the quote token and the accounts are the same.
pub open spec fn grown(l: LedgerV, m: LedgerV) -> bool {
    &&& l.nodes.len() <= m.nodes.len()
    &&& l.tokens.is_prefix_of(m.tokens)
    &&& l.pairs.is_prefix_of(m.pairs)
    &&& m.accounts == l.accounts
    &&& m.step_count == l.step_count
    &&& m.precision == l.precision
    &&& m.quote == l.quote
    &&& m.max_tra_log_length == l.max_tra_log_length
    &&& forall|id: usize| #[trigger] l.token(id) is Some ==> m.token(id) is Some
    &&& l.tokens_wf() && m.nodes.len() <= usize::MAX ==> m.tokens_wf()
}

/// Whether one ledger may come after another one while nothing is issued, no token is set up and
/// no contract made: besides, tokens are what they were, and nodes have sent nothing but what
/// pairs send.
pub open spec fn calm(l: LedgerV, m: LedgerV) -> bool {
    &&& grown(l, m)
    &&& m.tokens == l.tokens
    &&& forall|id: usize| #[trigger] l.token(id) is Some ==> m.token(id) == l.token(id)
    &&& nodes_tame(l) ==> nodes_tame(m)
}

/// Whether nodes have sent nothing but what pairs send.
pub open spec fn nodes_tame(l: LedgerV) -> bool {
    forall|i: int| 0 <= i < l.nodes.len() ==> all_tame((#[trigger] l.nodes[i]).core.msgs)
}

/// Whether a message moves money or asks for an order.
pub open spec fn plain(m: MsgV) -> bool {
    tame(m) || m is Transfer || m is TransferAll || m is OpenOrder || m is SwapOrder
}

/// Whether all messages move money or ask for orders.
pub open spec fn all_plain(msgs: Seq<MsgV>) -> bool {
    forall|i: int| 0 <= i < msgs.len() ==> plain(#[trigger] msgs[i])
}

/// Whether a message moves money, asks for an order or issues a token, and takes nothing below
/// zero.
pub open spec fn mild(m: MsgV) -> bool {
    match m {
        MsgV::Transfer { allow_negative, .. } => !allow_negative,
        MsgV::Issue { volume, .. } => volume.valid() && volume.val() >= 0,
        _ => plain(m),
    }
}

/// Whether all messages move money, ask for orders or issue tokens, and take nothing below zero.
pub open spec fn all_mild(msgs: Seq<MsgV>) -> bool {
    forall|i: int| 0 <= i < msgs.len() ==> mild(#[trigger] msgs[i])
}

/// Whether one ledger may come after another one while no token is set up and no contract made:
/// the same tokens may be negative, and nodes have sent nothing but what pairs send.
pub open spec fn steady(l: LedgerV, m: LedgerV) -> bool {
    &&& forall|id: usize| #[trigger]
        l.token(id) is Some ==> m.token(id) is Some && m.can_be_negative(id) == l.can_be_negative(id)
    &&& nodes_tame(l) ==> nodes_tame(m)
}

pub(crate) proof fn lemma_calm_twice(a: LedgerV, b: LedgerV, c: LedgerV)
    requires
        calm(a, b),
        calm(b, c),
    ensures
        calm(a, c),
{
    lemma_grown_twice(a, b, c);
}

pub(crate) proof fn lemma_grown_twice(a: LedgerV, b: LedgerV, c: LedgerV)
    requires
        grown(a, b),
        grown(b, c),
    ensures
        grown(a, c),
{
}

proof fn lemma_noted_grown(l: LedgerV, id: usize)
    ensures
        calm(l, l.order_noted(id)),
{
}

pub(crate) proof fn lemma_transfer_grown(
    l: LedgerV,
    src: usize,
    dst: usize,
    token: usize,
    volume: Decimal,
    allow_negative: bool,
)
    requires
        l.transfer_noted(src, dst, token, volume, allow_negative) is Some,
    ensures
        calm(l, l.transfer_noted(src, dst, token, volume, allow_negative)->0),
{
    let a = match l.transferred(src, dst, token, volume, allow_negative)->0 {
        Ok(m) => m,
        Err(_) => l,
    };
    assert(calm(l, a));
    lemma_noted_grown(a, src);
    lemma_noted_grown(a.order_noted(src), dst);
}

pub(crate) proof fn lemma_transfer_all_grown(l: LedgerV, src: usize, dst: usize)
    requires
        l.transfer_all_noted(src, dst) is Some,
    ensures
        calm(l, l.transfer_all_noted(src, dst)->0),
{
    let a = match l.all_transferred(src, dst)->0 {
        Ok(m) => m,
        Err(_) => l,
    };
    assert(calm(l, a));
    lemma_noted_grown(a, src);
    lemma_noted_grown(a.order_noted(src), dst);
}

pub(crate) proof fn lemma_transfers_grown(l: LedgerV, msgs: Seq<MsgV>, k: nat)
    requires
        k <= msgs.len(),
        l.transfers_done(msgs, k) is Some,
    ensures
        calm(l, l.transfers_done(msgs, k)->0),
    decreases k,
{
    if k > 0 {
        lemma_transfers_grown(l, msgs, (k - 1) as nat);
        let m = l.transfers_done(msgs, (k - 1) as nat)->0;
        match msgs[k - 1] {
            MsgV::Transfer { src_id, dst_id, token, volume, allow_negative } => {
                lemma_transfer_grown(m, src_id, dst_id, token, volume, allow_negative);
            },
            MsgV::TransferAll { src_id, dst_id } => {
                lemma_transfer_all_grown(m, src_id, dst_id);
            },
            _ => {},
        }
    }
}

pub(crate) proof fn lemma_closed_grown(l: LedgerV, id: usize)
    requires
        l.order_closed(id) is Some,
    ensures
        calm(l, l.order_closed(id)->0),
{
}

pub(crate) proof fn lemma_closes_grown(l: LedgerV, msgs: Seq<MsgV>, k: nat)
    requires
        k <= msgs.len(),
        l.closes_done(msgs, k) is Some,
    ensures
        calm(l, l.closes_done(msgs, k)->0),
    decreases k,
{
    if k > 0 {
        lemma_closes_grown(l, msgs, (k - 1) as nat);
        let m = l.closes_done(msgs, (k - 1) as nat)->0;
        match msgs[k - 1] {
            MsgV::CloseOrder { order_id } => {
                lemma_closed_grown(m, order_id);
            },
            _ => {},
        }
    }
}

pub(crate) proof fn lemma_settled_grown(l: LedgerV, transfers: Seq<SwapTransfer>, k: nat)
    requires
        k <= transfers.len(),
        l.swaps_settled(transfers, k) is Some,
    ensures
        calm(l, l.swaps_settled(transfers, k)->0),
    decreases k,
{
    if k > 0 {
        lemma_settled_grown(l, transfers, (k - 1) as nat);
        let t = transfers[k - 1];
        lemma_transfer_grown(
            l.swaps_settled(transfers, (k - 1) as nat)->0,
            t.src_id,
            t.dst_id,
            t.token,
            t.volume,
            false,
        );
    }
}

proof fn lemma_placed_grown(l: LedgerV, id: usize, pair_id: usize, owner: usize)
    requires
        l.order_placed(id, pair_id, owner) is Some,
        l.order(id) matches Ok(o) && o.pair_node_id == pair_id,
    ensures
        calm(l, l.order_placed(id, pair_id, owner)->0),
{
    if let Ok(brief) = l.order_brief(id) {
        let n = l.node(pair_id).brief_inserted(brief, l.precision)->0;
        let m = l.with_node(pair_id, n);
        assert forall|x: usize| #[trigger] l.token(x) is Some implies m.token(x) == l.token(x) by {
            assert(x != pair_id);
        }
        assert(nodes_tame(l) ==> nodes_tame(m)) by {
            if nodes_tame(l) {
                assert(all_tame(l.nodes[pair_id as int].core.msgs));
                law_pairs_send(
                    l.node(pair_id),
                    brief,
                    owner,
                    brief.direction,
                    brief.src_volume,
                    Seq::empty(),
                    l.precision,
                );
            }
        }
        assert(calm(l, m));
        let k = m.with_account_order(owner, id);
        assert(calm(m, k));
        lemma_calm_twice(l, m, k);
    }
}

proof fn lemma_opened_grown(
    l: LedgerV,
    src_id: usize,
    owner: usize,
    src_token: usize,
    dst_token: usize,
    volume: Decimal,
    price: Decimal,
)
    requires
        l.order_opened(src_id, owner, src_token, dst_token, volume, price) is Some,
    ensures
        calm(l, l.order_opened(src_id, owner, src_token, dst_token, volume, price)->0),
{
    if volume.val() == 0 || price.val() == 0 || l.lacks(src_id, src_token, volume) {
    } else if let Ok((l0, pair_id, _)) = l.pair_for(src_token, dst_token) {
        assert(calm(l, l0));
        let (l1, id) = l0.order_taken();
        assert(calm(l0, l1));
        lemma_calm_twice(l, l0, l1);
        if l1.order(id) is Ok && owner != l1.node(id).core.id {
            let o = OrderV {
                owner_node_id: owner,
                pair_node_id: pair_id,
                src_token,
                dst_token,
                price,
                step_count_created: l1.step_count,
                openning: true,
                order_type: OrderType::Make,
            };
            let l2 = l1.with_node(id, NodeV { kind: KindV::Order(o), ..l1.node(id) });
            assert(calm(l1, l2));
            lemma_calm_twice(l, l1, l2);
            let l3 = match l2.transferred(src_id, id, src_token, volume, false)->0 {
                Ok(m) => m,
                Err(_) => l2,
            };
            assert(calm(l2, l3));
            lemma_calm_twice(l, l2, l3);
            assert(l3.order(id) == Ok::<OrderV, crate::error::Error>(o));
            lemma_placed_grown(l3, id, pair_id, owner);
            lemma_calm_twice(l, l3, l3.order_placed(id, pair_id, owner)->0);
        }
    }
}

pub(crate) proof fn lemma_created_grown<L: ContractLogic>(
    r: RpteV<L>,
    owner: usize,
    name: Seq<char>,
    program: usize,
)
    ensures
        grown(r.ledger, r.contract_created(owner, name, program).ledger),
{
}

pub(crate) proof fn lemma_issued_grown(l: LedgerV, id: usize, token: usize, amount: Decimal)
    requires
        l.issued(id, token, amount) matches Some(Ok(_)),
    ensures
        grown(l, l.issued(id, token, amount)->0->Ok_0),
{
}

proof fn lemma_set_up_grown(
    l: LedgerV,
    name: Seq<char>,
    can_be_negative: bool,
    not_tradable: bool,
    anchor: Option<usize>,
    whitelist: Seq<usize>,
)
    ensures
        grown(l, l.token_set_up(name, can_be_negative, not_tradable, anchor, whitelist)),
{
    let a = l.token_registered(name).0;
    let m = l.token_set_up(name, can_be_negative, not_tradable, anchor, whitelist);
    lemma_registered_grown(l, name);
    assert forall|id: usize| #[trigger] a.token(id) is Some implies m.token(id) is Some by {}
    assert(grown(a, m));
    lemma_grown_twice(l, a, m);
}

pub(crate) proof fn lemma_registered_grown(l: LedgerV, name: Seq<char>)
    ensures
        grown(l, l.token_registered(name).0),
{
    let m = l.token_registered(name).0;
    if l.tokens_wf() && m.nodes.len() <= usize::MAX && l.token_by_name(name) is None {
        law_token_registered(l, name, name);
    }
}

proof fn lemma_asked_grown(
    l: LedgerV,
    owner: usize,
    src_token: usize,
    dst_token: usize,
    volume: Decimal,
)
    ensures
        calm(l, l.swap_asked(owner, src_token, dst_token, volume).0),
{
    match l.pair_for(src_token, dst_token) {
        Ok((m, _, _)) => {
            assert(calm(l, m));
        },
        Err(_) => {},
    }
}

proof fn lemma_made_grown(
    l: LedgerV,
    slave: usize,
    fn_id: u8,
    quote_token: usize,
    base: usize,
    swap_only: bool,
)
    ensures
        grown(l, l.virtual_pair_made(slave, fn_id, quote_token, base, swap_only)),
{
}

pub(crate) proof fn lemma_fee_grown(l: LedgerV, id: usize, fee: Option<crate::fee::FeeFn>)
    ensures
        grown(l, l.fee_set(id, fee)),
{
}

#[verifier::spinoff_prover]
#[verifier::rlimit(40)]
pub(crate) proof fn lemma_handled_grown<L: ContractLogic>(r: RpteV<L>, groups: Seq<SwapGroup>, m: MsgV)
    requires
        r.handled(groups, m) is Some,
    ensures
        grown(r.ledger, (r.handled(groups, m)->0).0.ledger),
        plain(m) && r.slave_to_master == Map::<usize, usize>::empty() ==> calm(
            r.ledger,
            (r.handled(groups, m)->0).0.ledger,
        ) && (r.handled(groups, m)->0).0.slave_to_master == r.slave_to_master,
{
    match m {
        MsgV::OpenOrder { src_id, owner_node_id, src_token, dst_token, volume, price } => {
            lemma_opened_grown(
                r.ledger,
                src_id,
                owner_node_id,
                src_token,
                dst_token,
                volume,
                price,
            );
        },
        MsgV::SwapOrder { src_id, owner_node_id, src_token, dst_token, volume } => {
            lemma_asked_grown(r.ledger, owner_node_id, src_token, dst_token, volume);
        },
        MsgV::CreateContract { owner_node_id, name, program } => {
            lemma_created_grown(r, owner_node_id, name, program);
        },
        MsgV::RegisterToken {
            name,
            can_be_negative,
            not_tradable,
            virtual_anchor,
            swap_whitelist,
        } => {
            lemma_set_up_grown(
                r.ledger,
                name,
                can_be_negative,
                not_tradable,
                virtual_anchor,
                swap_whitelist,
            );
        },
        MsgV::CreateVirtualPair {
            contract_slave_id,
            fn_id,
            quote_token,
            base_token_name,
            swap_only,
        } => {
            if let Some(base) = r.ledger.token_by_name(base_token_name) {
                lemma_made_grown(
                    r.ledger,
                    contract_slave_id,
                    fn_id,
                    quote_token,
                    base,
                    swap_only,
                );
            }
        },
        MsgV::CallContract { src_id, contract_id, fn_id, volume } => {
            assert((r.contract_called(src_id, contract_id, fn_id, volume)->0).ledger == r.ledger);
        },
        MsgV::Issue { token, account_id, volume } => {
            if let Some(Ok(_)) = r.ledger.issued(account_id, token, volume) {
                lemma_issued_grown(r.ledger, account_id, token, volume);
            }
        },
        MsgV::SetPairFee { pair_id, fee_fn } => {
            lemma_fee_grown(r.ledger, pair_id, fee_fn);
        },
        _ => {},
    }
}

pub(crate) proof fn lemma_others_grown<L: ContractLogic>(r: RpteV<L>, msgs: Seq<MsgV>, k: nat)
    requires
        k <= msgs.len(),
        r.others_done(msgs, k) is Some,
    ensures
        grown(r.ledger, (r.others_done(msgs, k)->0).0.ledger),
        all_plain(msgs) && r.slave_to_master == Map::<usize, usize>::empty() ==> calm(
            r.ledger,
            (r.others_done(msgs, k)->0).0.ledger,
        ) && (r.others_done(msgs, k)->0).0.slave_to_master == r.slave_to_master,
    decreases k,
{
    if k > 0 {
        lemma_others_grown(r, msgs, (k - 1) as nat);
        let (m, groups) = r.others_done(msgs, (k - 1) as nat)->0;
        let n = (r.others_done(msgs, k)->0).0;
        lemma_handled_grown(m, groups, msgs[k - 1]);
        lemma_grown_twice(r.ledger, m.ledger, n.ledger);
        if all_plain(msgs) && r.slave_to_master == Map::<usize, usize>::empty() {
            assert(plain(msgs[k - 1]));
            lemma_calm_twice(r.ledger, m.ledger, n.ledger);
        }
    }
}

pub(crate) proof fn lemma_group_grown<L: ContractLogic>(r: RpteV<L>, g: SwapGroup)
    requires
        r.group_done(g) is Some,
    ensures
        calm(r.ledger, (r.group_done(g)->0).ledger),
{
    if r.ledger.pair(g.pair_id) is Ok {
        let out = if g.swaps.len() == 1 {
            r.ledger.node(g.pair_id).swap_processed(
                g.swaps[0].0,
                g.direction,
                g.swaps[0].1,
                r.ledger.precision,
            )
        } else {
            r.ledger.node(g.pair_id).swaps_processed(g.direction, g.swaps, r.ledger.precision)
        };
        let (n, transfers, closes) = out->0;
        let l = r.ledger.with_node(g.pair_id, n);
        assert forall|id: usize| #[trigger] r.ledger.token(id) is Some implies l.token(id)
            is Some by {
            assert(id != g.pair_id);
        }
        assert(nodes_tame(r.ledger) ==> nodes_tame(l)) by {
            if nodes_tame(r.ledger) {
                assert(all_tame(r.ledger.nodes[g.pair_id as int].core.msgs));
                law_pairs_send(
                    r.ledger.node(g.pair_id),
                    arbitrary(),
                    g.swaps[0].0,
                    g.direction,
                    g.swaps[0].1,
                    g.swaps,
                    r.ledger.precision,
                );
            }
        }
        assert(calm(r.ledger, l));
        lemma_settled_grown(l, transfers, transfers.len());
        lemma_calm_twice(r.ledger, l, (r.group_done(g)->0).ledger);
    }
}

pub(crate) proof fn lemma_groups_grown<L: ContractLogic>(r: RpteV<L>, groups: Seq<SwapGroup>, k: nat)
    requires
        k <= groups.len(),
        r.groups_done(groups, k) is Some,
    ensures
        calm(r.ledger, (r.groups_done(groups, k)->0).ledger),
    decreases k,
{
    if k > 0 {
        lemma_groups_grown(r, groups, (k - 1) as nat);
        lemma_group_grown(r.groups_done(groups, (k - 1) as nat)->0, groups[k - 1]);
    }
}

pub(crate) proof fn lemma_collected_grown(l: LedgerV)
    ensures
        calm(l, l.collected()),
{
    let m = l.collected();
    assert forall|id: usize| #[trigger] l.token(id) is Some implies m.token(id) is Some by {
        assert(m.nodes[id as int] == l.nodes[id as int].updated(l.step_count).emptied());
    }
}

pub(crate) proof fn lemma_round_grown<L: ContractLogic>(r: RpteV<L>, msgs: Seq<MsgV>)
    requires
        r.round_done(msgs) is Some,
    ensures
        grown(r.ledger, (r.round_done(msgs)->0).0.ledger),
{
    let l1 = r.ledger.transfers_done(msgs, msgs.len())->0;
    lemma_transfers_grown(r.ledger, msgs, msgs.len());
    let l2 = l1.closes_done(msgs, msgs.len())->0;
    lemma_closes_grown(l1, msgs, msgs.len());
    lemma_grown_twice(r.ledger, l1, l2);
    let r2 = RpteV { ledger: l2, ..r };
    lemma_others_grown(r2, msgs, msgs.len());
    let (r3, groups) = r2.others_done(msgs, msgs.len())->0;
    lemma_grown_twice(r.ledger, l2, r3.ledger);
    lemma_groups_grown(r3, groups, groups.len());
    let n = r3.groups_done(groups, groups.len())->0;
    lemma_grown_twice(r.ledger, r3.ledger, n.ledger);
    lemma_collected_grown(n.ledger);
    lemma_grown_twice(r.ledger, n.ledger, n.ledger.collected());
}

pub(crate) proof fn lemma_sent_tame(nodes: Seq<NodeV>, k: nat)
    requires
        k <= nodes.len(),
        forall|i: int| 0 <= i < nodes.len() ==> all_tame((#[trigger] nodes[i]).core.msgs),
    ensures
        all_tame(sent(nodes, k)),
    decreases k,
{
    if k > 0 {
        lemma_sent_tame(nodes, (k - 1) as nat);
    }
}

proof fn lemma_groups_keep<L: ContractLogic>(r: RpteV<L>, groups: Seq<SwapGroup>, k: nat)
    requires
        r.groups_done(groups, k) is Some,
    ensures
        (r.groups_done(groups, k)->0).slave_to_master == r.slave_to_master,
    decreases k,
{
    if k > 0 {
        lemma_groups_keep(r, groups, (k - 1) as nat);
    }
}

/// Without contracts, a round of messages that move money or ask for orders leads to such
/// messages only.
pub(crate) proof fn lemma_round_calm<L: ContractLogic>(r: RpteV<L>, msgs: Seq<MsgV>)
    requires
        r.round_done(msgs) is Some,
        all_plain(msgs),
        nodes_tame(r.ledger),
        r.slave_to_master == Map::<usize, usize>::empty(),
    ensures
        calm(r.ledger, (r.round_done(msgs)->0).0.ledger),
        nodes_tame((r.round_done(msgs)->0).0.ledger),
        (r.round_done(msgs)->0).0.slave_to_master == r.slave_to_master,
        all_plain((r.round_done(msgs)->0).1),
{
    let l1 = r.ledger.transfers_done(msgs, msgs.len())->0;
    lemma_transfers_grown(r.ledger, msgs, msgs.len());
    let l2 = l1.closes_done(msgs, msgs.len())->0;
    lemma_closes_grown(l1, msgs, msgs.len());
    lemma_calm_twice(r.ledger, l1, l2);
    let r2 = RpteV { ledger: l2, ..r };
    lemma_others_grown(r2, msgs, msgs.len());
    let (r3, groups) = r2.others_done(msgs, msgs.len())->0;
    lemma_calm_twice(r.ledger, l2, r3.ledger);
    lemma_groups_grown(r3, groups, groups.len());
    lemma_groups_keep(r3, groups, groups.len());
    let n = r3.groups_done(groups, groups.len())->0;
    lemma_calm_twice(r.ledger, r3.ledger, n.ledger);
    lemma_collected_grown(n.ledger);
    lemma_calm_twice(r.ledger, n.ledger, n.ledger.collected());
    lemma_sent_tame(n.ledger.nodes, n.ledger.nodes.len());
}

pub(crate) proof fn lemma_others_steady<L: ContractLogic>(r: RpteV<L>, msgs: Seq<MsgV>, k: nat)
    requires
        k <= msgs.len(),
        all_mild(msgs),
        r.slave_to_master == Map::<usize, usize>::empty(),
        r.others_done(msgs, k) is Some,
    ensures
        steady(r.ledger, (r.others_done(msgs, k)->0).0.ledger),
        (r.others_done(msgs, k)->0).0.slave_to_master == r.slave_to_master,
    decreases k,
{
    if k > 0 {
        lemma_others_steady(r, msgs, (k - 1) as nat);
        let (m, groups) = r.others_done(msgs, (k - 1) as nat)->0;
        let n = (r.others_done(msgs, k)->0).0;
        assert(mild(msgs[k - 1]));
        lemma_handled_grown(m, groups, msgs[k - 1]);
        assert(steady(m.ledger, n.ledger));
    }
}

/// Without contracts, a round of messages that move money, ask for orders or issue tokens leads to
/// messages that move money or ask for orders.
pub(crate) proof fn lemma_round_steady<L: ContractLogic>(r: RpteV<L>, msgs: Seq<MsgV>)
    requires
        r.round_done(msgs) is Some,
        all_mild(msgs),
        nodes_tame(r.ledger),
        r.slave_to_master == Map::<usize, usize>::empty(),
    ensures
        steady(r.ledger, (r.round_done(msgs)->0).0.ledger),
        nodes_tame((r.round_done(msgs)->0).0.ledger),
        (r.round_done(msgs)->0).0.slave_to_master == r.slave_to_master,
        all_tame((r.round_done(msgs)->0).1),
{
    let l1 = r.ledger.transfers_done(msgs, msgs.len())->0;
    lemma_transfers_grown(r.ledger, msgs, msgs.len());
    let l2 = l1.closes_done(msgs, msgs.len())->0;
    lemma_closes_grown(l1, msgs, msgs.len());
    lemma_calm_twice(r.ledger, l1, l2);
    let r2 = RpteV { ledger: l2, ..r };
    assert(steady(r.ledger, l2));
    lemma_others_steady(r2, msgs, msgs.len());
    let (r3, groups) = r2.others_done(msgs, msgs.len())->0;
    assert(steady(r.ledger, r3.ledger));
    lemma_groups_grown(r3, groups, groups.len());
    lemma_groups_keep(r3, groups, groups.len());
    let n = r3.groups_done(groups, groups.len())->0;
    lemma_collected_grown(n.ledger);
    lemma_calm_twice(r3.ledger, n.ledger, n.ledger.collected());
    assert(steady(r3.ledger, n.ledger.collected()));
    lemma_sent_tame(n.ledger.nodes, n.ledger.nodes.len());
}

pub(crate) proof fn lemma_rounds_grown<L: ContractLogic>(r: RpteV<L>, msgs: Seq<MsgV>, rounds: nat)
    requires
        r.rounds_done(msgs, rounds) is Some,
    ensures
        grown(r.ledger, (r.rounds_done(msgs, rounds)->0).ledger),
    decreases rounds,
{
    if msgs.len() > 0 && rounds > 0 {
        let (n, more) = r.round_done(msgs)->0;
        lemma_round_grown(r, msgs);
        lemma_rounds_grown(n, more, (rounds - 1) as nat);
        lemma_grown_twice(r.ledger, n.ledger, (r.rounds_done(msgs, rounds)->0).ledger);
    }
}

pub(crate) proof fn lemma_contracts_keep<L: ContractLogic>(r: RpteV<L>, k: nat)
    requires
        k <= r.masters.len(),
        r.contracts_stepped(k) is Some,
    ensures
        ({
            let n = (r.contracts_stepped(k)->0).0;
            n.ledger == r.ledger && n.masters.len() == r.masters.len() && n.programs == r.programs
                && n.running == r.running && n.msgs == r.msgs && n.slave_to_master
                == r.slave_to_master
        }),
    decreases k,
{
    if k > 0 {
        lemma_contracts_keep(r, (k - 1) as nat);
    }
}

pub(crate) proof fn lemma_lent_grown<L: ContractLogic>(r: RpteV<L>, k: nat)
    requires
        k <= r.ledger.nodes.len(),
    ensures
        grown(r.ledger, r.balances_lent(k)),
        r.balances_lent(k).nodes.len() == r.ledger.nodes.len(),
    decreases k,
{
    if k > 0 {
        lemma_lent_grown(r, (k - 1) as nat);
    }
}

pub(crate) proof fn lemma_returned_grown<L: ContractLogic>(r: RpteV<L>, k: nat)
    requires
        k <= r.ledger.nodes.len(),
    ensures
        grown(r.ledger, r.balances_returned(k).ledger),
        r.balances_returned(k).ledger.nodes.len() == r.ledger.nodes.len(),
    decreases k,
{
    if k > 0 {
        lemma_returned_grown(r, (k - 1) as nat);
    }
}

proof fn lemma_recycled_keeps<L: ContractLogic>(r: RpteV<L>, k: nat)
    ensures
        r.contracts_recycled(k).ledger == r.ledger,
    decreases k,
{
    if k > 0 {
        lemma_recycled_keeps(r, (k - 1) as nat);
    }
}

pub(crate) proof fn lemma_begun_grown<L: ContractLogic>(r: RpteV<L>)
    requires
        r.frame_begun() is Some,
    ensures
        grown(r.ledger, (r.frame_begun()->0).0.ledger),
        (r.frame_begun()->0).0.ledger.nodes.len() == r.ledger.nodes.len(),
        (r.frame_begun()->0).0.slave_to_master == r.slave_to_master,
{
    let r0 = RpteV { msgs: Seq::empty(), ..r };
    lemma_contracts_keep(r0, r.masters.len());
    let (r1, out) = r0.contracts_stepped(r.masters.len())->0;
    lemma_lent_grown(r1, r1.ledger.nodes.len());
    let r2 = RpteV { ledger: r1.balances_lent(r1.ledger.nodes.len()), ..r1 };
    let l3 = r2.prices_taken();
    assert forall|id: usize| #[trigger] r2.ledger.token(id) is Some implies l3.token(id)
        is Some by {
        assert(l3.nodes[id as int] == r2.quoted(r2.ledger.nodes[id as int]));
    }
    assert(grown(r2.ledger, l3));
    lemma_grown_twice(r.ledger, r2.ledger, l3);
    lemma_collected_grown(l3);
    lemma_grown_twice(r.ledger, l3, l3.collected());
}

/// A frame counts itself. Nodes, tokens and pairs that are registered stay so under their ids, and
/// the precision, the quote token and the accounts stay what they are.
pub proof fn law_frame<L: ContractLogic>(r: RpteV<L>)
    requires
        r.stepped() is Some,
    ensures
        ({
            let n = (r.stepped()->0).ledger;
            &&& n.step_count == r.ledger.step_count + 1
            &&& grown(r.ledger, LedgerV { step_count: r.ledger.step_count, ..n })
        }),
{
    lemma_begun_grown(r);
    let (b, msgs) = r.frame_begun()->0;
    let e = b.rounds_done(msgs, crate::rpte_model::FRAME_ROUNDS as nat)->0;
    lemma_rounds_grown(b, msgs, crate::rpte_model::FRAME_ROUNDS as nat);
    lemma_grown_twice(r.ledger, b.ledger, e.ledger);
    let f = e.balances_returned(e.ledger.nodes.len());
    let n = RpteV {
        ledger: LedgerV { step_count: (f.ledger.step_count + 1) as u64, ..f.ledger },
        ..f
    };
    lemma_recycled_keeps(n, n.ledger.nodes.len());
    lemma_returned_grown(e, e.ledger.nodes.len());
    lemma_grown_twice(r.ledger, e.ledger, f.ledger);
    let kept = LedgerV { step_count: r.ledger.step_count, ..n.ledger };
    assert(kept =~= f.ledger);
}

// ---- tokens ----

/// The tokens of a new engine have ids and names of their own, and their nodes are tokens.
pub proof fn law_first_token<L>(quote_name: Seq<char>, precision: u8)
    ensures
        RpteV::<L>::fresh(quote_name, precision).ledger.tokens_wf(),
{
    let l = LedgerV::empty(crate::rpte_model::log_limit(), precision);
    law_token_registered(l, quote_name, quote_name);
    let m = RpteV::<L>::fresh(quote_name, precision).ledger;
    assert(m.tokens == l.token_registered(quote_name).0.tokens);
    assert(m.nodes == l.token_registered(quote_name).0.nodes);
}

/// Whatever is asked of an engine between frames, its tokens keep ids and names of their own, and
/// their nodes stay tokens.
pub proof fn law_tokens_between_frames(
    l: LedgerV,
    name: Seq<char>,
    token: usize,
    can_be_negative: bool,
    n: NodeV,
    id: usize,
    fee: Option<crate::fee::FeeFn>,
    amount: Decimal,
    src: usize,
    dst: usize,
)
    requires
        l.tokens_wf(),
        l.nodes.len() < usize::MAX,
    ensures
        l.token_registered(name).0.tokens_wf(),
        l.negative_set(token, can_be_negative) matches Ok(m) ==> m.tokens_wf(),
        l.with_new_node(n).tokens_wf(),
        l.pair_registered(n).tokens_wf(),
        l.account_registered().tokens_wf(),
        l.fee_set(id, fee).tokens_wf(),
        l.issued(id, token, amount) matches Some(Ok(m)) ==> m.tokens_wf(),
        l.pair_for(src, dst) matches Ok((m, _, _)) ==> m.tokens_wf(),
        l.order_taken().0.tokens_wf(),
        (LedgerV { order_pool: l.order_pool.push(id), ..l }).tokens_wf(),
{
    law_token_registered(l, name, name);
    lemma_fee_grown(l, id, fee);
    if let Some(Ok(_)) = l.issued(id, token, amount) {
        lemma_issued_grown(l, id, token, amount);
    }
    let a = l.with_new_node(n);
    assert forall|i: int| 0 <= i < a.tokens.len() implies a.token((#[trigger] a.tokens[i]).0)
        is Some by {
        assert(l.token(l.tokens[i].0) is Some);
    }
    assert(a.tokens_wf());
    match l.pair_for(src, dst) {
        Ok((m, _, _)) => {
            assert(grown(l, m));
        },
        Err(_) => {},
    }
    assert(grown(l, l.order_taken().0));
    match l.negative_set(token, can_be_negative) {
        Ok(m) => {
            assert(grown(l, m));
        },
        Err(_) => {},
    }
}

/// After a frame too, tokens have ids and names of their own, and their nodes are tokens.
pub proof fn law_tokens_after_frame<L: ContractLogic>(r: RpteV<L>)
    requires
        r.ledger.tokens_wf(),
        r.stepped() is Some,
        (r.stepped()->0).ledger.nodes.len() <= usize::MAX,
    ensures
        (r.stepped()->0).ledger.tokens_wf(),
{
    law_frame(r);
    let n = (r.stepped()->0).ledger;
    let kept = LedgerV { step_count: r.ledger.step_count, ..n };
    assert(kept.tokens_wf());
    assert forall|i: int| 0 <= i < n.tokens.len() implies n.token((#[trigger] n.tokens[i]).0)
        is Some by {
        assert(kept.token(kept.tokens[i].0) is Some);
    }
}

// ---- frames in which nothing happens ----

/// Whether nothing is to be done: there are no messages and no contracts.
pub open spec fn idle<L>(r: RpteV<L>) -> bool {
    &&& r.msgs.len() == 0
    &&& r.masters.len() == 0
    &&& r.slave_to_master == Map::<usize, usize>::empty()
    &&& forall|i: int|
        0 <= i < r.ledger.nodes.len() ==> (#[trigger] r.ledger.nodes[i]).core.msgs.len() == 0
}

proof fn lemma_nothing_sent(nodes: Seq<NodeV>, k: nat)
    requires
        k <= nodes.len(),
        forall|i: int| 0 <= i < nodes.len() ==> (#[trigger] nodes[i]).core.msgs.len() == 0,
    ensures
        sent(nodes, k).len() == 0,
    decreases k,
{
    if k > 0 {
        lemma_nothing_sent(nodes, (k - 1) as nat);
    }
}

pub(crate) proof fn lemma_idle_lent<L: ContractLogic>(r: RpteV<L>, k: nat)
    requires
        r.slave_to_master == Map::<usize, usize>::empty(),
    ensures
        r.balances_lent(k) == r.ledger,
        r.balances_returned(k) == r,
        r.contracts_recycled(k) == r,
    decreases k,
{
    if k > 0 {
        lemma_idle_lent(r, (k - 1) as nat);
    }
}

/// A frame in which nothing is to be done is counted, the pairs take note of its number, and
/// nothing else changes.
pub proof fn law_idle_frame<L: ContractLogic>(r: RpteV<L>)
    requires
        idle(r),
        r.ledger.step_count < u64::MAX,
    ensures
        r.stepped() == Some(
            RpteV {
                ledger: LedgerV {
                    nodes: r.ledger.nodes.map_values(
                        |n: NodeV| n.updated(r.ledger.step_count).emptied(),
                    ),
                    step_count: (r.ledger.step_count + 1) as u64,
                    ..r.ledger
                },
                ..r
            },
        ),
{
    let r0 = RpteV { msgs: Seq::empty(), ..r };
    assert(r0 =~= r);
    assert(r0.contracts_stepped(0) == Some((r0, Seq::<MsgV>::empty())));
    lemma_idle_lent(r0, r0.ledger.nodes.len());
    let taken = r0.prices_taken();
    assert forall|i: int| 0 <= i < r0.ledger.nodes.len() implies #[trigger] taken.nodes[i]
        == r0.ledger.nodes[i] by {
        match r0.ledger.nodes[i].kind {
            KindV::Virtual(v) => {
                assert(r0.quote_for(v.contract_slave_id, v.fn_id) is None);
            },
            _ => {},
        }
    }
    assert(taken =~= r0.ledger);
    lemma_nothing_sent(taken.nodes, taken.nodes.len());
    let (b, msgs) = r.frame_begun()->0;
    assert(msgs.len() == 0);
    assert(b.rounds_done(msgs, crate::rpte_model::FRAME_ROUNDS as nat) == Some(b));
    lemma_idle_lent(b, b.ledger.nodes.len());
    let n = RpteV {
        ledger: LedgerV { step_count: (b.ledger.step_count + 1) as u64, ..b.ledger },
        ..b
    };
    lemma_idle_lent(n, n.ledger.nodes.len());
}

// ---- the life of a contract ----

/// A contract is created in its first frame, runs from then on, and is over in the frame after its
/// end was asked for; a contract that is over does nothing.
pub proof fn law_contract_life<L: ContractLogic>(
    n: NodeV,
    program: Option<L>,
    l: LedgerV,
    step: u64,
)
    requires
        n.contract_stepped(program, l, step) is Some,
    ensures
        ({
            let c = n.contract();
            let m = n.contract_stepped(program, l, step)->0;
            match c.state {
                ContractState::Creating => m.contract().state == ContractState::Running,
                ContractState::Running => program is None ==> m.contract().state
                    == ContractState::Running,
                ContractState::Ending => m.contract().state == ContractState::Destroyed,
                ContractState::Destroyed => m == n,
            }
        }),
{
}

} // verus!
