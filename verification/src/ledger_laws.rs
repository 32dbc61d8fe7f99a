//! What holds of the ledger whatever is asked of it.

use crate::decimal::{decimal_difference, decimal_sum, Decimal};
use crate::ledger_model::{find_id, find_name, LedgerV, Part};
use crate::matching::PairV;
use crate::node::{merged, CoreV, KindV, MsgV, NodeV, SwapTransfer};
use crate::order::OrderV;
use crate::token::TokenV;
use vstd::prelude::*;

verus! {

/// Where no pair of two tokens is found, one that is added is found after it.
proof fn lemma_new_pair_found(l: LedgerV, n: NodeV, src: usize, dst: usize, i: nat)
    requires
        l.nodes.len() < usize::MAX,
        l.find_pair(src, dst, i) is None,
        n.is_pair(),
        src != dst,
        (n.pair().quote_token == src && n.pair().base_token == dst) || (n.pair().quote_token == dst
            && n.pair().base_token == src),
        i <= l.pairs.len(),
    ensures
        l.pair_registered(n).find_pair(src, dst, i) == Some(
            (l.next_id(), n.pair().quote_token == src),
        ),
    decreases l.pairs.len() - i,
{
    let m = l.pair_registered(n);
    let id = m.pairs[i as int];
    if i < l.pairs.len() {
        assert(id == l.pairs[i as int]);
        if id != l.next_id() {
            assert(l.has(id) == m.has(id));
            if l.has(id) {
                assert(m.node(id) == l.node(id));
            }
            lemma_new_pair_found(l, n, src, dst, i + 1);
        }
    }
}

/// The pair of two tokens, once asked for, is found again: asking a second time makes no other
/// one.
pub proof fn law_pair_found_again(l: LedgerV, src: usize, dst: usize)
    requires
        l.pair_for(src, dst) is Ok,
        (l.pair_for(src, dst)->Ok_0).0.nodes.len() <= usize::MAX,
    ensures
        ({
            let (m, id, forward) = l.pair_for(src, dst)->Ok_0;
            m.pair_for(src, dst) == l.pair_for(src, dst)
        }),
{
    if l.find_pair(src, dst, 0) is None {
        let quote = l.quoted_in(src, dst);
        let base = if quote == src { dst } else { src };
        let n = NodeV {
            core: CoreV::empty(),
            kind: KindV::Pair(
                PairV::fresh(quote, base, Decimal::of(1, 0), l.max_tra_log_length, l.precision),
            ),
        };
        lemma_new_pair_found(l, n, src, dst, 0);
    }
}

/// The pair of two tokens is the same whichever of them is named first.
pub proof fn law_pair_of_both_ways(l: LedgerV, src: usize, dst: usize, i: nat)
    requires
        src != dst,
    ensures
        match l.find_pair(src, dst, i) {
            Some((id, forward)) => l.find_pair(dst, src, i) == Some((id, !forward)),
            None => l.find_pair(dst, src, i) is None,
        },
    decreases l.pairs.len() - i,
{
    if i < l.pairs.len() {
        law_pair_of_both_ways(l, src, dst, i + 1);
    }
}

// ---- tokens ----

impl LedgerV {
    /// Whether no two tokens have one id or one name, and all ids are those of nodes that are
    /// tokens.
    pub open spec fn tokens_wf(self) -> bool {
        &&& forall|i: int|
            0 <= i < self.tokens.len() ==> self.token((#[trigger] self.tokens[i]).0) is Some
        &&& forall|i: int, j: int|
            0 <= i < j < self.tokens.len() ==> (#[trigger] self.tokens[i]).0 != (
            #[trigger] self.tokens[j]).0 && self.tokens[i].1 != self.tokens[j].1
    }
}

/// A token is found by its name.
proof fn lemma_find_name(tokens: Seq<(usize, Seq<char>)>, name: Seq<char>, i: nat)
    requires
        i <= tokens.len(),
    ensures
        match find_name(tokens, name, i) {
            Some(id) => exists|k: int| i <= k < tokens.len() && tokens[k] == (id, name),
            None => forall|k: int| i <= k < tokens.len() ==> (#[trigger] tokens[k]).1 != name,
        },
    decreases tokens.len() - i,
{
    if i < tokens.len() {
        if tokens[i as int].1 == name {
            assert(tokens[i as int] == (tokens[i as int].0, name));
        } else {
            lemma_find_name(tokens, name, i + 1);
        }
    }
}

/// A token's name is found by its id.
proof fn lemma_find_id(tokens: Seq<(usize, Seq<char>)>, id: usize, i: nat)
    requires
        i <= tokens.len(),
    ensures
        match find_id(tokens, id, i) {
            Some(name) => exists|k: int| i <= k < tokens.len() && tokens[k] == (id, name),
            None => forall|k: int| i <= k < tokens.len() ==> (#[trigger] tokens[k]).0 != id,
        },
    decreases tokens.len() - i,
{
    if i < tokens.len() {
        if tokens[i as int].0 == id {
            assert(tokens[i as int] == (id, tokens[i as int].1));
        } else {
            lemma_find_id(tokens, id, i + 1);
        }
    }
}

/// Tokens keep ids and names of their own while none is registered and their nodes stay tokens.
pub(crate) proof fn lemma_tokens_kept(l: LedgerV, m: LedgerV)
    requires
        l.tokens_wf(),
        m.tokens == l.tokens,
        forall|id: usize| #[trigger] l.token(id) is Some ==> m.token(id) is Some,
    ensures
        m.tokens_wf(),
{
    assert forall|i: int| 0 <= i < m.tokens.len() implies m.token((#[trigger] m.tokens[i]).0)
        is Some by {
        assert(l.token(l.tokens[i].0) is Some);
    }
}

/// The name of the token that is found by a name is that name, and the other way round.
pub proof fn law_names_and_ids(l: LedgerV, name: Seq<char>, id: usize)
    requires
        l.tokens_wf(),
    ensures
        l.token_by_name(name) == Some(id) <==> l.token_name(id) == Some(name),
{
    lemma_find_name(l.tokens, name, 0);
    lemma_find_id(l.tokens, id, 0);
}

/// Registering a token gives it an id by which its name is found, and the other way round. A new
/// name gets the id of a new node. Registering the name again changes nothing and gives the same
/// id. All other names stay what they were.
pub proof fn law_token_registered(l: LedgerV, name: Seq<char>, other: Seq<char>)
    requires
        l.tokens_wf(),
        l.token_registered(name).0.nodes.len() <= usize::MAX,
    ensures
        ({
            let (m, id) = l.token_registered(name);
            &&& m.tokens_wf()
            &&& m.token_by_name(name) == Some(id)
            &&& m.token_name(id) == Some(name)
            &&& m.token(id) is Some
            &&& m.token_registered(name) == (m, id)
            &&& l.token_by_name(name) is None ==> !l.has(id)
            &&& l.token_by_name(name) is Some ==> m == l
            &&& other != name ==> m.token_by_name(other) == l.token_by_name(other)
            &&& other != name ==> m.token_by_name(other) != Some(id)
        }),
{
    let (m, id) = l.token_registered(name);
    lemma_find_name(l.tokens, name, 0);
    if l.token_by_name(name) is None {
        assert(m.tokens[l.tokens.len() as int] == (id, name));
    }
    assert(m.tokens_wf());
    lemma_find_name(m.tokens, name, 0);
    lemma_find_name(l.tokens, other, 0);
    lemma_find_name(m.tokens, other, 0);
    law_names_and_ids(m, name, id);
    if l.token_by_name(name) is None && other != name {
        assert forall|k: int| 0 <= k < l.tokens.len() implies #[trigger] m.tokens[k]
            == l.tokens[k] by {}
        match (l.token_by_name(other), m.token_by_name(other)) {
            (Some(a), Some(b)) => {
                let x = choose|k: int| 0 <= k < l.tokens.len() && l.tokens[k] == (a, other);
                let y = choose|k: int| 0 <= k < m.tokens.len() && m.tokens[k] == (b, other);
                assert(m.tokens[x] == l.tokens[x]);
                assert(x == y);
            },
            (Some(a), None) => {
                let x = choose|k: int| 0 <= k < l.tokens.len() && l.tokens[k] == (a, other);
                assert(m.tokens[x] == l.tokens[x]);
            },
            (None, Some(b)) => {
                let y = choose|k: int| 0 <= k < m.tokens.len() && m.tokens[k] == (b, other);
                assert(m.tokens[y] == l.tokens[y]);
            },
            (None, None) => {},
        }
    }
}

/// Whether two tokens may be paired does not depend on which is named first.
pub proof fn law_swap_allowed_both_ways(l: LedgerV, a: usize, b: usize)
    ensures
        l.swap_allowed(a, b) == l.swap_allowed(b, a),
{
}

// ---- totals ----

/// Whether a sum is computed exactly.
pub open spec fn exact_sum(a: Decimal, b: Decimal) -> bool {
    decimal_sum(a, b) matches Some(v) && v.val() == a.val() + b.val()
}

/// Whether a difference is computed exactly.
pub open spec fn exact_difference(a: Decimal, b: Decimal) -> bool {
    decimal_difference(a, b) matches Some(v) && v.val() == a.val() - b.val()
}

impl LedgerV {
    /// What the first `k` nodes hold of a token together.
    pub open spec fn total(self, token: usize, k: nat) -> int
        decreases k,
    {
        if k == 0 {
            0
        } else {
            self.total(token, (k - 1) as nat) + self.nodes[k - 1].balance(token).val()
        }
    }

    /// What all nodes hold of a token together.
    pub open spec fn held(self, token: usize) -> int {
        self.total(token, self.nodes.len())
    }

    /// Whether the sums of a transfer between two nodes are computed exactly.
    pub open spec fn transfer_exact(self, src: usize, dst: usize, token: usize, amount: Decimal) -> bool {
        let volume = amount.truncated(self.precision as nat);
        self.has(src) && self.has(dst) && src != dst ==> exact_sum(
            self.node(dst).balance(token),
            volume,
        ) && exact_difference(self.node(src).balance(token), volume)
    }

    /// Whether the numbers of a transfer fit at the larger of their scales.
    pub open spec fn transfer_fits(self, src: usize, dst: usize, token: usize, amount: Decimal) -> bool {
        let volume = amount.truncated(self.precision as nat);
        let has = self.node(src).balance(token);
        let current = self.node(dst).balance(token);
        current.aligned_within(volume, current.val() + volume.val()) && has.aligned_within(
            volume,
            has.val() - volume.val(),
        )
    }

    /// Whether the sums of a transfer of everything between two nodes are computed exactly.
    pub open spec fn transfer_all_exact(self, src: usize, dst: usize) -> bool {
        self.has(src) && self.has(dst) && src != dst ==> forall|t: usize| #[trigger]
            self.node(src).core.sheet.dom().contains(t) ==> exact_sum(
                self.node(dst).balance(t),
                self.node(src).core.sheet[t],
            )
    }
}

/// Changing one node changes a total by what the node holds more or less.
pub(crate) proof fn lemma_total_update(l: LedgerV, id: usize, n: NodeV, token: usize, k: nat)
    requires
        l.has(id),
        k <= l.nodes.len(),
    ensures
        l.with_node(id, n).total(token, k) == l.total(token, k) + (if id < k {
            n.balance(token).val() - l.node(id).balance(token).val()
        } else {
            0
        }),
    decreases k,
{
    if k > 0 {
        lemma_total_update(l, id, n, token, (k - 1) as nat);
    }
}

/// Ledgers whose nodes hold the same have the same totals.
pub(crate) proof fn lemma_total_same(l: LedgerV, m: LedgerV, token: usize, k: nat)
    requires
        k <= l.nodes.len(),
        k <= m.nodes.len(),
        forall|i: int|
            0 <= i < k ==> (#[trigger] m.nodes[i]).balance(token) == l.nodes[i].balance(token),
    ensures
        m.total(token, k) == l.total(token, k),
    decreases k,
{
    if k > 0 {
        lemma_total_same(l, m, token, (k - 1) as nat);
    }
}

/// A transfer takes from one node what it gives to the other: what all nodes hold together of
/// any token stays the same, and every other balance does. The sums must be exact.
pub proof fn law_transfer_conserves(
    l: LedgerV,
    src: usize,
    dst: usize,
    token: usize,
    amount: Decimal,
    allow_negative: bool,
    other: usize,
)
    requires
        l.transferred(src, dst, token, amount, allow_negative) matches Some(Ok(_)),
        l.transfer_exact(src, dst, token, amount),
    ensures
        ({
            let m = l.transferred(src, dst, token, amount, allow_negative)->0->Ok_0;
            &&& m.nodes.len() == l.nodes.len()
            &&& m.held(other) == l.held(other)
            &&& forall|id: usize|
                l.has(id) && id != src && id != dst ==> #[trigger] m.node(id) == l.node(id)
            &&& forall|id: usize|
                l.has(id) && other != token ==> (#[trigger] m.node(id)).balance(other) == l.node(
                    id,
                ).balance(other)
        }),
{
    if src != dst {
        let volume = amount.truncated(l.precision as nat);
        let has = l.node(src).balance(token);
        let current = l.node(dst).balance(token);
        let sum = decimal_sum(current, volume)->0;
        let rest = decimal_difference(has, volume)->0;
        let a = l.with_node(src, l.node(src).with_balance(token, rest));
        lemma_total_update(
            l,
            src,
            l.node(src).with_balance(token, rest),
            other,
            l.nodes.len(),
        );
        lemma_total_update(
            a,
            dst,
            l.node(dst).with_balance(token, sum),
            other,
            l.nodes.len(),
        );
    }
}

/// A sum and a difference are exact where the numbers, and the sum or the difference, fit at the
/// larger of the two scales.
pub proof fn law_exact_where_it_fits(a: Decimal, b: Decimal)
    requires
        a.valid(),
        b.valid(),
    ensures
        a.aligned_within(b, a.val() + b.val()) ==> exact_sum(a, b),
        a.aligned_within(b, a.val() - b.val()) ==> exact_difference(a, b),
{
    a.lemma_sum(b);
    a.lemma_difference(b);
}

/// A transfer leaves neither node below zero, where the token's balances may not be negative.
pub proof fn law_no_overdraft(l: LedgerV, src: usize, dst: usize, token: usize, amount: Decimal)
    requires
        l.transferred(src, dst, token, amount, false) matches Some(Ok(_)),
        !l.can_be_negative(token),
        src != dst,
    ensures
        ({
            let m = l.transferred(src, dst, token, amount, false)->0->Ok_0;
            m.node(src).balance(token).val() >= 0 && m.node(dst).balance(token).val() >= 0
        }),
{
    let has = l.node(src).balance(token);
    has.lemma_difference(amount.truncated(l.precision as nat));
}

/// A transfer of everything leaves the paying node with nothing and gives all of it to the other:
/// what all nodes hold together of any token stays the same. The sums must be exact.
pub proof fn law_transfer_all_conserves(l: LedgerV, src: usize, dst: usize, token: usize)
    requires
        l.all_transferred(src, dst) matches Some(Ok(_)),
        l.transfer_all_exact(src, dst),
    ensures
        ({
            let m = l.all_transferred(src, dst)->0->Ok_0;
            &&& m.nodes.len() == l.nodes.len()
            &&& m.held(token) == l.held(token)
            &&& src != dst ==> m.node(src).balance(token).val() == 0
            &&& src != dst ==> m.node(dst).balance(token).val() == l.node(dst).balance(
                token,
            ).val() + l.node(src).balance(token).val()
            &&& forall|id: usize|
                l.has(id) && id != src && id != dst ==> #[trigger] m.node(id) == l.node(id)
        }),
{
    Decimal::lemma_zero();
    if src != dst {
        let core = merged(l.node(dst).core, l.node(src).core.sheet)->0;
        let emptied = l.node(src).with_core(CoreV { sheet: Map::empty(), ..l.node(src).core });
        let full = l.node(dst).with_core(core);
        let a = l.with_node(src, emptied);
        lemma_total_update(l, src, emptied, token, l.nodes.len());
        lemma_total_update(a, dst, full, token, l.nodes.len());
        assert(full.balance(token).val() == l.node(dst).balance(token).val() + l.node(
            src,
        ).balance(token).val());
    }
}

/// Issuing a token raises what all nodes hold of it together, and what was issued of it, by the
/// same, and changes nothing else. The sums must be exact.
pub proof fn law_issue(l: LedgerV, id: usize, token: usize, amount: Decimal, other: usize)
    requires
        l.issued(id, token, amount) matches Some(Ok(_)),
        l.token(token) is Some,
        exact_sum(l.node(id).balance(token), amount.truncated(l.precision as nat)),
        exact_sum(l.total_supply(token), amount.truncated(l.precision as nat)),
    ensures
        ({
            let m = l.issued(id, token, amount)->0->Ok_0;
            let volume = amount.truncated(l.precision as nat);
            &&& m.held(token) == l.held(token) + volume.val()
            &&& m.total_supply(token).val() == l.total_supply(token).val() + volume.val()
            &&& other != token ==> m.held(other) == l.held(other)
            &&& other != token ==> m.total_supply(other) == l.total_supply(other)
        }),
{
    let volume = amount.truncated(l.precision as nat);
    let sum = decimal_sum(l.node(id).balance(token), volume)->0;
    let a = l.with_node(id, l.node(id).with_balance(token, sum));
    lemma_total_update(l, id, l.node(id).with_balance(token, sum), token, l.nodes.len());
    lemma_total_update(l, id, l.node(id).with_balance(token, sum), other, l.nodes.len());
    let t = a.token(token)->0;
    let supply = decimal_sum(t.total_supply, volume)->0;
    let n = NodeV {
        kind: KindV::Token(TokenV { total_supply: supply, ..t }),
        ..a.node(token)
    };
    lemma_total_update(a, token, n, token, l.nodes.len());
    lemma_total_update(a, token, n, other, l.nodes.len());
}

/// Whether the nodes of two ledgers hold the same.
pub open spec fn same_balances(l: LedgerV, m: LedgerV) -> bool {
    &&& m.nodes.len() == l.nodes.len()
    &&& forall|id: usize| l.has(id) ==> (#[trigger] m.node(id)).core == l.node(id).core
}

/// Taking note of what an order holds moves nothing.
pub proof fn law_noting_moves_nothing(l: LedgerV, id: usize)
    ensures
        same_balances(l, l.order_noted(id)),
        l.order_noted(id).tokens == l.tokens,
        l.order_noted(id).precision == l.precision,
{
}

/// Ledgers whose nodes hold the same have the same totals.
pub(crate) proof fn lemma_same_held(l: LedgerV, m: LedgerV, token: usize)
    requires
        same_balances(l, m),
        l.nodes.len() <= usize::MAX,
    ensures
        m.held(token) == l.held(token),
{
    assert forall|i: int| 0 <= i < l.nodes.len() implies (#[trigger] m.nodes[i]).balance(token)
        == l.nodes[i].balance(token) by {
        assert(m.node(i as usize).core == l.node(i as usize).core);
    }
    lemma_total_same(l, m, token, l.nodes.len());
}

impl LedgerV {
    /// Whether the sums of the first `k` transfers out of trades are computed exactly.
    pub open spec fn settled_exactly(self, transfers: Seq<SwapTransfer>, k: nat) -> bool
        decreases k,
    {
        k > 0 ==> self.settled_exactly(transfers, (k - 1) as nat) && (self.swaps_settled(
            transfers,
            (k - 1) as nat,
        ) matches Some(l) ==> l.transfer_exact(
            transfers[k - 1].src_id,
            transfers[k - 1].dst_id,
            transfers[k - 1].token,
            transfers[k - 1].volume,
        ))
    }
}

/// A transfer that is noted conserves what all nodes hold.
proof fn lemma_transfer_noted_conserves(
    l: LedgerV,
    src: usize,
    dst: usize,
    token: usize,
    volume: Decimal,
    allow_negative: bool,
    other: usize,
)
    requires
        l.nodes.len() <= usize::MAX,
        l.transfer_exact(src, dst, token, volume),
        l.transfer_noted(src, dst, token, volume, allow_negative) is Some,
    ensures
        (l.transfer_noted(src, dst, token, volume, allow_negative)->0).held(other) == l.held(other),
        (l.transfer_noted(src, dst, token, volume, allow_negative)->0).nodes.len() == l.nodes.len(),
{
    let a = match l.transferred(src, dst, token, volume, allow_negative)->0 {
        Ok(m) => m,
        Err(_) => l,
    };
    if l.transferred(src, dst, token, volume, allow_negative)->0 is Ok {
        law_transfer_conserves(l, src, dst, token, volume, allow_negative, other);
    }
    law_noting_moves_nothing(a, src);
    lemma_same_held(a, a.order_noted(src), other);
    law_noting_moves_nothing(a.order_noted(src), dst);
    lemma_same_held(a.order_noted(src), a.order_noted(src).order_noted(dst), other);
}

/// Settling trades moves tokens between nodes and makes or loses none: what all nodes hold
/// together of any token stays the same. The sums must be exact.
pub proof fn law_settling_conserves(
    l: LedgerV,
    transfers: Seq<SwapTransfer>,
    k: nat,
    token: usize,
)
    requires
        k <= transfers.len(),
        l.nodes.len() <= usize::MAX,
        l.swaps_settled(transfers, k) is Some,
        l.settled_exactly(transfers, k),
    ensures
        (l.swaps_settled(transfers, k)->0).held(token) == l.held(token),
        (l.swaps_settled(transfers, k)->0).nodes.len() == l.nodes.len(),
    decreases k,
{
    if k > 0 {
        law_settling_conserves(l, transfers, (k - 1) as nat, token);
        let t = transfers[k - 1];
        lemma_transfer_noted_conserves(
            l.swaps_settled(transfers, (k - 1) as nat)->0,
            t.src_id,
            t.dst_id,
            t.token,
            t.volume,
            false,
            token,
        );
    }
}

impl LedgerV {
    /// Whether the sums of the transfers among the first `k` messages are computed exactly.
    pub open spec fn messages_exact(self, msgs: Seq<MsgV>, k: nat) -> bool
        decreases k,
    {
        k > 0 ==> self.messages_exact(msgs, (k - 1) as nat) && (self.transfers_done(
            msgs,
            (k - 1) as nat,
        ) matches Some(l) ==> match msgs[k - 1] {
            MsgV::Transfer { src_id, dst_id, token, volume, .. } => l.transfer_exact(
                src_id,
                dst_id,
                token,
                volume,
            ),
            MsgV::TransferAll { src_id, dst_id } => l.transfer_all_exact(src_id, dst_id),
            _ => true,
        })
    }
}

/// The transfers of a round of messages make and lose nothing: what all nodes hold together of
/// any token stays the same. The sums must be exact.
pub proof fn law_transfers_conserve(l: LedgerV, msgs: Seq<MsgV>, k: nat, token: usize)
    requires
        k <= msgs.len(),
        l.nodes.len() <= usize::MAX,
        l.transfers_done(msgs, k) is Some,
        l.messages_exact(msgs, k),
    ensures
        (l.transfers_done(msgs, k)->0).held(token) == l.held(token),
        (l.transfers_done(msgs, k)->0).nodes.len() == l.nodes.len(),
    decreases k,
{
    if k > 0 {
        law_transfers_conserve(l, msgs, (k - 1) as nat, token);
        let m = l.transfers_done(msgs, (k - 1) as nat)->0;
        match msgs[k - 1] {
            MsgV::Transfer { src_id, dst_id, token: moved, volume, allow_negative } => {
                lemma_transfer_noted_conserves(
                    m,
                    src_id,
                    dst_id,
                    moved,
                    volume,
                    allow_negative,
                    token,
                );
            },
            MsgV::TransferAll { src_id, dst_id } => {
                let a = match m.all_transferred(src_id, dst_id)->0 {
                    Ok(x) => x,
                    Err(_) => m,
                };
                if m.all_transferred(src_id, dst_id)->0 is Ok {
                    law_transfer_all_conserves(m, src_id, dst_id, token);
                }
                law_noting_moves_nothing(a, src_id);
                lemma_same_held(a, a.order_noted(src_id), token);
                law_noting_moves_nothing(a.order_noted(src_id), dst_id);
                lemma_same_held(
                    a.order_noted(src_id),
                    a.order_noted(src_id).order_noted(dst_id),
                    token,
                );
            },
            _ => {},
        }
    }
}

// ---- orders ----

/// A node that holds nothing adds nothing to a total.
pub(crate) proof fn lemma_total_new(l: LedgerV, n: NodeV, token: usize)
    requires
        n.core == CoreV::empty(),
    ensures
        l.with_new_node(n).held(token) == l.held(token),
{
    Decimal::lemma_zero();
    lemma_total_same(l, l.with_new_node(n), token, l.nodes.len());
}

/// Closing an order gives its owner everything it holds: the order is not open any more and holds
/// nothing, its owner has what it held, and no token is made or lost. The sums must be exact.
pub proof fn law_order_closed(l: LedgerV, id: usize, o: OrderV, token: usize)
    requires
        l.orders.contains(id),
        l.order(id) == Ok::<OrderV, crate::error::Error>(o),
        l.has(o.owner_node_id),
        o.owner_node_id != id,
        l.nodes.len() <= usize::MAX,
        l.transfer_all_exact(id, o.owner_node_id),
        l.order_closed(id) is Some,
    ensures
        ({
            let m = l.order_closed(id)->0;
            &&& !m.orders.contains(id)
            &&& m.order_pool == l.order_pool.push(id)
            &&& m.node(id).balance(token).val() == 0
            &&& m.node(o.owner_node_id).balance(token).val() == l.node(o.owner_node_id).balance(
                token,
            ).val() + l.node(id).balance(token).val()
            &&& m.held(token) == l.held(token)
            &&& m.order(id) matches Ok(c) && !c.openning
            &&& m.account(o.owner_node_id) matches Ok(orders) ==> !orders.contains(id)
        }),
{
    let l0 = LedgerV { orders: l.orders.remove(id), ..l };
    let closed = NodeV { kind: KindV::Order(OrderV { openning: false, ..o }), ..l0.node(id) };
    let l1 = l0.with_node(id, closed);
    lemma_total_same(l, l0, token, l.nodes.len());
    lemma_total_update(l0, id, closed, token, l.nodes.len());
    assert(l1.transfer_all_exact(id, o.owner_node_id)) by {
        assert(l1.node(id).core == l.node(id).core);
        assert(l1.node(o.owner_node_id).core == l.node(o.owner_node_id).core);
    }
    law_transfer_all_conserves(l1, id, o.owner_node_id, token);
    let l2 = l1.all_transferred(id, o.owner_node_id)->0->Ok_0;
    let l3 = if l2.pair(o.pair_node_id) is Ok {
        l2.with_node(o.pair_node_id, l2.node(o.pair_node_id).brief_cancelled(id))
    } else {
        l2
    };
    assert(same_balances(l2, l3));
    lemma_same_held(l2, l3, token);
    let l4 = l3.without_account_order(o.owner_node_id, id);
    assert(same_balances(l3, l4));
    lemma_same_held(l3, l4, token);
    let m = l.order_closed(id)->0;
    lemma_total_same(l4, m, token, l4.nodes.len());
    assert(l4.node(id).core == l3.node(id).core);
    assert(l3.node(id).core == l2.node(id).core);
    assert(l4.node(o.owner_node_id).core == l3.node(o.owner_node_id).core);
    assert(l3.node(o.owner_node_id).core == l2.node(o.owner_node_id).core);
}

/// An order that was closed is the next one to be opened again.
pub proof fn law_order_reused(l: LedgerV, id: usize, o: OrderV)
    requires
        l.orders.contains(id),
        l.order(id) == Ok::<OrderV, crate::error::Error>(o),
        l.has(o.owner_node_id),
        l.order_closed(id) is Some,
    ensures
        ({
            let m = l.order_closed(id)->0;
            let (n, next) = m.order_taken();
            &&& next == id
            &&& n.orders == l.orders
            &&& n.order_pool == l.order_pool
            &&& n.nodes == m.nodes
        }),
{
    let m = l.order_closed(id)->0;
    let (n, next) = m.order_taken();
    assert(m.order_pool == l.order_pool.push(id));
    assert(n.order_pool =~= l.order_pool);
    assert(n.orders =~= l.orders);
}

/// Opening an order makes and loses nothing: what its owner puts up is held by the order. What all
/// nodes hold together of any token stays the same. The sums of the transfer must be exact.
pub proof fn law_opening_conserves(
    l: LedgerV,
    src_id: usize,
    owner: usize,
    src_token: usize,
    dst_token: usize,
    volume: Decimal,
    price: Decimal,
    token: usize,
)
    requires
        l.order_opened(src_id, owner, src_token, dst_token, volume, price) is Some,
        (l.order_opened(src_id, owner, src_token, dst_token, volume, price)->0).nodes.len()
            <= usize::MAX,
        l.pair_for(src_token, dst_token) matches Ok((l0, _, _)) ==> {
            let (l1, id) = l0.order_taken();
            l1.transfer_exact(src_id, id, src_token, volume)
        },
    ensures
        (l.order_opened(src_id, owner, src_token, dst_token, volume, price)->0).held(token)
            == l.held(token),
{
    let m = l.order_opened(src_id, owner, src_token, dst_token, volume, price)->0;
    if !(volume.val() == 0 || price.val() == 0 || l.lacks(src_id, src_token, volume)) {
        match l.pair_for(src_token, dst_token) {
            Ok((l0, pair_id, _)) => {
                lemma_pair_for_held(l, src_token, dst_token, token);
                let (l1, id) = l0.order_taken();
                lemma_order_taken_held(l0, token);
                if !(l1.order(id) is Err || owner == l1.node(id).core.id) {
                    let n = NodeV {
                        kind: KindV::Order(
                            OrderV {
                                owner_node_id: owner,
                                pair_node_id: pair_id,
                                src_token,
                                dst_token,
                                price,
                                step_count_created: l1.step_count,
                                openning: true,
                                order_type: crate::order::OrderType::Make,
                            },
                        ),
                        ..l1.node(id)
                    };
                    let l2 = l1.with_node(id, n);
                    lemma_total_update(l1, id, n, token, l1.nodes.len());
                    let t = l2.transferred(src_id, id, src_token, volume, false)->0;
                    let l3 = match t {
                        Ok(x) => x,
                        Err(_) => l2,
                    };
                    if t is Ok {
                        assert(l2.node(id).core == l1.node(id).core);
                        assert(l2.has(src_id) ==> l2.node(src_id).core == l1.node(src_id).core);
                        law_transfer_conserves(
                            l2,
                            src_id,
                            id,
                            src_token,
                            volume,
                            false,
                            token,
                        );
                    }
                    lemma_placed_held(l3, id, pair_id, owner, token);
                }
            },
            Err(_) => {},
        }
    }
}

/// Making a pair moves nothing.
pub(crate) proof fn lemma_pair_for_held(l: LedgerV, src: usize, dst: usize, token: usize)
    requires
        l.pair_for(src, dst) is Ok,
    ensures
        (l.pair_for(src, dst)->Ok_0).0.held(token) == l.held(token),
{
    let m = (l.pair_for(src, dst)->Ok_0).0;
    if l.find_pair(src, dst, 0) is None {
        let quote = l.quoted_in(src, dst);
        let base = if quote == src { dst } else { src };
        let n = NodeV {
            core: CoreV::empty(),
            kind: KindV::Pair(
                PairV::fresh(quote, base, Decimal::of(1, 0), l.max_tra_log_length, l.precision),
            ),
        };
        lemma_total_new(l, n, token);
        lemma_total_same(l.with_new_node(n), m, token, m.nodes.len());
    }
}

/// Taking an order moves nothing.
proof fn lemma_order_taken_held(l: LedgerV, token: usize)
    ensures
        l.order_taken().0.held(token) == l.held(token),
{
    let m = l.order_taken().0;
    if l.order_pool.len() > 0 {
        lemma_total_same(l, m, token, l.nodes.len());
    } else {
        let n = NodeV { core: CoreV::empty(), kind: KindV::Order(OrderV::blank()) };
        lemma_total_new(l, n, token);
        lemma_total_same(l.with_new_node(n), m, token, m.nodes.len());
    }
}

/// Putting an order on its pair moves nothing.
proof fn lemma_placed_held(l: LedgerV, id: usize, pair_id: usize, owner: usize, token: usize)
    requires
        l.order_placed(id, pair_id, owner) is Some,
        l.nodes.len() <= usize::MAX,
        l.order(id) matches Ok(o) ==> o.pair_node_id == pair_id,
    ensures
        (l.order_placed(id, pair_id, owner)->0).held(token) == l.held(token),
{
    match l.order_brief(id) {
        Ok(brief) => {
            let n = l.node(pair_id).brief_inserted(brief, l.precision)->0;
            let a = l.with_node(pair_id, n);
            assert(n.core.sheet == l.node(pair_id).core.sheet);
            lemma_total_update(l, pair_id, n, token, l.nodes.len());
            let m = a.with_account_order(owner, id);
            assert(same_balances(a, m));
            lemma_same_held(a, m, token);
        },
        Err(_) => {},
    }
}

// ---- worth ----

/// Whether the sums of an account's worth with one more value are computed exactly.
pub open spec fn value_added_exactly(l: LedgerV, id: usize, dst: usize, k: nat, value: Decimal) -> bool {
    &&& value.valid()
    &&& l.worth(id, dst, Part::Net, k) matches Ok(total) ==> exact_sum(total, value)
    &&& value.val() > 0 ==> (l.worth(id, dst, Part::Assets, k) matches Ok(total) ==> exact_sum(
        total,
        value,
    ))
    &&& value.val() < 0 ==> (l.worth(id, dst, Part::Liabilities, k) matches Ok(total) ==> exact_sum(
        total,
        value.magnitude(),
    ))
}

/// Whether the sums of an account's worth over the first `k` tokens are computed exactly.
pub open spec fn worth_exact(l: LedgerV, id: usize, dst: usize, k: nat) -> bool
    decreases k,
{
    if k == 0 {
        true
    } else {
        let token = l.tokens[k - 1].0;
        worth_exact(l, id, dst, (k - 1) as nat) && match l.account_equity(id, token) {
            Ok(held) => match l.exchanged(token, dst, held) {
                Some(value) => held.val() != 0 ==> value_added_exactly(
                    l,
                    id,
                    dst,
                    (k - 1) as nat,
                    value,
                ),
                None => true,
            },
            Err(_) => true,
        }
    }
}

/// What an account holds is what it owns less what it owes, and neither of the two is negative.
/// The sums must be exact.
pub proof fn law_worth(l: LedgerV, id: usize, dst: usize, k: nat)
    requires
        worth_exact(l, id, dst, k),
        l.worth(id, dst, Part::Net, k) is Ok,
        l.worth(id, dst, Part::Assets, k) is Ok,
        l.worth(id, dst, Part::Liabilities, k) is Ok,
    ensures
        (l.worth(id, dst, Part::Net, k)->Ok_0).val() == (l.worth(
            id,
            dst,
            Part::Assets,
            k,
        )->Ok_0).val() - (l.worth(id, dst, Part::Liabilities, k)->Ok_0).val(),
        (l.worth(id, dst, Part::Assets, k)->Ok_0).val() >= 0,
        (l.worth(id, dst, Part::Liabilities, k)->Ok_0).val() >= 0,
    decreases k,
{
    Decimal::lemma_zero();
    if k > 0 {
        law_worth(l, id, dst, (k - 1) as nat);
        let token = l.tokens[k - 1].0;
        let held = l.account_equity(id, token)->Ok_0;
        if held.val() != 0 {
            let value = l.exchanged(token, dst, held)->0;
            value.lemma_magnitude();
            let net = l.worth(id, dst, Part::Net, (k - 1) as nat)->Ok_0;
            if value.val() == 0 {
                assert(exact_sum(net, value));
            }
        }
    }
}

} // verus!
