//! What the ledger is and how requests change it.

use crate::decimal::{
    decimal_difference, decimal_product, decimal_quotient, decimal_sum, opt_sum, opt_truncated,
    Decimal,
};
use crate::error::Error;
use crate::matching::PairV;
use crate::node::{merged, CoreV, Drt, KindV, NodeV, OrderBookDepth, SwapTransfer};
use crate::order::{OrderBrief, OrderType, OrderV};
use crate::pair_node::level_at;
use crate::token::TokenV;
use crate::trade_log::TraLog;
use vstd::prelude::*;
use vstd::utf8::encode_utf8;

verus! {

/// All nodes and what is registered of them.
#[verifier::ext_equal]
pub struct LedgerV {
    pub nodes: Seq<NodeV>,
    /// The tokens, each with its name.
    pub tokens: Seq<(usize, Seq<char>)>,
    pub quote: usize,
    /// Closed orders that may be opened again.
    pub order_pool: Seq<usize>,
    /// The open orders.
    pub orders: Set<usize>,
    pub accounts: Seq<usize>,
    pub pairs: Seq<usize>,
    /// The token that a token is worth.
    pub anchors: Map<usize, usize>,
    pub step_count: u64,
    pub max_tra_log_length: usize,
    pub precision: u8,
}

/// The token of a name among those from `i` on.
pub open spec fn find_name(tokens: Seq<(usize, Seq<char>)>, name: Seq<char>, i: nat) -> Option<usize>
    decreases tokens.len() - i,
{
    if i >= tokens.len() {
        None
    } else if tokens[i as int].1 == name {
        Some(tokens[i as int].0)
    } else {
        find_name(tokens, name, i + 1)
    }
}

/// The name of a token among those from `i` on.
pub open spec fn find_id(tokens: Seq<(usize, Seq<char>)>, id: usize, i: nat) -> Option<Seq<char>>
    decreases tokens.len() - i,
{
    if i >= tokens.len() {
        None
    } else if tokens[i as int].0 == id {
        Some(tokens[i as int].1)
    } else {
        find_id(tokens, id, i + 1)
    }
}

/// Whether the bytes from `i` on of the first text are not after those of the second one.
pub open spec fn not_after(a: Seq<u8>, b: Seq<u8>, i: nat) -> bool
    decreases a.len() - i,
{
    if i >= a.len() {
        true
    } else if i >= b.len() {
        false
    } else if a[i as int] != b[i as int] {
        a[i as int] < b[i as int]
    } else {
        not_after(a, b, i + 1)
    }
}

impl LedgerV {
    /// Whether there is a node of this id.
    pub open spec fn has(self, id: usize) -> bool {
        id < self.nodes.len()
    }

    pub open spec fn node(self, id: usize) -> NodeV {
        self.nodes[id as int]
    }

    pub open spec fn with_node(self, id: usize, n: NodeV) -> LedgerV {
        LedgerV { nodes: self.nodes.update(id as int, n), ..self }
    }

    // ---- tokens ----

    pub open spec fn token_by_name(self, name: Seq<char>) -> Option<usize> {
        find_name(self.tokens, name, 0)
    }

    pub open spec fn token_name(self, id: usize) -> Option<Seq<char>> {
        find_id(self.tokens, id, 0)
    }

    pub open spec fn is_token(self, id: usize) -> bool {
        self.token_name(id) is Some
    }

    /// The ledger with one more node, and the node's id.
    pub open spec fn with_new_node(self, n: NodeV) -> LedgerV {
        LedgerV {
            nodes: self.nodes.push(
                NodeV { core: CoreV { id: self.nodes.len() as usize, ..n.core }, ..n },
            ),
            ..self
        }
    }

    /// The id of the next node.
    pub open spec fn next_id(self) -> usize {
        self.nodes.len() as usize
    }

    /// The ledger with a token of this name, and the token.
    pub open spec fn token_registered(self, name: Seq<char>) -> (LedgerV, usize) {
        match self.token_by_name(name) {
            Some(id) => (self, id),
            None => (
                LedgerV {
                    tokens: self.tokens.push((self.next_id(), name)),
                    ..self.with_new_node(
                        NodeV { core: CoreV::empty(), kind: KindV::Token(TokenV::fresh(name)) },
                    )
                },
                self.next_id(),
            ),
        }
    }

    /// What the node says of the token that it is.
    pub open spec fn token(self, id: usize) -> Option<TokenV> {
        if self.has(id) && self.node(id).kind is Token {
            Some(self.node(id).kind->Token_0)
        } else {
            None
        }
    }

    /// The ledger with other settings of a token, if the node is one.
    pub open spec fn with_token(self, id: usize, t: TokenV) -> LedgerV {
        self.with_node(id, NodeV { kind: KindV::Token(t), ..self.node(id) })
    }

    pub open spec fn can_be_negative(self, id: usize) -> bool {
        self.token(id) matches Some(t) && t.can_be_negative
    }

    pub open spec fn total_supply(self, id: usize) -> Decimal {
        match self.token(id) {
            Some(t) => t.total_supply,
            None => Decimal::of(0, 0),
        }
    }

    /// Whether a pair of the two tokens may be made.
    pub open spec fn swap_allowed(self, a: usize, b: usize) -> bool {
        &&& a != b
        &&& self.token(a) matches Some(t) ==> t.accepts(b)
        &&& self.token(b) matches Some(t) ==> t.accepts(a)
    }

    // ---- pairs ----

    /// Whether the node at position `i` of the list of pairs is a pair.
    pub open spec fn pair_at(self, i: int) -> bool {
        self.has(self.pairs[i]) && self.node(self.pairs[i]).is_pair()
    }

    /// The first pair from position `i` on that trades the two tokens, and whether the first of
    /// them is its quote token.
    pub open spec fn find_pair(self, src: usize, dst: usize, i: nat) -> Option<(usize, bool)>
        decreases self.pairs.len() - i,
    {
        if i >= self.pairs.len() {
            None
        } else {
            let id = self.pairs[i as int];
            let p = self.node(id).pair();
            if self.pair_at(i as int) && p.quote_token == src && p.base_token == dst {
                Some((id, true))
            } else if self.pair_at(i as int) && p.quote_token == dst && p.base_token == src {
                Some((id, false))
            } else {
                self.find_pair(src, dst, i + 1)
            }
        }
    }

    /// The first pair from position `i` on with this quote token and this base token.
    pub open spec fn find_oriented(self, quote: usize, base: usize, i: nat) -> Option<usize>
        decreases self.pairs.len() - i,
    {
        if i >= self.pairs.len() {
            None
        } else {
            let id = self.pairs[i as int];
            let p = self.node(id).pair();
            if self.pair_at(i as int) && p.quote_token == quote && p.base_token == base {
                Some(id)
            } else {
                self.find_oriented(quote, base, i + 1)
            }
        }
    }

    /// The bytes of a token's name, none where it has no name.
    pub open spec fn name_bytes(self, id: usize) -> Seq<u8> {
        match self.token_name(id) {
            Some(name) => encode_utf8(name),
            None => encode_utf8(Seq::empty()),
        }
    }

    /// Which of two tokens prices are given in: the engine's quote token, or else the one whose
    /// name comes first.
    pub open spec fn quoted_in(self, src: usize, dst: usize) -> usize {
        if src == self.quote {
            src
        } else if dst == self.quote {
            dst
        } else if not_after(self.name_bytes(src), self.name_bytes(dst), 0) {
            src
        } else {
            dst
        }
    }

    /// The ledger with one more pair.
    pub open spec fn pair_registered(self, n: NodeV) -> LedgerV {
        LedgerV { pairs: self.pairs.push(self.next_id()), ..self.with_new_node(n) }
    }

    /// The pair of two tokens, made where there is none: the ledger then, the pair, and whether
    /// the first token is its quote token.
    pub open spec fn pair_for(self, src: usize, dst: usize) -> Result<(LedgerV, usize, bool), Error> {
        match self.find_pair(src, dst, 0) {
            Some((id, forward)) => Ok((self, id, forward)),
            None => if !self.swap_allowed(src, dst) {
                Err(Error::SwapNotAllowed { src, dst })
            } else {
                let quote = self.quoted_in(src, dst);
                let base = if quote == src { dst } else { src };
                Ok(
                    (
                        self.pair_registered(
                            NodeV {
                                core: CoreV::empty(),
                                kind: KindV::Pair(
                                    PairV::fresh(
                                        quote,
                                        base,
                                        Decimal::of(1, 0),
                                        self.max_tra_log_length,
                                        self.precision,
                                    ),
                                ),
                            },
                        ),
                        self.next_id(),
                        quote == src,
                    ),
                )
            },
        }
    }

    // ---- balances ----

    /// The balance of a token that a node holds, zero where there is no such node.
    pub open spec fn balance(self, id: usize, token: usize) -> Decimal {
        if self.has(id) {
            self.node(id).balance(token)
        } else {
            Decimal::of(0, 0)
        }
    }

    /// The balance of a registered token that a node holds.
    pub open spec fn node_balance(self, id: usize, token: usize) -> Result<Decimal, Error> {
        if !self.has(id) {
            Err(Error::NodeNotFound { id, len: self.nodes.len() as usize })
        } else if !self.is_token(token) {
            Err(Error::TokenNotRegistered(token))
        } else {
            Ok(self.node(id).balance(token))
        }
    }

    /// Where a transfer ends: `None` where a number overflows.
    pub open spec fn transferred(
        self,
        src: usize,
        dst: usize,
        token: usize,
        amount: Decimal,
        allow_negative: bool,
    ) -> Option<Result<LedgerV, Error>> {
        let volume = amount.truncated(self.precision as nat);
        if !self.is_token(token) {
            Some(Err(Error::TokenNotRegistered(token)))
        } else if src == dst {
            Some(Ok(self))
        } else if !self.has(src) || !self.has(dst) {
            Some(
                Err(
                    Error::IndexOutOfBounds {
                        id: if src < dst { dst } else { src },
                        len: self.nodes.len() as usize,
                    },
                ),
            )
        } else {
            let free = self.can_be_negative(token) || allow_negative;
            let has = self.node(src).balance(token);
            let current = self.node(dst).balance(token);
            let sum = decimal_sum(current, volume);
            let rest = decimal_difference(has, volume);
            if !free && has.val() < volume.val() {
                Some(Err(Error::InsufficientBalance { node_id: src, token, has, need: volume }))
            } else if sum is None {
                None
            } else if !free && (sum->0).val() < 0 {
                Some(Err(Error::NegativeDestination { node_id: dst, token, current, volume }))
            } else if rest is None {
                None
            } else {
                Some(
                    Ok(
                        self.with_node(src, self.node(src).with_balance(token, rest->0)).with_node(
                            dst,
                            self.node(dst).with_balance(token, sum->0),
                        ),
                    ),
                )
            }
        }
    }

    /// Where a transfer of everything ends: `None` where a number overflows.
    pub open spec fn all_transferred(self, src: usize, dst: usize) -> Option<
        Result<LedgerV, Error>,
    > {
        if src == dst {
            Some(Ok(self))
        } else if !self.has(src) || !self.has(dst) {
            Some(
                Err(
                    Error::IndexOutOfBounds {
                        id: if src < dst { dst } else { src },
                        len: self.nodes.len() as usize,
                    },
                ),
            )
        } else {
            match merged(self.node(dst).core, self.node(src).core.sheet) {
                Some(core) => Some(
                    Ok(
                        self.with_node(
                            src,
                            self.node(src).with_core(
                                CoreV { sheet: Map::empty(), ..self.node(src).core },
                            ),
                        ).with_node(dst, self.node(dst).with_core(core)),
                    ),
                ),
                None => None,
            }
        }
    }

    /// Where issuing a token ends: `None` where a number overflows.
    pub open spec fn issued(self, id: usize, token: usize, amount: Decimal) -> Option<
        Result<LedgerV, Error>,
    > {
        let volume = amount.truncated(self.precision as nat);
        if !self.has(id) {
            Some(Err(Error::NodeNotFound { id, len: self.nodes.len() as usize }))
        } else if !self.is_token(token) {
            Some(Err(Error::TokenNotRegistered(token)))
        } else {
            match decimal_sum(self.node(id).balance(token), volume) {
                Some(sum) => {
                    let l = self.with_node(id, self.node(id).with_balance(token, sum));
                    match l.token(token) {
                        Some(t) => match decimal_sum(t.total_supply, volume) {
                            Some(supply) => Some(
                                Ok(l.with_token(token, TokenV { total_supply: supply, ..t })),
                            ),
                            None => None,
                        },
                        None => Some(Ok(l)),
                    }
                },
                None => None,
            }
        }
    }

    // ---- orders ----

    /// The order that a node is.
    pub open spec fn order(self, id: usize) -> Result<OrderV, Error> {
        if !self.has(id) {
            Err(Error::NodeNotFound { id, len: self.nodes.len() as usize })
        } else {
            match self.node(id).kind {
                KindV::Order(o) => Ok(o),
                _ => Err(Error::NotAnOrderNode(id)),
            }
        }
    }

    /// The pair that a node is.
    pub open spec fn pair(self, id: usize) -> Result<PairV, Error> {
        if !self.has(id) {
            Err(Error::PairNotFound(id))
        } else if self.node(id).is_pair() {
            Ok(self.node(id).pair())
        } else {
            Err(Error::NotAPairNode(id))
        }
    }

    /// The orders of the account that a node is.
    pub open spec fn account(self, id: usize) -> Result<Set<usize>, Error> {
        if !self.has(id) {
            Err(Error::NodeNotFound { id, len: self.nodes.len() as usize })
        } else {
            match self.node(id).kind {
                KindV::Account(orders) => Ok(orders),
                _ => Err(Error::NotAnAccountNode(id)),
            }
        }
    }

    /// The side of a trade on a pair.
    pub open spec fn side(p: PairV, src_token: usize, dst_token: usize) -> Drt {
        if p.quote_token == src_token && p.base_token == dst_token {
            Drt::Buy
        } else {
            Drt::Sell
        }
    }

    /// What an order book is to know of an order.
    pub open spec fn order_brief(self, id: usize) -> Result<OrderBrief, Error> {
        if !self.orders.contains(id) {
            Err(Error::OrderNotRegistered(id))
        } else {
            match self.order(id) {
                Ok(o) => match self.pair(o.pair_node_id) {
                    Ok(p) => Ok(
                        OrderBrief {
                            id,
                            direction: LedgerV::side(p, o.src_token, o.dst_token),
                            src_token: o.src_token,
                            dst_token: o.dst_token,
                            src_volume: self.node(id).balance(o.src_token),
                            dst_volume: self.node(id).balance(o.dst_token),
                            price: o.price,
                            step_count_created: o.step_count_created,
                        },
                    ),
                    Err(e) => Err(e),
                },
                Err(e) => Err(e),
            }
        }
    }

    /// The ledger with an order among those of an account, if the node is one.
    pub open spec fn with_account_order(self, account: usize, order: usize) -> LedgerV {
        match self.account(account) {
            Ok(orders) => self.with_node(
                account,
                NodeV { kind: KindV::Account(orders.insert(order)), ..self.node(account) },
            ),
            Err(_) => self,
        }
    }

    /// The ledger without an order among those of an account, if the node is one.
    pub open spec fn without_account_order(self, account: usize, order: usize) -> LedgerV {
        match self.account(account) {
            Ok(orders) => self.with_node(
                account,
                NodeV { kind: KindV::Account(orders.remove(order)), ..self.node(account) },
            ),
            Err(_) => self,
        }
    }

    /// The ledger after the pair and the owner of an open order took note of what it holds.
    pub open spec fn order_noted(self, id: usize) -> LedgerV {
        if !self.orders.contains(id) || self.order(id) is Err {
            self
        } else {
            let o = self.order(id)->Ok_0;
            if o.openning && o.order_type != OrderType::Swap {
                match self.order_brief(id) {
                    Ok(brief) => self.with_node(
                        o.pair_node_id,
                        self.node(o.pair_node_id).brief_updated(brief),
                    ).with_account_order(o.owner_node_id, id),
                    Err(_) => self,
                }
            } else {
                self.with_account_order(o.owner_node_id, id)
            }
        }
    }

    /// The ledger after a transfer was tried and both ends were noted.
    pub open spec fn transfer_noted(
        self,
        src: usize,
        dst: usize,
        token: usize,
        volume: Decimal,
        allow_negative: bool,
    ) -> Option<LedgerV> {
        match self.transferred(src, dst, token, volume, allow_negative) {
            Some(Ok(l)) => Some(l.order_noted(src).order_noted(dst)),
            Some(Err(_)) => Some(self.order_noted(src).order_noted(dst)),
            None => None,
        }
    }

    /// The ledger after a transfer of everything was tried and both ends were noted.
    pub open spec fn transfer_all_noted(self, src: usize, dst: usize) -> Option<LedgerV> {
        match self.all_transferred(src, dst) {
            Some(Ok(l)) => Some(l.order_noted(src).order_noted(dst)),
            Some(Err(_)) => Some(self.order_noted(src).order_noted(dst)),
            None => None,
        }
    }

    /// The ledger after the first `k` transfers out of trades.
    pub open spec fn swaps_settled(self, transfers: Seq<SwapTransfer>, k: nat) -> Option<LedgerV>
        decreases k,
    {
        if k == 0 {
            Some(self)
        } else {
            match self.swaps_settled(transfers, (k - 1) as nat) {
                Some(l) => {
                    let t = transfers[k - 1];
                    l.transfer_noted(t.src_id, t.dst_id, t.token, t.volume, false)
                },
                None => None,
            }
        }
    }

    /// The ledger after an order was closed: what it holds goes to its owner, the pair and the
    /// owner forget it, and it may be opened again.
    pub open spec fn order_closed(self, id: usize) -> Option<LedgerV> {
        if !self.orders.contains(id) {
            Some(self)
        } else {
            let l0 = LedgerV { orders: self.orders.remove(id), ..self };
            match l0.order(id) {
                Ok(o) => {
                    let l1 = l0.with_node(
                        id,
                        NodeV {
                            kind: KindV::Order(OrderV { openning: false, ..o }),
                            ..l0.node(id)
                        },
                    );
                    match l1.all_transferred(id, o.owner_node_id) {
                        Some(Ok(l2)) => {
                            let l3 = if l2.pair(o.pair_node_id) is Ok {
                                l2.with_node(
                                    o.pair_node_id,
                                    l2.node(o.pair_node_id).brief_cancelled(id),
                                )
                            } else {
                                l2
                            };
                            let l4 = l3.without_account_order(o.owner_node_id, id);
                            Some(LedgerV { order_pool: l4.order_pool.push(id), ..l4 })
                        },
                        Some(Err(_)) => Some(l1),
                        None => None,
                    }
                },
                Err(_) => Some(l0),
            }
        }
    }

    /// The ledger with one more open order, and the order: the last one that was closed, or a
    /// new one.
    pub open spec fn order_taken(self) -> (LedgerV, usize) {
        if self.order_pool.len() > 0 {
            (
                LedgerV {
                    orders: self.orders.insert(self.order_pool.last()),
                    order_pool: self.order_pool.drop_last(),
                    ..self
                },
                self.order_pool.last(),
            )
        } else {
            (
                LedgerV {
                    orders: self.orders.insert(self.next_id()),
                    ..self.with_new_node(
                        NodeV { core: CoreV::empty(), kind: KindV::Order(OrderV::blank()) },
                    )
                },
                self.next_id(),
            )
        }
    }

    /// Whether a node may not put up this much.
    pub open spec fn lacks(self, id: usize, token: usize, volume: Decimal) -> bool {
        let has = match self.node_balance(id, token) {
            Ok(b) => b,
            Err(_) => Decimal::of(0, 0),
        };
        !self.can_be_negative(token) && volume.val() > has.val()
    }

    /// The ledger after a limit order was opened and traded as far as it meets others. Nothing
    /// happens where it has no volume or price, where its owner lacks what it is to spend, or
    /// where the tokens may not be paired.
    pub open spec fn order_opened(
        self,
        src_id: usize,
        owner: usize,
        src_token: usize,
        dst_token: usize,
        volume: Decimal,
        price: Decimal,
    ) -> Option<LedgerV> {
        if volume.val() == 0 || price.val() == 0 || self.lacks(src_id, src_token, volume) {
            Some(self)
        } else {
            match self.pair_for(src_token, dst_token) {
                Ok((l0, pair_id, _)) => {
                    let (l1, id) = l0.order_taken();
                    if l1.order(id) is Err || owner == l1.node(id).core.id {
                        Some(l1)
                    } else {
                        let l2 = l1.with_node(
                            id,
                            NodeV {
                                kind: KindV::Order(
                                    OrderV {
                                        owner_node_id: owner,
                                        pair_node_id: pair_id,
                                        src_token,
                                        dst_token,
                                        price,
                                        step_count_created: l1.step_count,
                                        openning: true,
                                        order_type: OrderType::Make,
                                    },
                                ),
                                ..l1.node(id)
                            },
                        );
                        match l2.transferred(src_id, id, src_token, volume, false) {
                            Some(r) => {
                                let l3 = match r {
                                    Ok(l) => l,
                                    Err(_) => l2,
                                };
                                l3.order_placed(id, pair_id, owner)
                            },
                            None => None,
                        }
                    }
                },
                Err(_) => Some(self),
            }
        }
    }

    /// The ledger after an order was put on its pair and noted by its owner.
    pub open spec fn order_placed(self, id: usize, pair_id: usize, owner: usize) -> Option<LedgerV> {
        match self.order_brief(id) {
            Ok(brief) => {
                match self.node(pair_id).brief_inserted(brief, self.precision) {
                    Some(n) => Some(self.with_node(pair_id, n).with_account_order(owner, id)),
                    None => None,
                }
            },
            Err(_) => Some(self),
        }
    }

    /// What a market order asks for: the ledger with the pair, and the pair, the side and the
    /// volume, cut down to what the owner has. Nothing is asked for where the tokens may not be
    /// paired, the owner is unknown or the volume is zero.
    pub open spec fn swap_asked(
        self,
        owner: usize,
        src_token: usize,
        dst_token: usize,
        volume: Decimal,
    ) -> (LedgerV, Option<(usize, Drt, Decimal)>) {
        match self.pair_for(src_token, dst_token) {
            Ok((l, pair_id, _)) => match l.node_balance(owner, src_token) {
                Ok(has) => {
                    let v = if l.can_be_negative(src_token) {
                        volume
                    } else {
                        volume.least(has)
                    };
                    if v.val() == 0 {
                        (l, None)
                    } else {
                        (
                            l,
                            Some(
                                (
                                    pair_id,
                                    LedgerV::side(l.node(pair_id).pair(), src_token, dst_token),
                                    v,
                                ),
                            ),
                        )
                    }
                },
                Err(_) => (l, None),
            },
            Err(_) => (self, None),
        }
    }

    /// The ledger after market orders of one pair and side were traded, and the orders to close.
    /// A single one trades alone; several share what they meet.
    pub open spec fn swaps_done(self, pair_id: usize, d: Drt, swaps: Seq<(usize, Decimal)>) -> Option<
        (LedgerV, Seq<usize>),
    > {
        let out = if swaps.len() == 1 {
            self.node(pair_id).swap_processed(swaps[0].0, d, swaps[0].1, self.precision)
        } else {
            self.node(pair_id).swaps_processed(d, swaps, self.precision)
        };
        match out {
            Some((n, transfers, closes)) => match self.with_node(pair_id, n).swaps_settled(
                transfers,
                transfers.len(),
            ) {
                Some(l) => Some((l, closes)),
                None => None,
            },
            None => None,
        }
    }

    /// The ledger with the settings that a request to register a token asks for.
    pub open spec fn token_set_up(
        self,
        name: Seq<char>,
        can_be_negative: bool,
        not_tradable: bool,
        virtual_anchor: Option<usize>,
        swap_whitelist: Seq<usize>,
    ) -> LedgerV {
        let (l0, id) = self.token_registered(name);
        let l1 = match l0.token(id) {
            Some(t) => l0.with_token(
                id,
                TokenV {
                    can_be_negative: t.can_be_negative || can_be_negative,
                    not_tradable: t.not_tradable || not_tradable,
                    swap_whitelist: if swap_whitelist.len() > 0 {
                        swap_whitelist.to_set()
                    } else {
                        t.swap_whitelist
                    },
                    ..t
                },
            ),
            None => l0,
        };
        match virtual_anchor {
            Some(anchor) => LedgerV { anchors: l1.anchors.insert(id, anchor), ..l1 },
            None => l1,
        }
    }

    // ---- reading ----

    /// Whether one token stands for the other.
    pub open spec fn anchored(self, a: usize, b: usize) -> bool {
        ||| (self.anchors.dom().contains(a) && self.anchors[a] == b)
        ||| (self.anchors.dom().contains(b) && self.anchors[b] == a)
    }

    /// The price of a base token in a quote token, by a pair of either direction: `Some(None)`
    /// where there is none, `None` where it overflows.
    pub open spec fn price_of(self, quote: usize, base: usize) -> Option<Option<Decimal>> {
        if self.anchored(quote, base) {
            Some(Some(Decimal::of(1, 0)))
        } else {
            match self.find_oriented(quote, base, 0) {
                Some(id) => {
                    let price = self.node(id).pair().price;
                    Some(
                        if price.val() == 0 {
                            None
                        } else {
                            Some(price)
                        },
                    )
                },
                None => match self.find_oriented(base, quote, 0) {
                    Some(id) => {
                        let price = self.node(id).pair().price;
                        if price.val() == 0 {
                            Some(None)
                        } else {
                            match decimal_quotient(Decimal::of(1, 0), price) {
                                Some(inverse) => Some(Some(inverse)),
                                None => None,
                            }
                        }
                    },
                    None => Some(None),
                },
            }
        }
    }

    /// The price between two tokens, with the quote and the base token that it is for.
    pub open spec fn price_between(self, src: usize, dst: usize) -> Option<
        Option<(Decimal, usize, usize)>,
    > {
        match self.price_of(src, dst) {
            Some(Some(price)) => Some(Some((price, src, dst))),
            Some(None) => match self.price_of(dst, src) {
                Some(Some(price)) => if price.val() == 0 {
                    Some(None)
                } else {
                    match decimal_quotient(Decimal::of(1, 0), price) {
                        Some(inverse) => Some(Some((inverse, dst, src))),
                        None => None,
                    }
                },
                Some(None) => Some(None),
                None => None,
            },
            None => None,
        }
    }

    /// An amount of one token in another one by the price between them: `Some(None)` where there
    /// is no price.
    pub open spec fn converted_directly(self, src: usize, dst: usize, amount: Decimal) -> Option<
        Option<Decimal>,
    > {
        match self.price_between(src, dst) {
            Some(Some((price, quote, _base))) => if price.val() == 0 {
                Some(None)
            } else {
                let v = if src == quote {
                    decimal_quotient(amount, price)
                } else {
                    decimal_product(amount, price)
                };
                match v {
                    Some(x) => Some(Some(x)),
                    None => None,
                }
            },
            Some(None) => Some(None),
            None => None,
        }
    }

    /// An amount of one token in another one by the price between them, zero where there is none.
    pub open spec fn converted_in_one(self, src: usize, dst: usize, amount: Decimal) -> Option<
        Decimal,
    > {
        if amount.val() == 0 || src == dst {
            Some(amount)
        } else {
            match self.converted_directly(src, dst, amount) {
                Some(Some(v)) => Some(v),
                Some(None) => Some(Decimal::of(0, 0)),
                None => None,
            }
        }
    }

    /// An amount of one token in another one: by the price between them, or else over the quote
    /// token, or else zero.
    pub open spec fn converted(self, src: usize, dst: usize, amount: Decimal) -> Option<Decimal> {
        if amount.val() == 0 || src == dst {
            Some(amount)
        } else {
            match self.converted_directly(src, dst, amount) {
                Some(Some(v)) => Some(v),
                Some(None) => if src != self.quote && dst != self.quote {
                    match self.converted_in_one(src, self.quote, amount) {
                        Some(mid) => if mid.val() == 0 {
                            Some(Decimal::of(0, 0))
                        } else {
                            self.converted_in_one(self.quote, dst, mid)
                        },
                        None => None,
                    }
                } else {
                    Some(Decimal::of(0, 0))
                },
                None => None,
            }
        }
    }

    /// What a node holds of a token together with those of the given orders that are among the
    /// first `k` nodes.
    pub open spec fn held_with_orders(
        self,
        id: usize,
        orders: Set<usize>,
        token: usize,
        k: nat,
    ) -> Option<Decimal>
        decreases k,
    {
        if k == 0 {
            Some(self.node(id).balance(token))
        } else {
            let prev = self.held_with_orders(id, orders, token, (k - 1) as nat);
            if orders.contains((k - 1) as usize) {
                opt_sum(prev, Some(self.nodes[k - 1].balance(token)))
            } else {
                prev
            }
        }
    }

    /// What an account holds of a token, in its own balance and in its open orders.
    pub open spec fn equity(self, account: usize, token: usize) -> Option<Decimal> {
        match self.node(account).kind {
            KindV::Account(orders) => self.held_with_orders(
                account,
                orders,
                token,
                self.nodes.len(),
            ),
            _ => Some(self.node(account).balance(token)),
        }
    }

    /// What a registered account holds of a token, zero for any other node.
    pub open spec fn equity_or_zero(self, account: usize, token: usize) -> Option<Decimal> {
        if self.accounts.contains(account) && self.has(account) {
            self.equity(account, token)
        } else {
            Some(Decimal::of(0, 0))
        }
    }

    /// The best price levels of both sides at a depth, none where there is no such pair.
    pub open spec fn depths(self, quote: usize, base: usize, depth: usize) -> Option<
        Seq<OrderBookDepth>,
    > {
        match self.find_oriented(quote, base, 0) {
            Some(id) => {
                let book = self.node(id).pair().book;
                let buy = level_at(book.buys, depth);
                let sell = level_at(book.sells, depth);
                if buy is None || sell is None {
                    None
                } else {
                    Some(seq![buy->0, sell->0])
                }
            },
            None => Some(Seq::empty()),
        }
    }

    /// The trades of a pair, none where there is no such pair.
    pub open spec fn logs(self, quote: usize, base: usize) -> Seq<TraLog> {
        match self.find_oriented(quote, base, 0) {
            Some(id) => self.node(id).pair().logs,
            None => Seq::empty(),
        }
    }
}

/// Which part of an account's worth is summed up.
#[derive(Clone, Copy, Debug, PartialEq, Eq, Structural)]
pub enum Part {
    /// All of it.
    Net,
    /// What it owns.
    Assets,
    /// What it owes.
    Liabilities,
}

/// A sum with one more value, as far as it belongs to the part.
pub open spec fn part_added(part: Part, total: Decimal, value: Decimal) -> Option<Decimal> {
    match part {
        Part::Net => decimal_sum(total, value),
        Part::Assets => if value.val() > 0 {
            decimal_sum(total, value)
        } else {
            Some(total)
        },
        Part::Liabilities => if value.val() < 0 {
            decimal_sum(total, value.magnitude())
        } else {
            Some(total)
        },
    }
}

impl LedgerV {
    // ---- what the engine answers ----

    /// The open orders among the first `k` nodes.
    pub open spec fn open_orders(self, k: nat) -> Seq<usize>
        decreases k,
    {
        if k == 0 {
            Seq::empty()
        } else {
            let prev = self.open_orders((k - 1) as nat);
            if self.orders.contains((k - 1) as usize) && self.nodes[k - 1].is_open() {
                prev.push((k - 1) as usize)
            } else {
                prev
            }
        }
    }

    /// The first `k` pairs, each with its quote token, its base token and its price.
    pub open spec fn pairs_info(self, k: nat) -> Seq<(usize, usize, usize, Decimal)>
        decreases k,
    {
        if k == 0 {
            Seq::empty()
        } else {
            let prev = self.pairs_info((k - 1) as nat);
            let id = self.pairs[k - 1];
            if self.pair_at(k - 1) {
                let p = self.node(id).pair();
                prev.push((id, p.quote_token, p.base_token, p.price))
            } else {
                prev
            }
        }
    }

    /// How much of a registered token was issued.
    pub open spec fn supply(self, token: usize) -> Result<Decimal, Error> {
        if !self.is_token(token) {
            Err(Error::TokenNotRegistered(token))
        } else {
            match self.token(token) {
                Some(t) => Ok(t.total_supply),
                None => Err(Error::NotATokenNode(token)),
            }
        }
    }

    /// The ledger after it was set whether balances of a token may fall below zero.
    pub open spec fn negative_set(self, token: usize, can: bool) -> Result<LedgerV, Error> {
        if !self.is_token(token) {
            Err(Error::TokenNotRegistered(token))
        } else {
            match self.token(token) {
                Some(t) => Ok(self.with_token(token, TokenV { can_be_negative: can, ..t })),
                None => Err(Error::NotATokenNode(token)),
            }
        }
    }

    /// An amount of one token in another one by the first pair from position `i` on that has a
    /// price and trades the two, cut off at the engine's precision. `Some(None)` where there is
    /// none.
    pub open spec fn exchanged_directly(self, src: usize, dst: usize, amount: Decimal, i: nat) -> Option<
        Option<Decimal>,
    >
        decreases self.pairs.len() - i,
    {
        if i >= self.pairs.len() {
            Some(None)
        } else {
            let p = self.node(self.pairs[i as int]).pair();
            if !self.pair_at(i as int) || p.price.val() == 0 {
                self.exchanged_directly(src, dst, amount, i + 1)
            } else if p.quote_token == src && p.base_token == dst {
                match opt_truncated(decimal_quotient(amount, p.price), self.precision) {
                    Some(v) => Some(Some(v)),
                    None => None,
                }
            } else if p.quote_token == dst && p.base_token == src {
                match opt_truncated(decimal_product(amount, p.price), self.precision) {
                    Some(v) => Some(Some(v)),
                    None => None,
                }
            } else {
                self.exchanged_directly(src, dst, amount, i + 1)
            }
        }
    }

    /// An amount of one token in another one: by a pair of them, or else over the quote token, or
    /// else zero.
    pub open spec fn exchanged(self, src: usize, dst: usize, amount: Decimal) -> Option<Decimal> {
        if amount.val() == 0 || src == dst {
            Some(amount)
        } else {
            match self.exchanged_directly(src, dst, amount, 0) {
                Some(Some(v)) => Some(v),
                Some(None) => if src != self.quote && dst != self.quote {
                    match self.exchanged_directly(src, self.quote, amount, 0) {
                        Some(Some(mid)) => if mid.val() == 0 {
                            Some(Decimal::of(0, 0))
                        } else {
                            match self.exchanged_directly(self.quote, dst, mid, 0) {
                                Some(Some(v)) => Some(v),
                                Some(None) => Some(Decimal::of(0, 0)),
                                None => None,
                            }
                        },
                        Some(None) => Some(Decimal::of(0, 0)),
                        None => None,
                    }
                } else {
                    Some(Decimal::of(0, 0))
                },
                None => None,
            }
        }
    }

    /// Why a node is not a registered account, if it is not.
    pub open spec fn account_error(self, id: usize) -> Option<Error> {
        if !self.accounts.contains(id) || !self.has(id) {
            Some(Error::NodeNotFound { id, len: self.nodes.len() as usize })
        } else if !(self.node(id).kind is Account) {
            Some(Error::NotAnAccountNode(id))
        } else {
            None
        }
    }

    /// What a registered account holds of a registered token, in its own balance and in its open
    /// orders.
    pub open spec fn account_equity(self, id: usize, token: usize) -> Result<Decimal, Error> {
        if !self.accounts.contains(id) || !self.has(id) {
            Err(Error::NodeNotFound { id, len: self.nodes.len() as usize })
        } else if !self.is_token(token) {
            Err(Error::TokenNotRegistered(token))
        } else if !(self.node(id).kind is Account) {
            Err(Error::NotAnAccountNode(id))
        } else {
            match self.equity(id, token) {
                Some(v) => Ok(v),
                None => Err(Error::Overflow),
            }
        }
    }

    /// What an account holds of the first `k` tokens, without those that it holds nothing of.
    pub open spec fn equities(self, id: usize, k: nat) -> Option<Map<usize, Decimal>>
        decreases k,
    {
        if k == 0 {
            Some(Map::empty())
        } else {
            let token = self.tokens[k - 1].0;
            match (self.equities(id, (k - 1) as nat), self.equity(id, token)) {
                (Some(m), Some(v)) => if v.val() != 0 {
                    Some(m.insert(token, v))
                } else {
                    Some(m)
                },
                _ => None,
            }
        }
    }

    /// A part of what an account holds of the first `k` tokens, in another token.
    pub open spec fn worth(self, id: usize, dst: usize, part: Part, k: nat) -> Result<
        Decimal,
        Error,
    >
        decreases k,
    {
        if k == 0 {
            Ok(Decimal::of(0, 0))
        } else {
            let token = self.tokens[k - 1].0;
            match self.worth(id, dst, part, (k - 1) as nat) {
                Ok(total) => match self.account_equity(id, token) {
                    Ok(held) => if held.val() == 0 {
                        Ok(total)
                    } else {
                        match self.exchanged(token, dst, held) {
                            Some(value) => match part_added(part, total, value) {
                                Some(sum) => Ok(sum),
                                None => Err(Error::Overflow),
                            },
                            None => Err(Error::Overflow),
                        }
                    },
                    Err(e) => Err(e),
                },
                Err(e) => Err(e),
            }
        }
    }
}

impl LedgerV {
    /// Those of the given orders that are among the first `k` nodes.
    pub open spec fn orders_among(orders: Set<usize>, k: nat) -> Seq<usize>
        decreases k,
    {
        if k == 0 {
            Seq::empty()
        } else {
            let prev = LedgerV::orders_among(orders, (k - 1) as nat);
            if orders.contains((k - 1) as usize) {
                prev.push((k - 1) as usize)
            } else {
                prev
            }
        }
    }
}

} // verus!
