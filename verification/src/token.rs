//! Tokens.

use crate::decimal::{decimal_sum, Decimal};
use crate::node::{CoreV, KindV, Node, NodeCore, NodeV};
use std::collections::HashSet;
use vstd::prelude::*;

verus! {

broadcast use vstd::std_specs::hash::group_hash_axioms;

/// A token.
pub struct Token {
    core: NodeCore,
    name: String,
    total_supply: Decimal,
    can_be_negative: bool,
    not_tradable: bool,
    swap_whitelist: HashSet<usize>,
}

/// What a token is beside its core.
#[verifier::ext_equal]
pub struct TokenV {
    pub name: Seq<char>,
    pub total_supply: Decimal,
    pub can_be_negative: bool,
    pub not_tradable: bool,
    pub swap_whitelist: Set<usize>,
}

impl TokenV {
    /// A token that nothing was issued of and nothing was set for.
    pub open spec fn fresh(name: Seq<char>) -> TokenV {
        TokenV {
            name,
            total_supply: Decimal::of(0, 0),
            can_be_negative: false,
            not_tradable: false,
            swap_whitelist: Set::empty(),
        }
    }

    /// Whether the token may be traded for another one: it is tradable, and the other one is on
    /// its list where it has one.
    pub open spec fn accepts(self, other: usize) -> bool {
        !self.not_tradable && (self.swap_whitelist.is_empty() || self.swap_whitelist.contains(
            other,
        ))
    }
}

impl View for Token {
    type V = NodeV;

    closed spec fn view(&self) -> NodeV {
        NodeV {
            core: self.core@,
            kind: KindV::Token(
                TokenV {
                    name: self.name@,
                    total_supply: self.total_supply,
                    can_be_negative: self.can_be_negative,
                    not_tradable: self.not_tradable,
                    swap_whitelist: self.swap_whitelist@,
                },
            ),
        }
    }
}

impl Node for Token {
    fn base(&self) -> (r: &NodeCore) {
        &self.core
    }

    fn base_mut(&mut self) -> (r: &mut NodeCore) {
        &mut self.core
    }

    fn update(&mut self, _step_count: u64) {
    }

    fn is_open(&self) -> (r: bool) {
        false
    }
}

impl Token {
    /// A token of the given name.
    pub fn new(name: &str) -> (r: Token)
        ensures
            r@ == (NodeV { core: CoreV::empty(), kind: KindV::Token(TokenV::fresh(name@)) }),
    {
        Token {
            core: NodeCore::new(),
            name: name.to_owned(),
            total_supply: Decimal::zero(),
            can_be_negative: false,
            not_tradable: false,
            swap_whitelist: HashSet::new(),
        }
    }

    /// The token's name.
    pub fn name(&self) -> (r: &str)
        ensures
            r@ == self.token().name,
    {
        self.name.as_str()
    }

    /// How much of the token was issued.
    pub fn total_supply(&self) -> (r: Decimal)
        ensures
            r == self.token().total_supply,
    {
        self.total_supply
    }

    /// A token is a token.
    pub broadcast proof fn lemma_kind(self)
        ensures
            (#[trigger] self@).kind is Token,
    {
    }
}

/// What the engine asks of a token.
pub trait TokenNode: Node {
    /// What the token is beside its core.
    spec fn token(&self) -> TokenV;

    /// How much of the token was issued.
    fn total_supply(&self) -> (r: Decimal)
        ensures
            r == self.token().total_supply,
    ;

    /// Sets how much of the token was issued.
    fn set_total_supply(&mut self, supply: Decimal)
        ensures
            final(self).token() == (TokenV { total_supply: supply, ..old(self).token() }),
            final(self)@.core == old(self)@.core,
    ;

    /// Changes how much of the token was issued, or returns `None` and changes nothing where the
    /// sum overflows.
    fn adjust_total_supply(&mut self, delta: Decimal) -> (r: Option<()>)
        ensures
            match decimal_sum(old(self).token().total_supply, delta) {
                Some(sum) => r is Some && final(self).token() == (TokenV {
                    total_supply: sum,
                    ..old(self).token()
                }),
                None => r is None && final(self).token() == old(self).token(),
            },
            final(self)@.core == old(self)@.core,
    {
        let sum = self.total_supply().checked_add(delta)?;
        self.set_total_supply(sum);
        Some(())
    }

    /// Whether balances of the token may fall below zero.
    fn can_be_negative(&self) -> (r: bool)
        ensures
            r == self.token().can_be_negative,
    ;

    /// Sets whether balances of the token may fall below zero.
    fn set_can_be_negative(&mut self, can: bool)
        ensures
            final(self).token() == (TokenV { can_be_negative: can, ..old(self).token() }),
            final(self)@.core == old(self)@.core,
    ;

    /// Whether no pair may be made for the token.
    fn not_tradable(&self) -> (r: bool)
        ensures
            r == self.token().not_tradable,
    ;

    /// Sets whether no pair may be made for the token.
    fn set_not_tradable(&mut self, v: bool)
        ensures
            final(self).token() == (TokenV { not_tradable: v, ..old(self).token() }),
            final(self)@.core == old(self)@.core,
    ;

    /// The tokens that this one may be paired with, all of them where this is empty.
    fn swap_whitelist(&self) -> (r: &HashSet<usize>)
        ensures
            r@ == self.token().swap_whitelist,
    ;

    /// Sets the tokens that this one may be paired with.
    fn set_swap_whitelist(&mut self, whitelist: HashSet<usize>)
        ensures
            final(self).token() == (TokenV { swap_whitelist: whitelist@, ..old(self).token() }),
            final(self)@.core == old(self)@.core,
    ;

    /// Whether a pair with another token may be made, as far as this one decides.
    fn can_swap_with(&self, other: usize) -> (r: bool)
        ensures
            r == self.token().accepts(other),
    ;
}

impl TokenNode for Token {
    open spec fn token(&self) -> TokenV {
        self@.kind->Token_0
    }

    fn total_supply(&self) -> (r: Decimal) {
        self.total_supply
    }

    fn set_total_supply(&mut self, supply: Decimal) {
        self.total_supply = supply;
    }

    fn can_be_negative(&self) -> (r: bool) {
        self.can_be_negative
    }

    fn set_can_be_negative(&mut self, can: bool) {
        self.can_be_negative = can;
    }

    fn not_tradable(&self) -> (r: bool) {
        self.not_tradable
    }

    fn set_not_tradable(&mut self, v: bool) {
        self.not_tradable = v;
    }

    fn swap_whitelist(&self) -> (r: &HashSet<usize>) {
        &self.swap_whitelist
    }

    fn set_swap_whitelist(&mut self, whitelist: HashSet<usize>) {
        self.swap_whitelist = whitelist;
    }

    fn can_swap_with(&self, other: usize) -> (r: bool) {
        !self.not_tradable && (self.swap_whitelist.is_empty() || self.swap_whitelist.contains(
            &other,
        ))
    }
}

} // verus!
