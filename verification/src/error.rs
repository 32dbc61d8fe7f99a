//! Errors.

use crate::decimal::{decimal_text, Decimal};
use crate::text::{digits, number};
use vstd::prelude::*;

verus! {

/// Why the engine refused a request.
#[derive(Clone, Copy, Debug)]
pub enum Error {
    /// There is no such node.
    NodeNotFound { id: usize, len: usize },
    /// The node is not a token.
    NotATokenNode(usize),
    /// There is no pair of this id.
    PairNotFound(usize),
    /// The node is not a pair.
    NotAPairNode(usize),
    /// The node is not an order.
    NotAnOrderNode(usize),
    /// The node is not an account.
    NotAnAccountNode(usize),
    /// The token is not registered.
    TokenNotRegistered(usize),
    /// The order is not registered.
    OrderNotRegistered(usize),
    /// The node does not hold enough.
    InsufficientBalance { node_id: usize, token: usize, has: Decimal, need: Decimal },
    /// The receiving node's balance would fall below zero.
    NegativeDestination { node_id: usize, token: usize, current: Decimal, volume: Decimal },
    /// The order could not be opened.
    OrderOpenFailed(usize),
    /// The index is out of bounds.
    IndexOutOfBounds { id: usize, len: usize },
    /// The two tokens may not be paired.
    SwapNotAllowed { src: usize, dst: usize },
    /// A number is too large.
    Overflow,
}

impl Error {
    /// What the error says.
    pub open spec fn text(self) -> Seq<char> {
        match self {
            Error::NodeNotFound { id, len } => "node "@ + digits(id as nat) + " not found (len="@
                + digits(len as nat) + ")"@,
            Error::NotATokenNode(id) => "node "@ + digits(id as nat) + " is not a TokenNode"@,
            Error::PairNotFound(id) => "pair "@ + digits(id as nat) + " not found"@,
            Error::NotAPairNode(id) => "node "@ + digits(id as nat) + " is not a PairNode"@,
            Error::NotAnOrderNode(id) => "node "@ + digits(id as nat) + " is not an OrderNode"@,
            Error::NotAnAccountNode(id) => "node "@ + digits(id as nat) + " is not an AccountNode"@,
            Error::TokenNotRegistered(id) => "token "@ + digits(id as nat) + " is not registered"@,
            Error::OrderNotRegistered(id) => "order "@ + digits(id as nat) + " is not registered"@,
            Error::InsufficientBalance { node_id, token, has, need } => "insufficient balance: node "@
                + digits(node_id as nat) + " token "@ + digits(token as nat) + " has "@
                + decimal_text(has) + " need "@ + decimal_text(need),
            Error::NegativeDestination { node_id, token, current, volume } =>
                "negative destination: node "@ + digits(node_id as nat) + " token "@ + digits(
                token as nat,
            ) + " current "@ + decimal_text(current) + " volume "@ + decimal_text(volume),
            Error::OrderOpenFailed(id) => "order "@ + digits(id as nat) + " failed to open"@,
            Error::IndexOutOfBounds { id, len } => "index "@ + digits(id as nat)
                + " out of bounds (len="@ + digits(len as nat) + ")"@,
            Error::SwapNotAllowed { src, dst } => "token "@ + digits(src as nat) + " and token "@
                + digits(dst as nat) + " may not be paired"@,
            Error::Overflow => "a number is too large"@,
        }
    }

    /// What the error says.
    pub fn message(&self) -> (r: String)
        ensures
            r@ == self.text(),
    {
        match *self {
            Error::NodeNotFound { id, len } => with_length("node ", id, " not found (len=", len),
            Error::NotATokenNode(id) => with_id("node ", id, " is not a TokenNode"),
            Error::PairNotFound(id) => with_id("pair ", id, " not found"),
            Error::NotAPairNode(id) => with_id("node ", id, " is not a PairNode"),
            Error::NotAnOrderNode(id) => with_id("node ", id, " is not an OrderNode"),
            Error::NotAnAccountNode(id) => with_id("node ", id, " is not an AccountNode"),
            Error::TokenNotRegistered(id) => with_id("token ", id, " is not registered"),
            Error::OrderNotRegistered(id) => with_id("order ", id, " is not registered"),
            Error::InsufficientBalance { node_id, token, has, need } => {
                let mut r = with_id("insufficient balance: node ", node_id, " token ");
                r.push_str(number(token).as_str());
                r.push_str(" has ");
                r.push_str(has.text().as_str());
                r.push_str(" need ");
                r.push_str(need.text().as_str());
                r
            },
            Error::NegativeDestination { node_id, token, current, volume } => {
                let mut r = with_id("negative destination: node ", node_id, " token ");
                r.push_str(number(token).as_str());
                r.push_str(" current ");
                r.push_str(current.text().as_str());
                r.push_str(" volume ");
                r.push_str(volume.text().as_str());
                r
            },
            Error::OrderOpenFailed(id) => with_id("order ", id, " failed to open"),
            Error::IndexOutOfBounds { id, len } => with_length(
                "index ",
                id,
                " out of bounds (len=",
                len,
            ),
            Error::SwapNotAllowed { src, dst } => {
                let mut r = with_id("token ", src, " and token ");
                r.push_str(number(dst).as_str());
                r.push_str(" may not be paired");
                r
            },
            Error::Overflow => "a number is too large".to_owned(),
        }
    }
}

/// A number between two texts.
fn with_id(before: &str, id: usize, after: &str) -> (r: String)
    ensures
        r@ == before@ + digits(id as nat) + after@,
{
    let mut r: String = before.to_owned();
    r.push_str(number(id).as_str());
    r.push_str(after);
    r
}

/// A number between two texts, then a length and a closing bracket.
fn with_length(before: &str, id: usize, after: &str, len: usize) -> (r: String)
    ensures
        r@ == before@ + digits(id as nat) + after@ + digits(len as nat) + ")"@,
{
    let mut r = with_id(before, id, after);
    r.push_str(number(len).as_str());
    r.push_str(")");
    r
}

} // verus!
