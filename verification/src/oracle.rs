//! A snapshot of prices and balances.

use crate::decimal::{decimal_product, decimal_quotient, Decimal};
use std::collections::HashMap;
use vstd::prelude::*;

verus! {

broadcast use vstd::std_specs::hash::group_hash_axioms;

/// A snapshot of prices and balances.
#[verifier::ext_equal]
pub struct OracleV {
    /// The price of a base token in a quote token.
    pub prices: Map<(usize, usize), Decimal>,
    /// What the nodes hold of the tokens.
    pub balances: Map<usize, Map<usize, Decimal>>,
    /// The token over which others are converted.
    pub quote: usize,
}

/// The prices that a list gives, the last one where it gives several for a pair.
pub open spec fn listed(prices: Seq<(usize, usize, Decimal)>) -> Map<(usize, usize), Decimal>
    decreases prices.len(),
{
    if prices.len() == 0 {
        Map::empty()
    } else {
        let (quote, base, price) = prices.last();
        listed(prices.drop_last()).insert((quote, base), price)
    }
}

impl OracleV {
    /// The price of a base token in a quote token.
    pub open spec fn price(self, quote: usize, base: usize) -> Option<Decimal> {
        if self.prices.dom().contains((quote, base)) {
            Some(self.prices[(quote, base)])
        } else {
            None
        }
    }

    /// The price of a pair of the two tokens, with its quote and its base token. Where the second
    /// token is the quote token, a price of zero counts as none.
    pub open spec fn price_between(self, src: usize, dst: usize) -> Option<(Decimal, usize, usize)> {
        match self.price(src, dst) {
            Some(price) => Some((price, src, dst)),
            None => match self.price(dst, src) {
                Some(price) => if price.val() != 0 {
                    Some((price, dst, src))
                } else {
                    None
                },
                None => None,
            },
        }
    }

    /// What a node holds of a token.
    pub open spec fn balance(self, node_id: usize, token: usize) -> Decimal {
        if self.balances.dom().contains(node_id) && self.balances[node_id].dom().contains(token) {
            self.balances[node_id][token]
        } else {
            Decimal::of(0, 0)
        }
    }

    /// An amount by the price of a pair: `Some(None)` where there is none, `None` where a number
    /// overflows.
    pub open spec fn converted_directly(self, src: usize, dst: usize, amount: Decimal) -> Option<
        Option<Decimal>,
    > {
        match self.price_between(src, dst) {
            Some((price, quote, _)) => if price.val() == 0 {
                Some(None)
            } else {
                match if src == quote {
                    decimal_quotient(amount, price)
                } else {
                    decimal_product(amount, price)
                } {
                    Some(v) => Some(Some(v)),
                    None => None,
                }
            },
            None => Some(None),
        }
    }

    /// An amount of one token in another one by the price of a pair, zero where there is none.
    pub open spec fn converted_in_one(self, src: usize, dst: usize, amount: Decimal) -> Option<
        Decimal,
    > {
        if amount.val() == 0 || src == dst {
            Some(amount)
        } else {
            match self.converted_directly(src, dst, amount) {
                Some(Some(v)) => Some(v),
                Some(None) => Some(Decimal::of(0, 0)),
                None => None,
            }
        }
    }

    /// An amount of one token in another one: by the price of a pair, or else over the quote
    /// token, or zero. `None` where a number overflows.
    pub open spec fn converted(self, src: usize, dst: usize, amount: Decimal) -> Option<Decimal> {
        if amount.val() == 0 || src == dst {
            Some(amount)
        } else {
            match self.converted_directly(src, dst, amount) {
                Some(Some(v)) => Some(v),
                Some(None) => if src != self.quote && dst != self.quote {
                    match self.converted_in_one(src, self.quote, amount) {
                        Some(mid) => if mid.val() == 0 {
                            Some(Decimal::of(0, 0))
                        } else {
                            self.converted_in_one(self.quote, dst, mid)
                        },
                        None => None,
                    }
                } else {
                    Some(Decimal::of(0, 0))
                },
                None => None,
            }
        }
    }
}

/// A snapshot of prices and balances.
#[derive(Clone)]
pub struct Oracle {
    prices: Vec<(usize, usize, Decimal)>,
    balances: HashMap<usize, HashMap<usize, Decimal>>,
    /// The token over which others are converted.
    pub global_quote_token: usize,
}

/// What balances are.
pub open spec fn sheets(m: Map<usize, HashMap<usize, Decimal>>) -> Map<usize, Map<usize, Decimal>> {
    m.map_values(|sheet: HashMap<usize, Decimal>| sheet@)
}

impl View for Oracle {
    type V = OracleV;

    closed spec fn view(&self) -> OracleV {
        OracleV {
            prices: listed(self.prices@),
            balances: sheets(self.balances@),
            quote: self.global_quote_token,
        }
    }
}

impl Oracle {
    /// A snapshot of nothing.
    pub fn new(global_quote_token: usize) -> (r: Oracle)
        ensures
            r@ == (OracleV {
                prices: Map::empty(),
                balances: Map::empty(),
                quote: global_quote_token,
            }),
    {
        let r = Oracle { prices: Vec::new(), balances: HashMap::new(), global_quote_token };
        assert(r@.balances =~= Map::empty());
        r
    }

    /// The price of a base token in a quote token.
    pub fn price(&self, quote_token: usize, base_token: usize) -> (r: Option<Decimal>)
        ensures
            r == self@.price(quote_token, base_token),
    {
        let ghost wanted = self@.price(quote_token, base_token);
        let mut i: usize = self.prices.len();
        assert(self.prices@.take(i as int) =~= self.prices@);
        while i > 0
            invariant
                i <= self.prices@.len(),
                wanted == self@.price(quote_token, base_token),
                wanted == (if listed(self.prices@.take(i as int)).dom().contains(
                    (quote_token, base_token),
                ) {
                    Some(listed(self.prices@.take(i as int))[(quote_token, base_token)])
                } else {
                    None
                }),
            decreases i,
        {
            i = i - 1;
            let (quote, base, price) = self.prices[i];
            assert(self.prices@.take(i + 1).drop_last() =~= self.prices@.take(i as int));
            if quote == quote_token && base == base_token {
                return Some(price);
            }
        }
        None
    }

    /// The price of a pair of two tokens, whichever of them is its quote token, with its quote and
    /// its base token: one base token costs this much of the quote token.
    pub fn price_between(&self, src_token: usize, dst_token: usize) -> (r: Option<
        (Decimal, usize, usize),
    >)
        ensures
            r == self@.price_between(src_token, dst_token),
    {
        if let Some(price) = self.price(src_token, dst_token) {
            return Some((price, src_token, dst_token));
        }
        if let Some(price) = self.price(dst_token, src_token) {
            if !price.is_zero() {
                return Some((price, dst_token, src_token));
            }
        }
        None
    }

    /// What a node holds of a token.
    pub fn balance(&self, node_id: usize, token: usize) -> (r: Decimal)
        ensures
            r == self@.balance(node_id, token),
    {
        match self.balances.get(&node_id) {
            Some(sheet) => match sheet.get(&token) {
                Some(v) => *v,
                None => Decimal::zero(),
            },
            None => Decimal::zero(),
        }
    }

    /// What a node holds.
    pub fn balances_of(&self, node_id: usize) -> (r: Option<&HashMap<usize, Decimal>>)
        ensures
            r is Some == self@.balances.dom().contains(node_id),
            r is Some ==> (r->0)@ == self@.balances[node_id],
    {
        self.balances.get(&node_id)
    }

    /// An amount by the price of a pair: `Some(None)` where there is none, `None` where a number
    /// overflows.
    fn convert_directly(&self, src_token: usize, dst_token: usize, amount: Decimal) -> (r: Option<
        Option<Decimal>,
    >)
        ensures
            r == self@.converted_directly(src_token, dst_token, amount),
    {
        if let Some((price, quote, _)) = self.price_between(src_token, dst_token) {
            if !price.is_zero() {
                let v = if src_token == quote {
                    amount.checked_div(price)
                } else {
                    amount.checked_mul(price)
                };
                return match v {
                    Some(v) => Some(Some(v)),
                    None => None,
                };
            }
        }
        Some(None)
    }

    /// An amount of one token in another one by the price of a pair, zero where there is none.
    fn convert_in_one(&self, src_token: usize, dst_token: usize, amount: Decimal) -> (r: Option<
        Decimal,
    >)
        ensures
            r == self@.converted_in_one(src_token, dst_token, amount),
    {
        if amount.is_zero() || src_token == dst_token {
            return Some(amount);
        }
        match self.convert_directly(src_token, dst_token, amount) {
            Some(Some(v)) => Some(v),
            Some(None) => Some(Decimal::zero()),
            None => None,
        }
    }

    /// An amount of one token in another one: by the price of a pair, or else over the quote
    /// token, or zero. `None` where a number overflows.
    pub fn convert(&self, src_token: usize, dst_token: usize, amount: Decimal) -> (r: Option<
        Decimal,
    >)
        ensures
            r == self@.converted(src_token, dst_token, amount),
    {
        if amount.is_zero() || src_token == dst_token {
            return Some(amount);
        }
        match self.convert_directly(src_token, dst_token, amount) {
            Some(Some(v)) => Some(v),
            Some(None) => {
                let quote = self.global_quote_token;
                if src_token != quote && dst_token != quote {
                    match self.convert_in_one(src_token, quote, amount) {
                        Some(mid) => if mid.is_zero() {
                            Some(Decimal::zero())
                        } else {
                            self.convert_in_one(quote, dst_token, mid)
                        },
                        None => None,
                    }
                } else {
                    Some(Decimal::zero())
                }
            },
            None => None,
        }
    }

    /// Takes over prices, each with its quote and its base token.
    pub fn set_prices(&mut self, prices: Vec<(usize, usize, Decimal)>)
        ensures
            final(self)@ == (OracleV { prices: listed(prices@), ..old(self)@ }),
    {
        self.prices = prices;
    }

    /// Takes over balances.
    pub fn set_balances(&mut self, balances: HashMap<usize, HashMap<usize, Decimal>>)
        ensures
            final(self)@ == (OracleV { balances: sheets(balances@), ..old(self)@ }),
    {
        self.balances = balances;
    }
}

/// With a single price of two tokens, the price between them is that price whichever of the two
/// is named first.
pub proof fn law_price_between(o: OracleV, quote: usize, base: usize)
    requires
        quote != base,
        o.price(quote, base) is Some,
        o.price(quote, base)->0.val() != 0,
        o.price(base, quote) is None,
    ensures
        o.price_between(quote, base) == Some((o.price(quote, base)->0, quote, base)),
        o.price_between(base, quote) == o.price_between(quote, base),
{
}

} // verus!
