//! What amounts are worth in another token, and what accounts hold.

use crate::decimal::{decimal_product, decimal_quotient, Decimal, MAX_SCALE};
use crate::ledger_laws::worth_exact;
use crate::ledger_model::{LedgerV, Part};
use crate::node::KindV;
use crate::number_laws::{
    above_zero, product_over, product_under, quotient_over, quotient_under, sum_off,
};
use crate::oracle::OracleV;
use crate::payment_laws::cut_to;
use crate::pool_laws::near;
use vstd::prelude::*;

verus! {

// ---- prices ----

/// Whether the pair at a position of the list of pairs prices a base token in a quote token.
pub open spec fn quotes_at(l: LedgerV, k: int, quote: usize, base: usize) -> bool {
    &&& 0 <= k < l.pairs.len()
    &&& l.pairs[k] < l.nodes.len()
    &&& l.node(l.pairs[k]).is_pair()
    &&& l.node(l.pairs[k]).pair().quote_token == quote
    &&& l.node(l.pairs[k]).pair().base_token == base
}

/// Whether the pair at a position is the first one that prices a base token in a quote token.
pub open spec fn quotes_first(l: LedgerV, k: int, quote: usize, base: usize) -> bool {
    quotes_at(l, k, quote, base) && forall|j: int| 0 <= j < k ==> !#[trigger] quotes_at(
        l,
        j,
        quote,
        base,
    )
}

/// Whether no pair prices a base token in a quote token.
pub open spec fn never_quotes(l: LedgerV, quote: usize, base: usize) -> bool {
    forall|j: int| !#[trigger] quotes_at(l, j, quote, base)
}

/// The price of the pair at a position.
pub open spec fn price_at(l: LedgerV, k: int) -> Decimal {
    l.node(l.pairs[k]).pair().price
}

/// Whether one of two tokens was registered as standing for the other.
pub open spec fn stands_for(l: LedgerV, a: usize, b: usize) -> bool {
    l.anchors.contains_pair(a, b) || l.anchors.contains_pair(b, a)
}

proof fn lemma_find_oriented(l: LedgerV, quote: usize, base: usize, i: nat) -> (k: int)
    requires
        i <= l.pairs.len(),
    ensures
        match l.find_oriented(quote, base, i) {
            Some(id) => {
                &&& i <= k < l.pairs.len()
                &&& quotes_at(l, k, quote, base)
                &&& l.pairs[k] == id
                &&& forall|j: int| i <= j < k ==> !#[trigger] quotes_at(l, j, quote, base)
            },
            None => forall|j: int| i <= j ==> !#[trigger] quotes_at(l, j, quote, base),
        },
    decreases l.pairs.len() - i,
{
    if i < l.pairs.len() {
        if quotes_at(l, i as int, quote, base) {
            i as int
        } else {
            lemma_find_oriented(l, quote, base, i + 1)
        }
    } else {
        0
    }
}

/// The price of a base token in a quote token is one where one of them stands for the other. Else it
/// is that of the first pair of the two; where the only pairs are of the other direction, their price
/// times it is one. There is none where there is no such pair or where its price is zero.
pub proof fn law_price(l: LedgerV, quote: usize, base: usize)
    requires
        l.price_of(quote, base) is Some,
    ensures
        ({
            let one = Decimal::of(1, 0);
            match l.price_of(quote, base)->0 {
                Some(price) => {
                    ||| stands_for(l, quote, base) && price.val() == Decimal::step(0)
                    ||| !stands_for(l, quote, base) && exists|k: int| #[trigger]
                        quotes_first(l, k, quote, base) && price == price_at(l, k) && price.val()
                            != 0
                    ||| !stands_for(l, quote, base) && never_quotes(l, quote, base) && exists|
                        k: int,
                    | #[trigger]
                        quotes_first(l, k, base, quote) && price_at(l, k).val() != 0 && near(
                            price.val() * price_at(l, k).val(),
                            Decimal::step(0) * Decimal::step(0),
                            quotient_over(one, price_at(l, k)),
                            quotient_under(one, price_at(l, k)),
                        )
                },
                None => {
                    &&& !stands_for(l, quote, base)
                    &&& forall|k: int| #[trigger]
                        quotes_first(l, k, quote, base) ==> price_at(l, k).val() == 0
                    &&& never_quotes(l, quote, base) ==> forall|k: int| #[trigger]
                        quotes_first(l, k, base, quote) ==> price_at(l, k).val() == 0
                },
            }
        }),
{
    Decimal::lemma_of(1, 0);
    let k = lemma_find_oriented(l, quote, base, 0);
    let m = lemma_find_oriented(l, base, quote, 0);
    if l.find_oriented(quote, base, 0) is Some {
        assert(quotes_first(l, k, quote, base));
        assert(!never_quotes(l, quote, base));
        assert forall|j: int| #[trigger] quotes_first(l, j, quote, base) implies j == k by {
            if j < k {
                assert(!quotes_at(l, j, quote, base));
            } else if k < j {
                assert(!quotes_at(l, k, quote, base));
            }
        }
    } else {
        assert forall|j: int| !#[trigger] quotes_at(l, j, quote, base) by {}
        assert(never_quotes(l, quote, base));
        if l.find_oriented(base, quote, 0) is Some {
            assert(quotes_first(l, m, base, quote));
            assert forall|j: int| #[trigger] quotes_first(l, j, base, quote) implies j == m by {
                if j < m {
                    assert(!quotes_at(l, j, base, quote));
                } else if m < j {
                    assert(!quotes_at(l, m, base, quote));
                }
            }
        }
    }
}

/// Whether no price of a token in another one can be used.
pub open spec fn no_price(p: Option<Option<Decimal>>) -> bool {
    p matches Some(price) && (price matches Some(v) ==> v.val() == 0)
}

/// Whether a price is one divided by another one.
pub open spec fn inverse_of(p: Option<Option<Decimal>>, price: Decimal) -> bool {
    let one = Decimal::of(1, 0);
    p matches Some(Some(other)) && other.val() != 0 && near(
        price.val() * other.val(),
        Decimal::step(0) * Decimal::step(0),
        quotient_over(one, other),
        quotient_under(one, other),
    )
}

/// Whether an amount at a price comes to `v`. A price that is too small to hold, and so zero, says
/// nothing of it.
pub open spec fn sells_for(amount: Decimal, price: Decimal, v: Decimal) -> bool {
    price.val() != 0 ==> near(
        v.val() * Decimal::step(0),
        amount.val() * price.val(),
        product_over(amount, price),
        product_under(amount, price),
    )
}

/// The price between two tokens is that of the second in the first; where there is none, one divided
/// by that of the first in the second, with the two tokens the other way round.
pub proof fn law_price_between(l: LedgerV, src: usize, dst: usize)
    requires
        l.price_between(src, dst) is Some,
    ensures
        match l.price_between(src, dst)->0 {
            Some((price, quote, base)) => {
                ||| quote == src && base == dst && l.price_of(src, dst) == Some(Some(price))
                ||| quote == dst && base == src && l.price_of(src, dst) == Some(None::<Decimal>)
                    && inverse_of(l.price_of(dst, src), price)
            },
            None => l.price_of(src, dst) == Some(None::<Decimal>) && no_price(
                l.price_of(dst, src),
            ),
        },
{
    Decimal::lemma_of(1, 0);
}

/// An amount in another token is what costs the amount: it times its price is the amount. Where only
/// the first token has a price in the second, the amount is taken times one divided by that price.
/// Without a price it goes over the quote token, and without that it is worth nothing.
pub proof fn law_converted_at_the_price(l: LedgerV, src: usize, dst: usize, amount: Decimal)
    requires
        l.converted(src, dst, amount) is Some,
    ensures
        ({
            let v = l.converted(src, dst, amount)->0;
            if amount.val() == 0 || src == dst {
                v == amount
            } else if no_price(l.price_of(src, dst)) {
                if !no_price(l.price_of(dst, src)) && l.price_of(src, dst)->0 is None {
                    exists|price: Decimal| #[trigger]
                        inverse_of(l.price_of(dst, src), price) && sells_for(amount, price, v)
                } else if src == l.quote || dst == l.quote {
                    v.val() == 0
                } else {
                    l.converted(src, l.quote, amount) matches Some(mid) && if mid.val() == 0 {
                        v.val() == 0
                    } else {
                        l.converted(l.quote, dst, mid) == Some(v)
                    }
                }
            } else {
                l.price_of(src, dst) matches Some(Some(price)) && near(
                    v.val() * price.val(),
                    amount.val() * Decimal::step(0),
                    quotient_over(amount, price),
                    quotient_under(amount, price),
                )
            }
        }),
{
    Decimal::lemma_zero();
    Decimal::lemma_of(1, 0);
    if !(amount.val() == 0 || src == dst) && l.price_of(src, dst) == Some(None::<Decimal>)
        && !no_price(l.price_of(dst, src)) {
        let price = (l.price_between(src, dst)->0->0).0;
        law_price_between(l, src, dst);
        assert(inverse_of(l.price_of(dst, src), price));
    }
}

// ---- exchange ----

/// Whether the pair at a position has a price and trades two tokens, in either direction.
pub open spec fn trades_at(l: LedgerV, k: int, src: usize, dst: usize) -> bool {
    (quotes_at(l, k, src, dst) || quotes_at(l, k, dst, src)) && price_at(l, k).val() != 0
}

/// Whether the pair at a position is the first one from `i` on that has a price and trades two
/// tokens.
pub open spec fn trades_first(l: LedgerV, i: int, k: int, src: usize, dst: usize) -> bool {
    &&& i <= k
    &&& trades_at(l, k, src, dst)
    &&& forall|j: int| i <= j < k ==> !#[trigger] trades_at(l, j, src, dst)
}

/// Whether an amount is worth `v` by the pair at a position: `v` is `exact` without what that has
/// behind the engine's precision. Where the first token is the pair's quote token, `exact` costs the
/// amount; else the amount costs `exact`.
pub open spec fn exchanges_at(
    l: LedgerV,
    k: int,
    src: usize,
    dst: usize,
    amount: Decimal,
    v: Decimal,
    exact: Decimal,
) -> bool {
    let price = price_at(l, k);
    &&& cut_to(exact, l.precision, v)
    &&& if quotes_at(l, k, src, dst) {
        near(
            exact.val() * price.val(),
            amount.val() * Decimal::step(0),
            quotient_over(amount, price),
            quotient_under(amount, price),
        )
    } else {
        near(
            exact.val() * Decimal::step(0),
            amount.val() * price.val(),
            product_over(amount, price),
            product_under(amount, price),
        )
    }
}

/// Whether an amount is worth `v` by the first pair of two tokens that has a price.
pub open spec fn exchanges_first(
    l: LedgerV,
    i: int,
    src: usize,
    dst: usize,
    amount: Decimal,
    v: Decimal,
) -> bool {
    exists|k: int, exact: Decimal| #[trigger]
        exchanges_at(l, k, src, dst, amount, v, exact) && trades_first(l, i, k, src, dst)
}

/// Whether no pair of two tokens has a price.
pub open spec fn never_trades(l: LedgerV, i: int, src: usize, dst: usize) -> bool {
    forall|j: int| i <= j ==> !#[trigger] trades_at(l, j, src, dst)
}

proof fn lemma_exchanged_directly(l: LedgerV, src: usize, dst: usize, amount: Decimal, i: nat)
    requires
        l.exchanged_directly(src, dst, amount, i) is Some,
        l.precision <= MAX_SCALE,
        i <= l.pairs.len(),
    ensures
        match l.exchanged_directly(src, dst, amount, i)->0 {
            Some(v) => exchanges_first(l, i as int, src, dst, amount, v),
            None => never_trades(l, i as int, src, dst),
        },
    decreases l.pairs.len() - i,
{
    if i < l.pairs.len() {
        let k = i as int;
        let price = price_at(l, k);
        if trades_at(l, k, src, dst) {
            let exact = if quotes_at(l, k, src, dst) {
                decimal_quotient(amount, price)->0
            } else {
                decimal_product(amount, price)->0
            };
            amount.lemma_quotient(price);
            amount.lemma_product(price);
            exact.law_truncated(l.precision as nat);
            let v = l.exchanged_directly(src, dst, amount, i)->0->0;
            assert(exchanges_at(l, k, src, dst, amount, v, exact));
            assert(trades_first(l, k, k, src, dst));
        } else {
            lemma_exchanged_directly(l, src, dst, amount, i + 1);
            let r = l.exchanged_directly(src, dst, amount, i)->0;
            assert(r == l.exchanged_directly(src, dst, amount, i + 1)->0);
            match r {
                Some(v) => {
                    let (m, exact) = choose|m: int, exact: Decimal| #[trigger]
                        exchanges_at(l, m, src, dst, amount, v, exact) && trades_first(
                            l,
                            k + 1,
                            m,
                            src,
                            dst,
                        );
                    assert(trades_first(l, k, m, src, dst));
                    assert(exchanges_at(l, m, src, dst, amount, v, exact));
                },
                None => {
                    assert forall|j: int| k <= j implies !#[trigger] trades_at(l, j, src, dst) by {
                        if j > k {
                            assert(never_trades(l, k + 1, src, dst));
                        }
                    }
                },
            }
        }
    }
}

/// An amount is worth in another token what it trades for by the first pair of the two that has a
/// price. Without one it goes over the quote token, and without that it is worth nothing.
pub proof fn law_exchanged_at_the_price(l: LedgerV, src: usize, dst: usize, amount: Decimal)
    requires
        l.exchanged(src, dst, amount) is Some,
        l.precision <= MAX_SCALE,
    ensures
        ({
            let v = l.exchanged(src, dst, amount)->0;
            if amount.val() == 0 || src == dst {
                v == amount
            } else if !never_trades(l, 0, src, dst) {
                exchanges_first(l, 0, src, dst, amount, v)
            } else if src == l.quote || dst == l.quote {
                v.val() == 0
            } else {
                l.exchanged(src, l.quote, amount) matches Some(mid) && if mid.val() == 0 {
                    v.val() == 0
                } else {
                    l.exchanged(l.quote, dst, mid) == Some(v)
                }
            }
        }),
{
    Decimal::lemma_zero();
    if amount.val() != 0 && src != dst {
        lemma_exchanged_directly(l, src, dst, amount, 0);
        let r = l.exchanged_directly(src, dst, amount, 0)->0;
        if r is Some {
            let v = r->0;
            let (k, exact) = choose|k: int, exact: Decimal| #[trigger]
                exchanges_at(l, k, src, dst, amount, v, exact) && trades_first(l, 0, k, src, dst);
            assert(trades_at(l, k, src, dst));
            assert(!never_trades(l, 0, src, dst));
        }
    }
}

// ---- a snapshot ----

/// An amount in another token by a snapshot of prices: where the first token is a quote token of the
/// second, what the amount buys; else what it sells for; without a price, over the quote token; and
/// without that, nothing.
pub proof fn law_snapshot_converts(o: OracleV, src: usize, dst: usize, amount: Decimal)
    requires
        o.converted(src, dst, amount) is Some,
    ensures
        ({
            let v = o.converted(src, dst, amount)->0;
            let forth = o.prices.dom().contains((src, dst));
            let back = o.prices.dom().contains((dst, src));
            let price = if forth { o.prices[(src, dst)] } else { o.prices[(dst, src)] };
            if amount.val() == 0 || src == dst {
                v == amount
            } else if (forth || back) && price.val() != 0 {
                if forth {
                    near(
                        v.val() * price.val(),
                        amount.val() * Decimal::step(0),
                        quotient_over(amount, price),
                        quotient_under(amount, price),
                    )
                } else {
                    near(
                        v.val() * Decimal::step(0),
                        amount.val() * price.val(),
                        product_over(amount, price),
                        product_under(amount, price),
                    )
                }
            } else if src == o.quote || dst == o.quote {
                v.val() == 0
            } else {
                o.converted(src, o.quote, amount) matches Some(mid) && if mid.val() == 0 {
                    v.val() == 0
                } else {
                    o.converted(o.quote, dst, mid) == Some(v)
                }
            }
        }),
{
    Decimal::lemma_zero();
}

// ---- accounts ----

/// What those of some orders that are among the first `k` nodes hold of a token.
pub open spec fn in_orders(l: LedgerV, orders: Set<usize>, token: usize, k: nat) -> int
    decreases k,
{
    if k == 0 {
        0
    } else {
        in_orders(l, orders, token, (k - 1) as nat) + if orders.contains((k - 1) as usize) {
            l.nodes[k - 1].balance(token).val()
        } else {
            0
        }
    }
}

/// By how much the sums of what a node and some orders hold may be off.
pub open spec fn in_orders_off(
    l: LedgerV,
    id: usize,
    orders: Set<usize>,
    token: usize,
    k: nat,
) -> int
    decreases k,
{
    if k == 0 {
        0
    } else {
        in_orders_off(l, id, orders, token, (k - 1) as nat) + match l.held_with_orders(
            id,
            orders,
            token,
            (k - 1) as nat,
        ) {
            Some(v) => if orders.contains((k - 1) as usize) {
                sum_off(v, l.nodes[k - 1].balance(token))
            } else {
                0
            },
            None => 0,
        }
    }
}

proof fn lemma_in_orders(l: LedgerV, id: usize, orders: Set<usize>, token: usize, k: nat)
    requires
        l.held_with_orders(id, orders, token, k) is Some,
    ensures
        near(
            (l.held_with_orders(id, orders, token, k)->0).val(),
            l.node(id).balance(token).val() + in_orders(l, orders, token, k),
            in_orders_off(l, id, orders, token, k),
            in_orders_off(l, id, orders, token, k),
        ),
    decreases k,
{
    if k > 0 {
        lemma_in_orders(l, id, orders, token, (k - 1) as nat);
    }
}

/// What an account holds of a token is what it has itself and what its open orders have.
pub proof fn law_equity(l: LedgerV, account: usize, token: usize)
    requires
        l.equity(account, token) is Some,
    ensures
        match l.node(account).kind {
            KindV::Account(orders) => near(
                (l.equity(account, token)->0).val(),
                l.node(account).balance(token).val() + in_orders(
                    l,
                    orders,
                    token,
                    l.nodes.len(),
                ),
                in_orders_off(l, account, orders, token, l.nodes.len()),
                in_orders_off(l, account, orders, token, l.nodes.len()),
            ),
            _ => l.equity(account, token)->0 == l.node(account).balance(token),
        },
{
    match l.node(account).kind {
        KindV::Account(orders) => {
            lemma_in_orders(l, account, orders, token, l.nodes.len());
        },
        _ => {},
    }
}

/// A new account has no orders and holds nothing, and the ones before stay.
pub proof fn law_account_registered(l: LedgerV)
    requires
        l.nodes.len() < usize::MAX,
    ensures
        ({
            let m = l.account_registered();
            let id = l.nodes.len() as usize;
            &&& m.accounts == l.accounts.push(id)
            &&& m == (LedgerV { nodes: m.nodes, accounts: m.accounts, ..l })
            &&& m.nodes.len() == l.nodes.len() + 1
            &&& forall|i: usize| l.has(i) ==> #[trigger] m.node(i) == l.node(i)
            &&& m.account(id) matches Ok(orders) && orders.is_empty()
            &&& forall|t: usize| (#[trigger] m.node(id).balance(t)).val() == 0
        }),
{
    Decimal::lemma_zero();
}

/// What an account holds is listed for exactly those tokens that it holds something of.
pub proof fn law_equities(l: LedgerV, id: usize, k: nat, token: usize)
    requires
        k <= l.tokens.len(),
        l.equities(id, k) is Some,
    ensures
        ({
            let m = l.equities(id, k)->0;
            &&& m.dom().contains(token) ==> l.equity(id, token) == Some(m[token])
                && m[token].val() != 0
            &&& m.dom().contains(token) <==> exists|i: int|
                0 <= i < k && (#[trigger] l.tokens[i]).0 == token && (l.equity(id, token)
                    matches Some(v) && v.val() != 0)
        }),
    decreases k,
{
    if k > 0 {
        law_equities(l, id, (k - 1) as nat, token);
        let m = l.equities(id, k)->0;
        if l.tokens[k - 1].0 == token && (l.equity(id, token)->0).val() != 0 {
            assert(m.dom().contains(token));
        } else {
            if m.dom().contains(token) {
                let i = choose|i: int|
                    0 <= i < k - 1 && (#[trigger] l.tokens[i]).0 == token && (l.equity(id, token)
                        matches Some(v) && v.val() != 0);
                assert(l.tokens[i].0 == token);
            }
        }
    }
}

/// What an account's holding of a token is worth in another one.
pub open spec fn value_of(l: LedgerV, id: usize, dst: usize, token: usize) -> int {
    match l.account_equity(id, token) {
        Ok(held) => match l.exchanged(token, dst, held) {
            Some(v) => if held.val() == 0 {
                0
            } else {
                v.val()
            },
            None => 0,
        },
        Err(_) => 0,
    }
}

/// What an account's holdings of the first `k` tokens are worth together: all of them, those above
/// zero, or the amounts of those below zero.
pub open spec fn values(l: LedgerV, id: usize, dst: usize, part: Part, k: nat) -> int
    decreases k,
{
    if k == 0 {
        0
    } else {
        let v = value_of(l, id, dst, l.tokens[k - 1].0);
        values(l, id, dst, part, (k - 1) as nat) + match part {
            Part::Net => v,
            Part::Assets => above_zero(v),
            Part::Liabilities => above_zero(-v),
        }
    }
}

/// What an account is worth in a token is what all its holdings are worth in it; what it owns, those
/// above zero; what it owes, the amounts of those below zero. The sums must be exact.
pub proof fn law_worth_of_all(l: LedgerV, id: usize, dst: usize, part: Part, k: nat)
    requires
        worth_exact(l, id, dst, k),
        l.worth(id, dst, part, k) is Ok,
    ensures
        (l.worth(id, dst, part, k)->Ok_0).val() == values(l, id, dst, part, k),
    decreases k,
{
    Decimal::lemma_zero();
    if k > 0 {
        law_worth_of_all(l, id, dst, part, (k - 1) as nat);
        let token = l.tokens[k - 1].0;
        let held = l.account_equity(id, token)->Ok_0;
        if held.val() != 0 {
            let value = l.exchanged(token, dst, held)->0;
            value.lemma_magnitude();
        }
    }
}

} // verus!
