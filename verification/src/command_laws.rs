//! What the console reads, what it asks the engine for, and what it shows.

use crate::console_model::{ConsoleV, BalanceV};
use crate::decimal::{decimal_parsed, decimal_quotient, Decimal, MAX_SCALE};
use crate::error::Error;
use crate::ledger_model::LedgerV;
use crate::node::MsgV;
use crate::number_laws::{quotient_over, quotient_under};
use crate::payment_laws::cut_to;
use crate::pool_laws::near;
use crate::rpte_model::RpteV;
use crate::text::{
    is_space, leading_space, parsed, trailing_end, trimmed, words, words_so_far,
};
use vstd::prelude::*;

verus! {

// ---- words ----

/// Whether a text has no white space.
pub open spec fn one_word(s: Seq<char>) -> bool {
    s.len() > 0 && forall|i: int| 0 <= i < s.len() ==> !is_space(#[trigger] s[i])
}

proof fn lemma_words_local(s: Seq<char>, t: Seq<char>, k: nat)
    requires
        k <= s.len(),
        k <= t.len(),
        s.take(k as int) == t.take(k as int),
    ensures
        words_so_far(s, k) == words_so_far(t, k),
    decreases k,
{
    if k > 0 {
        assert(s.take(k - 1) =~= s.take(k as int).take(k - 1));
        assert(t.take(k - 1) =~= t.take(k as int).take(k - 1));
        assert(s[k - 1] == s.take(k as int)[k - 1]);
        assert(t[k - 1] == t.take(k as int)[k - 1]);
        lemma_words_local(s, t, (k - 1) as nat);
    }
}

proof fn lemma_words_after(a: Seq<char>, c: char, b: Seq<char>, k: nat)
    requires
        is_space(c),
        k <= b.len(),
    ensures
        ({
            let s = a.push(c) + b;
            let n = (a.len() + 1 + k) as nat;
            &&& words_so_far(s, n).0 == words(a) + words_so_far(b, k).0
            &&& words_so_far(s, n).1 == words_so_far(b, k).1
            &&& words_so_far(b, k).1 ==> words_so_far(b, k).0.len() > 0
        }),
    decreases k,
{
    let s = a.push(c) + b;
    if k == 0 {
        assert(s.take(a.len() as int) =~= a.take(a.len() as int));
        lemma_words_local(s, a, a.len());
        assert(s[a.len() as int] == c);
        assert(words(a) + Seq::<Seq<char>>::empty() =~= words(a));
    } else {
        lemma_words_after(a, c, b, (k - 1) as nat);
        let (prev, open) = words_so_far(b, (k - 1) as nat);
        let (now, _) = words_so_far(b, k);
        let x = b[k - 1];
        assert(s[(a.len() + k) as int] == x);
        let n = (a.len() + 1 + k) as nat;
        let was = words_so_far(s, (n - 1) as nat).0;
        if !is_space(x) {
            if open {
                assert(was.last() == prev.last());
                assert(was.drop_last() =~= words(a) + prev.drop_last());
                assert(was.drop_last().push(was.last().push(x)) =~= words(a) + now);
            } else {
                assert(was.push(seq![x]) =~= words(a) + now);
            }
        }
    }
}

/// The words of a text are those before a white space and those after it.
pub proof fn law_words_apart(a: Seq<char>, c: char, b: Seq<char>)
    requires
        is_space(c),
    ensures
        words(a.push(c) + b) == words(a) + words(b),
{
    lemma_words_after(a, c, b, b.len());
}

proof fn lemma_one_word(s: Seq<char>, k: nat)
    requires
        one_word(s),
        0 < k <= s.len(),
    ensures
        words_so_far(s, k) == (seq![s.take(k as int)], true),
    decreases k,
{
    assert(!is_space(s[k - 1]));
    if k > 1 {
        lemma_one_word(s, (k - 1) as nat);
        let prev = seq![s.take(k - 1)];
        assert(prev.drop_last() =~= Seq::<Seq<char>>::empty());
        assert(s.take(k - 1).push(s[k - 1]) =~= s.take(k as int));
        assert(prev.drop_last().push(prev.last().push(s[k - 1])) =~= seq![s.take(k as int)]);
    } else {
        assert(words_so_far(s, 0).0.push(seq![s[0]]) =~= seq![s.take(1)]) by {
            assert(seq![s[0]] =~= s.take(1));
        }
    }
}

/// A text without white space is one word, and an empty text has none.
pub proof fn law_one_word(s: Seq<char>)
    ensures
        one_word(s) ==> words(s) == seq![s],
        s.len() == 0 ==> words(s).len() == 0,
{
    if one_word(s) {
        lemma_one_word(s, s.len());
        assert(s.take(s.len() as int) =~= s);
    }
}

proof fn lemma_leading(s: Seq<char>, i: nat)
    requires
        i <= s.len(),
    ensures
        i <= leading_space(s, i) <= s.len(),
        forall|j: int| i <= j < leading_space(s, i) ==> is_space(#[trigger] s[j]),
        leading_space(s, i) < s.len() ==> !is_space(s[leading_space(s, i) as int]),
    decreases s.len() - i,
{
    if i < s.len() && is_space(s[i as int]) {
        lemma_leading(s, i + 1);
    }
}

proof fn lemma_trailing(s: Seq<char>, from: nat, n: nat)
    requires
        from <= n <= s.len(),
    ensures
        from <= trailing_end(s, from, n) <= n,
        forall|j: int| trailing_end(s, from, n) <= j < n ==> is_space(#[trigger] s[j]),
        trailing_end(s, from, n) > from ==> !is_space(s[trailing_end(s, from, n) - 1]),
    decreases n,
{
    if n > from && is_space(s[n - 1]) {
        lemma_trailing(s, from, (n - 1) as nat);
    }
}

/// Whether a text is another one with white space of a length before it and more behind it.
pub open spec fn padded(s: Seq<char>, t: Seq<char>, before: int) -> bool {
    &&& 0 <= before
    &&& before + t.len() <= s.len()
    &&& t == s.subrange(before, before + t.len())
    &&& forall|j: int|
        0 <= j < s.len() && !(before <= j < before + t.len()) ==> is_space(#[trigger] s[j])
}

/// A trimmed text is the text without the white space at its ends, and begins and ends with
/// something else.
pub proof fn law_trimmed(s: Seq<char>)
    ensures
        exists|before: int| #[trigger] padded(s, trimmed(s), before),
        trimmed(s).len() > 0 ==> !is_space(trimmed(s)[0]) && !is_space(trimmed(s).last()),
{
    lemma_leading(s, 0);
    let from = leading_space(s, 0);
    lemma_trailing(s, from, s.len());
    assert(padded(s, trimmed(s), from as int));
}

// ---- orders ----

/// Whether a text asks for a volume: it is the number, or, with a slash before a number, what the
/// account holds of the token divided by it, `exact`, without what that has behind the engine's
/// precision.
pub open spec fn asks_volume<L>(
    text: Seq<char>,
    r: RpteV<L>,
    account: usize,
    token: usize,
    volume: Decimal,
    exact: Decimal,
) -> bool {
    if text.len() > 0 && text[0] == '/' {
        match (parsed(text.skip(1), u64::MAX as nat), r.ledger.account_equity(account, token)) {
            (Some(divisor), Ok(held)) => {
                let by = Decimal::of(divisor as int, 0);
                &&& divisor > 0
                &&& near(
                    exact.val() * by.val(),
                    held.val() * Decimal::step(0),
                    quotient_over(held, by),
                    quotient_under(held, by),
                )
                &&& cut_to(exact, r.ledger.precision, volume)
            },
            _ => false,
        }
    } else {
        decimal_parsed(text) == Some(volume)
    }
}

proof fn lemma_asks_volume<L>(text: Seq<char>, r: RpteV<L>, account: usize, token: usize)
    requires
        r.ledger.precision <= MAX_SCALE,
        crate::console_model::volume_of(text, r, account, token) is Ok,
    ensures
        exists|exact: Decimal| #[trigger]
            asks_volume(
                text,
                r,
                account,
                token,
                crate::console_model::volume_of(text, r, account, token)->Ok_0,
                exact,
            ),
{
    let v = crate::console_model::volume_of(text, r, account, token)->Ok_0;
    if text.len() > 0 && text[0] == '/' {
        assert(text.drop_first() =~= text.skip(1));
        let divisor = parsed(text.skip(1), u64::MAX as nat)->0;
        let held = r.ledger.account_equity(account, token)->Ok_0;
        let by = Decimal::of(divisor as int, 0);
        let exact = decimal_quotient(held, by)->0;
        held.lemma_quotient(by);
        exact.law_truncated(r.ledger.precision as nat);
        assert(asks_volume(text, r, account, token, v, exact));
    } else {
        assert(asks_volume(text, r, account, token, v, v));
    }
}

/// Whether a command to trade was turned into a request of the account for an order: a limit order
/// where a price is given, else a market order. It spends the first token that is named to get the
/// second; the volume and the price lose what they have behind the engine's precision.
pub open spec fn order_sent<L>(
    c: ConsoleV,
    w: Seq<Seq<char>>,
    r: RpteV<L>,
    limit: bool,
    volume: Decimal,
    exact: Decimal,
    m: MsgV,
) -> bool {
    &&& c.account is Some
    &&& r.ledger.token_by_name(w[1]) is Some
    &&& r.ledger.token_by_name(w[2]) is Some
    &&& ({
        let account = c.account->0;
        let src = r.ledger.token_by_name(w[1])->0;
        let dst = r.ledger.token_by_name(w[2])->0;
        &&& r.ledger.swap_allowed(src, dst)
        &&& asks_volume(w[3], r, account, src, volume, exact)
        &&& match m {
            MsgV::OpenOrder { src_id, owner_node_id, src_token, dst_token, volume: v, price } => {
                &&& limit && w.len() >= 5
                &&& src_id == account && owner_node_id == account
                &&& src_token == src && dst_token == dst
                &&& volume.valid() ==> cut_to(volume, r.ledger.precision, v)
                &&& decimal_parsed(w[4]) matches Some(p) && (p.valid() ==> cut_to(
                    p,
                    r.ledger.precision,
                    price,
                ))
            },
            MsgV::SwapOrder { src_id, owner_node_id, src_token, dst_token, volume: v } => {
                &&& !limit && w.len() >= 4
                &&& src_id == account && owner_node_id == account
                &&& src_token == src && dst_token == dst
                &&& volume.valid() ==> cut_to(volume, r.ledger.precision, v)
            },
            _ => false,
        }
    })
}

/// Whether the engine got one request for an order by a command to trade, and nothing else.
pub open spec fn sends_order<L>(
    c: ConsoleV,
    w: Seq<Seq<char>>,
    r: RpteV<L>,
    s: RpteV<L>,
    limit: bool,
) -> bool {
    exists|volume: Decimal, exact: Decimal, m: MsgV| #[trigger]
        order_sent(c, w, r, limit, volume, exact, m) && s == (RpteV { msgs: r.msgs.push(m), ..r })
}

proof fn lemma_order_sent<L>(c: ConsoleV, w: Seq<Seq<char>>, r: RpteV<L>, limit: bool)
    requires
        r.ledger.precision <= MAX_SCALE,
    ensures
        ({
            let s = if limit {
                c.made(w, r).1
            } else {
                c.swapped(w, r).1
            };
            s == r || sends_order(c, w, r, s, limit)
        }),
{
    let s = if limit {
        c.made(w, r).1
    } else {
        c.swapped(w, r).1
    };
    if let Ok((account, src, dst, volume, price)) = c.order_asked(w, r, limit) {
        lemma_asks_volume(w[3], r, account, src);
        let exact = choose|exact: Decimal| #[trigger]
            asks_volume(w[3], r, account, src, volume, exact);
        let m = s.msgs.last();
        if volume.valid() {
            volume.law_truncated(r.ledger.precision as nat);
        }
        if price.valid() {
            price.law_truncated(r.ledger.precision as nat);
        }
        assert(order_sent(c, w, r, limit, volume, exact, m));
    }
}

/// The words by which commands are known.
proof fn lemma_command_words()
    ensures
        "make"@ != "pairs"@ && "make"@ != "p"@ && "make"@ != "kline"@ && "make"@ != "k"@,
        "make"@ != "login"@ && "make"@ != "l"@ && "make"@ != "bal"@ && "make"@ != "b"@,
        "make"@ != "orders"@ && "make"@ != "o"@,
        "m"@ != "pairs"@ && "m"@ != "p"@ && "m"@ != "kline"@ && "m"@ != "k"@,
        "m"@ != "login"@ && "m"@ != "l"@ && "m"@ != "bal"@ && "m"@ != "b"@,
        "m"@ != "orders"@ && "m"@ != "o"@,
        "swap"@ != "pairs"@ && "swap"@ != "p"@ && "swap"@ != "kline"@ && "swap"@ != "k"@,
        "swap"@ != "login"@ && "swap"@ != "l"@ && "swap"@ != "bal"@ && "swap"@ != "b"@,
        "swap"@ != "orders"@ && "swap"@ != "o"@ && "swap"@ != "make"@ && "swap"@ != "m"@,
        "s"@ != "pairs"@ && "s"@ != "p"@ && "s"@ != "kline"@ && "s"@ != "k"@,
        "s"@ != "login"@ && "s"@ != "l"@ && "s"@ != "bal"@ && "s"@ != "b"@,
        "s"@ != "orders"@ && "s"@ != "o"@ && "s"@ != "make"@ && "s"@ != "m"@,
{
    reveal_strlit("make");
    reveal_strlit("m");
    reveal_strlit("swap");
    reveal_strlit("s");
    reveal_strlit("pairs");
    reveal_strlit("p");
    reveal_strlit("kline");
    reveal_strlit("k");
    reveal_strlit("login");
    reveal_strlit("l");
    reveal_strlit("bal");
    reveal_strlit("b");
    reveal_strlit("orders");
    reveal_strlit("o");
    assert("make"@[0] == 'm' && "m"@[0] == 'm' && "swap"@[0] == 's' && "s"@[0] == 's');
    assert("make"@[1] == 'a' && "swap"@[1] == 'w');
    assert("p"@[0] == 'p' && "k"@[0] == 'k' && "l"@[0] == 'l' && "b"@[0] == 'b' && "o"@[0] == 'o');
    assert("pairs"@[0] == 'p' && "kline"@[0] == 'k' && "login"@[0] == 'l' && "bal"@[0] == 'b'
        && "orders"@[0] == 'o');
}

/// A command to trade sends one request for an order, or none: `make` for a limit order, `swap` for
/// a market order. No other command sends any.
pub proof fn law_order_command<L>(c: ConsoleV, cmd: Seq<char>, r: RpteV<L>)
    requires
        r.ledger.precision <= MAX_SCALE,
    ensures
        ({
            let s = c.executed(cmd, r).1;
            let w = words(cmd);
            let limit = w.len() > 0 && (w[0] == "make"@ || w[0] == "m"@);
            let market = w.len() > 0 && (w[0] == "swap"@ || w[0] == "s"@);
            ||| s == r
            ||| limit && sends_order(c, w, r, s, true)
            ||| market && sends_order(c, w, r, s, false)
        }),
{
    let w = words(cmd);
    lemma_command_words();
    lemma_order_sent(c, w, r, true);
    lemma_order_sent(c, w, r, false);
}

/// A command to trade is turned into a request where somebody is logged in, both tokens are known
/// and may be traded for each other, and the volume, and the price of a limit order, can be read.
pub proof fn law_order_command_heard<L>(c: ConsoleV, cmd: Seq<char>, r: RpteV<L>)
    requires
        ({
            let w = words(cmd);
            let limit = w.len() > 0 && (w[0] == "make"@ || w[0] == "m"@);
            let market = w.len() > 0 && (w[0] == "swap"@ || w[0] == "s"@);
            let src = r.ledger.token_by_name(w[1]);
            let dst = r.ledger.token_by_name(w[2]);
            &&& limit || market
            &&& limit ==> w.len() >= 5 && decimal_parsed(w[4]) is Some
            &&& w.len() >= 4
            &&& c.account is Some
            &&& src is Some && dst is Some
            &&& r.ledger.swap_allowed(src->0, dst->0)
            &&& if w[3].len() > 0 && w[3][0] == '/' {
                match (
                    parsed(w[3].skip(1), u64::MAX as nat),
                    r.ledger.account_equity(c.account->0, src->0),
                ) {
                    (Some(n), Ok(held)) => n > 0 && decimal_quotient(
                        held,
                        Decimal::of(n as int, 0),
                    ) is Some,
                    _ => false,
                }
            } else {
                decimal_parsed(w[3]) is Some
            }
        }),
    ensures
        c.executed(cmd, r).1.msgs.len() == r.msgs.len() + 1,
{
    let w = words(cmd);
    lemma_command_words();
    if w[3].len() > 0 && w[3][0] == '/' {
        assert(w[3].drop_first() =~= w[3].skip(1));
    }
}

// ---- tables ----

/// Whether a line of the table of balances is that of a token: its name, what the account can
/// spend, what it holds with its open orders, and what that is worth in the quote token.
pub open spec fn row_of<L>(r: RpteV<L>, account: usize, token: usize, row: BalanceV) -> bool {
    let l = r.ledger;
    &&& l.token_name(token) matches Some(name) ==> row.name == name
    &&& l.node_balance(account, token) matches Ok(v) ==> row.available == v
    &&& l.account_equity(account, token) == Ok::<Decimal, Error>(row.equity)
    &&& row.equity.val() != 0
    &&& if token == l.quote {
        row.converted == row.equity
    } else {
        l.exchanged(token, l.quote, row.equity) == Some(row.converted)
    }
}

/// Whether the account holds something of a token.
pub open spec fn holds_some<L>(r: RpteV<L>, account: usize, token: usize) -> bool {
    r.ledger.account_equity(account, token) matches Ok(v) && v.val() != 0
}

/// Whether these are the lines of the tokens at the given positions among the first `k`, in their
/// order, and no other token among them is held.
pub open spec fn rows_of<L>(
    r: RpteV<L>,
    account: usize,
    rows: Seq<BalanceV>,
    at: Seq<int>,
    k: nat,
) -> bool {
    &&& at.len() == rows.len()
    &&& forall|j: int|
        0 <= j < rows.len() ==> 0 <= #[trigger] at[j] < k && row_of(
            r,
            account,
            r.ledger.tokens[at[j]].0,
            rows[j],
        )
    &&& forall|i: int, j: int| 0 <= i < j < at.len() ==> #[trigger] at[i] < #[trigger] at[j]
    &&& forall|i: int|
        0 <= i < k && holds_some(r, account, (#[trigger] r.ledger.tokens[i]).0) ==> at.contains(i)
}

proof fn lemma_rows_of<L>(r: RpteV<L>, account: usize, k: nat) -> (at: Seq<int>)
    requires
        k <= r.ledger.tokens.len(),
        ConsoleV::holdings(r, account, k) is Some,
    ensures
        rows_of(r, account, ConsoleV::holdings(r, account, k)->0, at, k),
    decreases k,
{
    Decimal::lemma_zero();
    if k == 0 {
        Seq::empty()
    } else {
        let before = lemma_rows_of(r, account, (k - 1) as nat);
        let rows = ConsoleV::holdings(r, account, (k - 1) as nat)->0;
        let now = ConsoleV::holdings(r, account, k)->0;
        let token = r.ledger.tokens[k - 1].0;
        let at = if holds_some(r, account, token) {
            before.push(k - 1)
        } else {
            before
        };
        assert forall|j: int| 0 <= j < now.len() implies 0 <= #[trigger] at[j] < k && row_of(
            r,
            account,
            r.ledger.tokens[at[j]].0,
            now[j],
        ) by {
            if j < rows.len() {
                assert(at[j] == before[j]);
                assert(now[j] == rows[j]);
            }
        }
        assert forall|i: int|
            0 <= i < k && holds_some(
                r,
                account,
                (#[trigger] r.ledger.tokens[i]).0,
            ) implies at.contains(i) by {
            if i < k - 1 {
                assert(before.contains(i));
                let j = choose|j: int| 0 <= j < before.len() && before[j] == i;
                assert(at[j] == i);
            } else {
                assert(at[before.len() as int] == i);
            }
        }
        at
    }
}

/// The table of balances has one line for each token that the account holds something of, and no
/// other.
pub proof fn law_balances_shown<L>(r: RpteV<L>, account: usize)
    requires
        ConsoleV::holdings(r, account, r.ledger.tokens.len()) is Some,
    ensures
        exists|at: Seq<int>| #[trigger]
            rows_of(
                r,
                account,
                ConsoleV::holdings(r, account, r.ledger.tokens.len())->0,
                at,
                r.ledger.tokens.len(),
            ),
{
    let at = lemma_rows_of(r, account, r.ledger.tokens.len());
}

/// The open orders are those registered orders that are open, each once and in the order of their
/// nodes.
pub proof fn law_open_orders(l: LedgerV, k: nat)
    requires
        k <= l.nodes.len(),
        l.nodes.len() <= usize::MAX,
    ensures
        forall|id: usize| #[trigger]
            l.open_orders(k).contains(id) <==> id < k && l.orders.contains(id) && l.node(
                id,
            ).is_open(),
        forall|i: int, j: int|
            0 <= i < j < l.open_orders(k).len() ==> #[trigger] l.open_orders(k)[i]
                < #[trigger] l.open_orders(k)[j],
    decreases k,
{
    if k > 0 {
        law_open_orders(l, (k - 1) as nat);
        let prev = l.open_orders((k - 1) as nat);
        let now = l.open_orders(k);
        let last = (k - 1) as usize;
        assert forall|i: int| 0 <= i < prev.len() implies #[trigger] prev[i] < last by {
            assert(prev.contains(prev[i]));
        }
        assert forall|id: usize| #[trigger] now.contains(id) <==> id < k && l.orders.contains(id)
            && l.node(id).is_open() by {
            if prev.contains(id) {
                let j = choose|j: int| 0 <= j < prev.len() && prev[j] == id;
                assert(now[j] == id);
            }
            if id == last && l.orders.contains(id) && l.node(id).is_open() {
                assert(now[prev.len() as int] == id);
            }
            if now.contains(id) {
                let j = choose|j: int| 0 <= j < now.len() && now[j] == id;
                if j < prev.len() {
                    assert(prev[j] == id);
                    assert(prev.contains(id));
                }
            }
        }
    }
}

/// The table of pairs has one line for each pair of the ledger, in their order, with its tokens and
/// its price.
pub proof fn law_pairs_shown(l: LedgerV, k: nat)
    requires
        k <= l.pairs.len(),
        forall|i: int|
            0 <= i < l.pairs.len() ==> l.has(#[trigger] l.pairs[i]) && l.node(
                l.pairs[i],
            ).is_pair(),
    ensures
        l.pairs_info(k).len() == k,
        forall|i: int|
            0 <= i < k ==> {
                let line = #[trigger] l.pairs_info(k)[i];
                let p = l.node(l.pairs[i]).pair();
                &&& line.0 == l.pairs[i]
                &&& line.1 == p.quote_token
                &&& line.2 == p.base_token
                &&& line.3 == p.price
            },
    decreases k,
{
    if k > 0 {
        law_pairs_shown(l, (k - 1) as nat);
        assert(l.has(l.pairs[k - 1]));
        assert(l.pair_at(k - 1));
        let prev = l.pairs_info((k - 1) as nat);
        assert forall|i: int| 0 <= i < k implies {
            let line = #[trigger] l.pairs_info(k)[i];
            let p = l.node(l.pairs[i]).pair();
            &&& line.0 == l.pairs[i]
            &&& line.1 == p.quote_token
            &&& line.2 == p.base_token
            &&& line.3 == p.price
        } by {
            if i < k - 1 {
                assert(l.pairs_info(k)[i] == prev[i]);
            }
        }
    }
}

} // verus!
