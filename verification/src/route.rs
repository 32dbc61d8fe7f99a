//! Routes from one token to another, over one pair or several.

use crate::decimal::Decimal;
use crate::text::{concat, number};
use vstd::prelude::*;

verus! {

/// One step of a route: a pair that turns one token into another.
#[derive(Clone, Copy, Debug)]
pub struct RouteHop {
    pub pair_id: usize,
    pub src_token: usize,
    pub dst_token: usize,
}

/// A route from one token to another: over one pair, over several hops, or left open.
#[derive(Clone, Debug)]
pub struct Route {
    /// Where the route begins.
    pub src_token: usize,
    /// Where it ends.
    pub dst_token: usize,
    /// The pair of a direct route.
    pub pair_id: Option<usize>,
    /// The hops of a longer one.
    pub hops: Vec<RouteHop>,
}

/// The name of a token, or nothing where it has none.
pub open spec fn name_text(name: Option<String>) -> Seq<char> {
    match name {
        Some(s) => s@,
        None => Seq::empty(),
    }
}

/// The text of hops between tokens of the given names.
pub open spec fn hops_text(names: Seq<(Option<String>, Option<String>)>) -> Seq<char>
    decreases names.len(),
{
    if names.len() == 0 {
        Seq::empty()
    } else {
        let hop = name_text(names.last().0) + "→"@ + name_text(names.last().1);
        if names.len() == 1 {
            hop
        } else {
            hops_text(names.drop_last()) + " → "@ + hop
        }
    }
}

/// Whether these are names that the function gives for the ends of the first `n` hops.
pub open spec fn hops_named<F: Fn(usize) -> Option<String>>(
    f: F,
    hops: Seq<RouteHop>,
    names: Seq<(Option<String>, Option<String>)>,
) -> bool {
    &&& names.len() <= hops.len()
    &&& forall|i: int|
        0 <= i < names.len() ==> call_ensures(f, (hops[i].src_token,), (#[trigger] names[i]).0)
            && call_ensures(f, (hops[i].dst_token,), names[i].1)
}

impl Route {
    /// A route that the engine is to choose.
    pub fn auto(src_token: usize, dst_token: usize) -> (r: Route)
        ensures
            r.src_token == src_token,
            r.dst_token == dst_token,
            r.pair_id is None,
            r.hops@.len() == 0,
    {
        Route { src_token, dst_token, pair_id: None, hops: Vec::new() }
    }

    /// A route over one pair.
    pub fn on(src_token: usize, dst_token: usize, pair_id: usize) -> (r: Route)
        ensures
            r.src_token == src_token,
            r.dst_token == dst_token,
            r.pair_id == Some(pair_id),
            r.hops@.len() == 0,
    {
        Route { src_token, dst_token, pair_id: Some(pair_id), hops: Vec::new() }
    }

    /// A route over the given hops.
    pub fn via(src_token: usize, dst_token: usize, hops: Vec<RouteHop>) -> (r: Route)
        ensures
            r.src_token == src_token,
            r.dst_token == dst_token,
            r.pair_id is None,
            r.hops == hops,
    {
        Route { src_token, dst_token, pair_id: None, hops }
    }

    /// Whether the route goes over a single pair, named or reached by a single hop.
    pub fn is_direct(&self) -> (r: bool)
        ensures
            r == (self.pair_id is Some || self.hops@.len() == 1),
    {
        self.pair_id.is_some() || self.hops.len() == 1
    }

    /// Whether the route is settled.
    pub fn is_resolved(&self) -> (r: bool)
        ensures
            r == (self.pair_id is Some || self.hops@.len() > 0),
    {
        self.pair_id.is_some() || self.hops.len() > 0
    }

    /// The route as text, with the names that `name_fn` gives.
    pub fn display<F: Fn(usize) -> Option<String>>(&self, name_fn: F) -> (r: String)
        requires
            forall|id: usize| call_requires(name_fn, (id,)),
        ensures
            self.pair_id is Some ==> exists|s: Option<String>, d: Option<String>| #[trigger]
                call_ensures(name_fn, (self.src_token,), s) && #[trigger] call_ensures(
                    name_fn,
                    (self.dst_token,),
                    d,
                ) && r@ == name_text(s) + "↔"@ + name_text(d) + " (pair "@ + crate::text::digits(
                    self.pair_id->0 as nat,
                ) + ")"@,
            self.pair_id is None && self.hops@.len() > 0 ==> exists|
                names: Seq<(Option<String>, Option<String>)>,
            | #[trigger]
                hops_named(name_fn, self.hops@, names) && names.len() == self.hops@.len() && r@
                    == hops_text(names),
            self.pair_id is None && self.hops@.len() == 0 ==> r@ == "auto("@ + crate::text::digits(
                self.src_token as nat,
            ) + ")→auto("@ + crate::text::digits(self.dst_token as nat) + ")"@,
    {
        if let Some(pair_id) = self.pair_id {
            let s = name_fn(self.src_token);
            let d = name_fn(self.dst_token);
            let src = name_or_empty(&s);
            let dst = name_or_empty(&d);
            let r = concat(src.as_str(), "↔");
            let r = concat(r.as_str(), dst.as_str());
            let r = concat(r.as_str(), " (pair ");
            let r = concat(r.as_str(), number(pair_id).as_str());
            concat(r.as_str(), ")")
        } else if self.hops.len() > 0 {
            let ghost mut names: Seq<(Option<String>, Option<String>)> = Seq::empty();
            let mut r = String::new();
            let mut i: usize = 0;
            proof {
                reveal_strlit("");
            }
            while i < self.hops.len()
                invariant
                    i <= self.hops@.len(),
                    names.len() == i,
                    forall|id: usize| call_requires(name_fn, (id,)),
                    hops_named(name_fn, self.hops@, names),
                    r@ == hops_text(names),
                decreases self.hops@.len() - i,
            {
                let s = name_fn(self.hops[i].src_token);
                let d = name_fn(self.hops[i].dst_token);
                let src = name_or_empty(&s);
                let dst = name_or_empty(&d);
                let hop = concat(src.as_str(), "→");
                let hop = concat(hop.as_str(), dst.as_str());
                proof {
                    let more = names.push((s, d));
                    assert(more.drop_last() =~= names);
                    assert forall|k: int| 0 <= k < more.len() implies call_ensures(
                        name_fn,
                        (self.hops@[k].src_token,),
                        (#[trigger] more[k]).0,
                    ) && call_ensures(name_fn, (self.hops@[k].dst_token,), more[k].1) by {
                        if k < names.len() {
                            assert(more[k] == names[k]);
                        }
                    }
                    names = more;
                }
                if i == 0 {
                    r = hop;
                } else {
                    let joined = concat(r.as_str(), " → ");
                    r = concat(joined.as_str(), hop.as_str());
                }
                i = i + 1;
            }
            r
        } else {
            let r = concat("auto(", number(self.src_token).as_str());
            let r = concat(r.as_str(), ")→auto(");
            let r = concat(r.as_str(), number(self.dst_token).as_str());
            concat(r.as_str(), ")")
        }
    }
}

/// The name of a token, or nothing where it has none.
fn name_or_empty(name: &Option<String>) -> (r: String)
    ensures
        r@ == name_text(*name),
{
    match name {
        Some(s) => s.clone(),
        None => String::new(),
    }
}

// ---- finding a route ----

/// Whether a hop goes over one of the pairs, each given with its quote token, its base token and
/// its price.
pub open spec fn hop_over(pairs: Seq<(usize, usize, usize, Decimal)>, hop: RouteHop) -> bool {
    exists|i: int| 0 <= i < pairs.len() && joins(#[trigger] pairs[i], hop)
}

/// Whether a hop goes over a pair, in one direction or the other.
pub open spec fn joins(pair: (usize, usize, usize, Decimal), hop: RouteHop) -> bool {
    &&& pair.0 == hop.pair_id
    &&& (pair.1 == hop.src_token && pair.2 == hop.dst_token) || (pair.2 == hop.src_token && pair.1
        == hop.dst_token)
}

/// The token in which hops that begin at a token end.
pub open spec fn end_of(src: usize, hops: Seq<RouteHop>) -> usize {
    if hops.len() == 0 {
        src
    } else {
        hops.last().dst_token
    }
}

/// Whether hops over the pairs follow on each other, beginning at a token.
pub open spec fn walked(
    pairs: Seq<(usize, usize, usize, Decimal)>,
    src: usize,
    hops: Seq<RouteHop>,
) -> bool
    decreases hops.len(),
{
    hops.len() == 0 || {
        &&& walked(pairs, src, hops.drop_last())
        &&& hops.last().src_token == end_of(src, hops.drop_last())
        &&& hop_over(pairs, hops.last())
    }
}

/// Whether hops over the pairs lead from one token to another.
pub open spec fn leads(
    pairs: Seq<(usize, usize, usize, Decimal)>,
    src: usize,
    dst: usize,
    hops: Seq<RouteHop>,
) -> bool {
    walked(pairs, src, hops) && end_of(src, hops) == dst
}

/// Whether these are the fewest hops over the pairs that lead from one token to another, or none
/// where no hops do.
pub open spec fn discovered(
    pairs: Seq<(usize, usize, usize, Decimal)>,
    src: usize,
    dst: usize,
    route: Seq<RouteHop>,
) -> bool {
    &&& (exists|hops: Seq<RouteHop>| leads(pairs, src, dst, hops)) ==> leads(pairs, src, dst, route)
    &&& (forall|hops: Seq<RouteHop>| !leads(pairs, src, dst, hops)) ==> route.len() == 0
    &&& forall|hops: Seq<RouteHop>| #[trigger]
        leads(pairs, src, dst, hops) ==> route.len() <= hops.len()
}

/// Whether a token is the end of one of the walks, of at most `n` hops.
spec fn reached(tokens: Seq<usize>, walks: Seq<Vec<RouteHop>>, token: usize, n: nat) -> bool {
    exists|j: int| 0 <= j < tokens.len() && #[trigger] tokens[j] == token && walks[j]@.len() <= n
}

/// Whether the first `k` pairs of the end of a walk lead to tokens reached by one more hop.
spec fn spread(
    pairs: Seq<(usize, usize, usize, Decimal)>,
    tokens: Seq<usize>,
    walks: Seq<Vec<RouteHop>>,
    i: int,
    k: int,
) -> bool {
    forall|m: int|
        0 <= m < k ==> {
            &&& (#[trigger] pairs[m]).1 == tokens[i] ==> reached(
                tokens,
                walks,
                pairs[m].2,
                walks[i]@.len() + 1,
            )
            &&& pairs[m].2 == tokens[i] ==> reached(tokens, walks, pairs[m].1, walks[i]@.len() + 1)
        }
}

/// Whether these are walks from a token and their ends, the shorter ones first and none of them
/// longer by more than one hop than that at `next`, and whether those before it have spread.
spec fn searched(
    pairs: Seq<(usize, usize, usize, Decimal)>,
    src: usize,
    tokens: Seq<usize>,
    walks: Seq<Vec<RouteHop>>,
    next: int,
) -> bool {
    &&& tokens.len() == walks.len()
    &&& 0 < tokens.len()
    &&& 0 <= next <= tokens.len()
    &&& tokens[0] == src
    &&& walks[0]@.len() == 0
    &&& forall|j: int| 0 <= j < tokens.len() ==> leads(pairs, src, #[trigger] tokens[j], walks[j]@)
    &&& forall|i: int, j: int|
        0 <= i <= j < walks.len() ==> (#[trigger] walks[i])@.len() <= (#[trigger] walks[j])@.len()
    &&& next < tokens.len() ==> walks.last()@.len() <= walks[next]@.len() + 1
    &&& forall|i: int|
        0 <= i < next ==> #[trigger] spread(pairs, tokens, walks, i, pairs.len() as int)
}

/// How many ends of the first `k` pairs are not among the tokens.
spec fn missing(
    pairs: Seq<(usize, usize, usize, Decimal)>,
    tokens: Seq<usize>,
    k: nat,
) -> nat
    decreases k,
{
    if k == 0 {
        0
    } else {
        missing(pairs, tokens, (k - 1) as nat) + (if tokens.contains(pairs[k - 1].1) {
            0nat
        } else {
            1
        }) + (if tokens.contains(pairs[k - 1].2) {
            0nat
        } else {
            1
        })
    }
}

/// With one more token no more ends are missing, and fewer where the token is one of them.
proof fn lemma_missing(
    pairs: Seq<(usize, usize, usize, Decimal)>,
    tokens: Seq<usize>,
    token: usize,
    k: nat,
)
    requires
        k <= pairs.len(),
        !tokens.contains(token),
    ensures
        missing(pairs, tokens.push(token), k) <= missing(pairs, tokens, k),
        (exists|m: int|
            0 <= m < k && ((#[trigger] pairs[m]).1 == token || pairs[m].2 == token)) ==> missing(
            pairs,
            tokens.push(token),
            k,
        ) < missing(pairs, tokens, k),
    decreases k,
{
    if k > 0 {
        lemma_missing(pairs, tokens, token, (k - 1) as nat);
        let more = tokens.push(token);
        assert(more[tokens.len() as int] == token);
        assert forall|x: usize| tokens.contains(x) implies more.contains(x) by {
            let j = choose|j: int| 0 <= j < tokens.len() && tokens[j] == x;
            assert(more[j] == x);
        }
        assert(more.contains(token));
    }
}

/// Where every walk has spread, any walk ends in a token that is reached as fast.
proof fn lemma_reached(
    pairs: Seq<(usize, usize, usize, Decimal)>,
    src: usize,
    tokens: Seq<usize>,
    walks: Seq<Vec<RouteHop>>,
    hops: Seq<RouteHop>,
)
    requires
        searched(pairs, src, tokens, walks, tokens.len() as int),
        walked(pairs, src, hops),
    ensures
        reached(tokens, walks, end_of(src, hops), hops.len()),
    decreases hops.len(),
{
    if hops.len() == 0 {
        assert(tokens[0] == src);
    } else {
        let before = hops.drop_last();
        let hop = hops.last();
        lemma_reached(pairs, src, tokens, walks, before);
        let i = choose|i: int|
            0 <= i < tokens.len() && #[trigger] tokens[i] == end_of(src, before) && walks[i]@.len()
                <= before.len();
        let m = choose|m: int| 0 <= m < pairs.len() && joins(#[trigger] pairs[m], hop);
        assert(spread(pairs, tokens, walks, i, pairs.len() as int));
        assert(reached(tokens, walks, hop.dst_token, walks[i]@.len() + 1));
        let j = choose|j: int|
            0 <= j < tokens.len() && #[trigger] tokens[j] == hop.dst_token && walks[j]@.len()
                <= walks[i]@.len() + 1;
        assert(tokens[j] == end_of(src, hops));
    }
}

/// A walk with one more hop.
fn walk_on(walk: &Vec<RouteHop>, hop: RouteHop) -> (r: Vec<RouteHop>)
    ensures
        r@ == walk@.push(hop),
{
    let mut hops: Vec<RouteHop> = Vec::new();
    let mut i: usize = 0;
    while i < walk.len()
        invariant
            i <= walk@.len(),
            hops@ =~= walk@.take(i as int),
        decreases walk@.len() - i,
    {
        hops.push(walk[i]);
        i = i + 1;
    }
    hops.push(hop);
    hops
}

/// The first place of a token among others.
fn place_of(tokens: &Vec<usize>, token: usize) -> (r: Option<usize>)
    ensures
        match r {
            Some(j) => j < tokens@.len() && tokens@[j as int] == token && forall|i: int|
                0 <= i < j ==> tokens@[i] != token,
            None => !tokens@.contains(token),
        },
{
    let mut j: usize = 0;
    while j < tokens.len()
        invariant
            j <= tokens@.len(),
            forall|i: int| 0 <= i < j ==> tokens@[i] != token,
        decreases tokens@.len() - j,
    {
        if tokens[j] == token {
            return Some(j);
        }
        j = j + 1;
    }
    None
}

/// Notes that the walk at `next` can go on by a hop, if its end is not reached yet.
fn visit(
    pairs: &Vec<(usize, usize, usize, Decimal)>,
    tokens: &mut Vec<usize>,
    walks: &mut Vec<Vec<RouteHop>>,
    next: usize,
    hop: RouteHop,
    src: usize,
)
    requires
        searched(pairs@, src, old(tokens)@, old(walks)@, next as int),
        next < old(tokens)@.len(),
        hop.src_token == old(tokens)@[next as int],
        hop_over(pairs@, hop),
    ensures
        searched(pairs@, src, final(tokens)@, final(walks)@, next as int),
        final(tokens)@[next as int] == old(tokens)@[next as int],
        final(walks)@[next as int] == old(walks)@[next as int],
        old(tokens)@.len() <= final(tokens)@.len(),
        reached(
            final(tokens)@,
            final(walks)@,
            hop.dst_token,
            old(walks)@[next as int]@.len() + 1,
        ),
        forall|x: usize, n: nat|
            reached(old(tokens)@, old(walks)@, x, n) ==> #[trigger] reached(
                final(tokens)@,
                final(walks)@,
                x,
                n,
            ),
        final(tokens)@ == old(tokens)@ || missing(pairs@, final(tokens)@, pairs@.len()) < missing(
            pairs@,
            old(tokens)@,
            pairs@.len(),
        ),
{
    let ghost t0 = tokens@;
    let ghost w0 = walks@;
    let place = place_of(tokens, hop.dst_token);
    if place.is_some() {
        proof {
            let j = place->0 as int;
            assert(t0[j] == hop.dst_token);
            assert(w0[j]@.len() <= w0[t0.len() - 1]@.len());
        }
        return;
    }
    let walk = walk_on(&walks[next], hop);
    tokens.push(hop.dst_token);
    walks.push(walk);
    proof {
        let last = t0.len() as int;
        assert(tokens@[last] == hop.dst_token);
        assert(walk@.drop_last() =~= w0[next as int]@);
        assert(leads(pairs@, src, t0[next as int], w0[next as int]@));
        assert(walked(pairs@, src, walk@));
        assert forall|j: int| 0 <= j < tokens@.len() implies leads(
            pairs@,
            src,
            #[trigger] tokens@[j],
            walks@[j]@,
        ) by {
            if j < last {
                assert(tokens@[j] == t0[j]);
            }
        }
        assert forall|i: int, j: int| 0 <= i <= j < walks@.len() implies (
        #[trigger] walks@[i])@.len() <= (#[trigger] walks@[j])@.len() by {
            if i < last {
                assert(walks@[i] == w0[i]);
                assert(w0[i]@.len() <= w0[last - 1]@.len());
            }
        }
        assert forall|x: usize, n: nat| reached(t0, w0, x, n) implies #[trigger] reached(
            tokens@,
            walks@,
            x,
            n,
        ) by {
            let j = choose|j: int|
                0 <= j < t0.len() && #[trigger] t0[j] == x && w0[j]@.len() <= n;
            assert(tokens@[j] == x);
        }
        assert forall|i: int| 0 <= i < next implies #[trigger] spread(
            pairs@,
            tokens@,
            walks@,
            i,
            pairs@.len() as int,
        ) by {
            assert(spread(pairs@, t0, w0, i, pairs@.len() as int));
        }
        lemma_missing(pairs@, t0, hop.dst_token, pairs@.len());
        let m = choose|m: int| 0 <= m < pairs@.len() && joins(#[trigger] pairs@[m], hop);
        assert(pairs@[m].1 == hop.dst_token || pairs@[m].2 == hop.dst_token);
    }
}

/// The fewest hops over the pairs that lead from one token to another, each pair given with its
/// quote token, its base token and its price. Nothing where no hops do, or none are needed.
pub fn discover(
    pairs: &Vec<(usize, usize, usize, Decimal)>,
    src_token: usize,
    dst_token: usize,
) -> (r: Vec<RouteHop>)
    ensures
        discovered(pairs@, src_token, dst_token, r@),
{
    let mut tokens: Vec<usize> = Vec::new();
    let mut walks: Vec<Vec<RouteHop>> = Vec::new();
    tokens.push(src_token);
    walks.push(Vec::new());
    let mut next: usize = 0;
    while next < tokens.len()
        invariant
            searched(pairs@, src_token, tokens@, walks@, next as int),
        decreases missing(pairs@, tokens@, pairs@.len()), tokens@.len() - next,
    {
        let token = tokens[next];
        let ghost t0 = tokens@;
        let mut k: usize = 0;
        while k < pairs.len()
            invariant
                k <= pairs@.len(),
                next < tokens@.len(),
                tokens@[next as int] == token,
                searched(pairs@, src_token, tokens@, walks@, next as int),
                spread(pairs@, tokens@, walks@, next as int, k as int),
                tokens@ == t0 || missing(pairs@, tokens@, pairs@.len()) < missing(
                    pairs@,
                    t0,
                    pairs@.len(),
                ),
            decreases pairs@.len() - k,
        {
            let (pair_id, quote, base, _) = pairs[k];
            if quote == token {
                let hop = RouteHop { pair_id, src_token: token, dst_token: base };
                assert(joins(pairs@[k as int], hop));
                visit(pairs, &mut tokens, &mut walks, next, hop, src_token);
            }
            if base == token {
                let hop = RouteHop { pair_id, src_token: token, dst_token: quote };
                assert(joins(pairs@[k as int], hop));
                visit(pairs, &mut tokens, &mut walks, next, hop, src_token);
            }
            k = k + 1;
        }
        proof {
            assert(spread(pairs@, tokens@, walks@, next as int, pairs@.len() as int));
            if next + 1 < tokens@.len() {
                assert(walks@[next as int]@.len() <= walks@[next + 1]@.len());
            }
        }
        next = next + 1;
    }
    let place = place_of(&tokens, dst_token);
    proof {
        assert forall|hops: Seq<RouteHop>| #[trigger]
            leads(pairs@, src_token, dst_token, hops) implies place is Some
            && walks@[place->0 as int]@.len() <= hops.len() by {
            lemma_reached(pairs@, src_token, tokens@, walks@, hops);
            let j = choose|j: int|
                0 <= j < tokens@.len() && #[trigger] tokens@[j] == dst_token && walks@[j]@.len()
                    <= hops.len();
            assert(tokens@.contains(tokens@[j]));
            assert(walks@[place->0 as int]@.len() <= walks@[j]@.len());
        }
    }
    match place {
        Some(j) => {
            assert(leads(pairs@, src_token, tokens@[j as int], walks@[j as int]@));
            walks.swap_remove(j)
        },
        None => Vec::new(),
    }
}

/// A walk that begins one hop earlier.
proof fn lemma_begun_earlier(
    pairs: Seq<(usize, usize, usize, Decimal)>,
    hop: RouteHop,
    hops: Seq<RouteHop>,
)
    requires
        hop_over(pairs, hop),
        walked(pairs, hop.dst_token, hops),
    ensures
        leads(pairs, hop.src_token, end_of(hop.dst_token, hops), seq![hop] + hops),
    decreases hops.len(),
{
    let all = seq![hop] + hops;
    if hops.len() == 0 {
        assert(all.drop_last() =~= Seq::empty());
        assert(walked(pairs, hop.src_token, all.drop_last()));
        assert(all.last() == hop);
    } else {
        lemma_begun_earlier(pairs, hop, hops.drop_last());
        assert(all.drop_last() =~= seq![hop] + hops.drop_last());
        assert(all.last() == hops.last());
    }
}

/// The way back of a walk.
proof fn lemma_way_back(
    pairs: Seq<(usize, usize, usize, Decimal)>,
    src: usize,
    hops: Seq<RouteHop>,
) -> (back: Seq<RouteHop>)
    requires
        walked(pairs, src, hops),
    ensures
        leads(pairs, end_of(src, hops), src, back),
        back.len() == hops.len(),
    decreases hops.len(),
{
    if hops.len() == 0 {
        hops
    } else {
        let hop = hops.last();
        let back = lemma_way_back(pairs, src, hops.drop_last());
        let turned = RouteHop {
            pair_id: hop.pair_id,
            src_token: hop.dst_token,
            dst_token: hop.src_token,
        };
        let i = choose|i: int| 0 <= i < pairs.len() && joins(#[trigger] pairs[i], hop);
        assert(joins(pairs[i], turned));
        lemma_begun_earlier(pairs, turned, back);
        seq![turned] + back
    }
}

/// A route back takes as many hops as the route there.
pub proof fn law_route_back(
    pairs: Seq<(usize, usize, usize, Decimal)>,
    src: usize,
    dst: usize,
    there: Seq<RouteHop>,
    back: Seq<RouteHop>,
)
    requires
        discovered(pairs, src, dst, there),
        discovered(pairs, dst, src, back),
    ensures
        there.len() == back.len(),
        leads(pairs, src, dst, there) == leads(pairs, dst, src, back),
{
    if leads(pairs, src, dst, there) {
        let way = lemma_way_back(pairs, src, there);
        assert(leads(pairs, dst, src, way));
    }
    if leads(pairs, dst, src, back) {
        let way = lemma_way_back(pairs, dst, back);
        assert(leads(pairs, src, dst, way));
    }
}

/// Two tokens that a pair joins are one hop apart.
pub proof fn law_direct_route(
    pairs: Seq<(usize, usize, usize, Decimal)>,
    i: int,
    route: Seq<RouteHop>,
)
    requires
        0 <= i < pairs.len(),
        pairs[i].1 != pairs[i].2,
        discovered(pairs, pairs[i].1, pairs[i].2, route),
    ensures
        leads(pairs, pairs[i].1, pairs[i].2, route),
        route.len() == 1,
{
    let hop = RouteHop { pair_id: pairs[i].0, src_token: pairs[i].1, dst_token: pairs[i].2 };
    assert(joins(pairs[i], hop));
    assert(walked(pairs, pairs[i].1, Seq::empty()));
    lemma_begun_earlier(pairs, hop, Seq::empty());
    assert(leads(pairs, pairs[i].1, pairs[i].2, seq![hop] + Seq::<RouteHop>::empty()));
}

} // verus!
