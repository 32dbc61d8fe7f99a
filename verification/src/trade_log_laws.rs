//! What holds of trade logs and candles.

use crate::decimal::{decimal_sum, Decimal};
use crate::ledger_laws::exact_sum;
use crate::trade_log::{
    bucket, candle_at, candle_data, candles, last_candle, logged, CandleData, TraLog,
};
use vstd::prelude::*;

verus! {

/// A log never grows longer than it may be.
pub proof fn law_log_bounded(logs: Seq<TraLog>, max: usize, log: TraLog)
    requires
        logs.len() <= max,
    ensures
        logged(logs, max, log).len() <= max,
        max > 0 ==> logged(logs, max, log).last() == log,
{
}

/// Whether the prices of a candle are in their order.
pub open spec fn in_bounds(c: CandleData) -> bool {
    c.low.val() <= c.open.val() <= c.high.val() && c.low.val() <= c.close.val() <= c.high.val()
}

/// The lowest price of a candle is not above, and the highest not below, the first and the last
/// one. Every candle begins at a multiple of the interval. Candles that follow each other are of
/// different intervals.
pub proof fn law_candles(logs: Seq<TraLog>, interval: u64)
    requires
        interval > 0,
        candles(logs, interval) is Some,
    ensures
        ({
            let all = candles(logs, interval)->0;
            &&& all.len() <= logs.len()
            &&& all.len() == 0 <==> logs.len() == 0
            &&& forall|i: int|
                0 <= i < all.len() ==> in_bounds(#[trigger] all[i]) && all[i].step_count as int
                    % interval as int == 0
            &&& forall|i: int|
                0 < i < all.len() ==> all[i - 1].step_count != (#[trigger] all[i]).step_count
            &&& all.len() > 0 ==> all.last().close == logs.last().price && all.last().step_count
                == bucket(logs.last().step_count, interval) && all[0].open == logs[0].price
        }),
    decreases logs.len(),
{
    if logs.len() > 0 {
        law_candles(logs.drop_last(), interval);
        lemma_bucket(logs.last().step_count, interval);
    }
}

/// An interval begins at a multiple of its length and not after the frame.
proof fn lemma_bucket(step: u64, interval: u64)
    requires
        interval > 0,
    ensures
        bucket(step, interval) as int == (step as int / interval as int) * interval as int,
        bucket(step, interval) <= step < bucket(step, interval) + interval,
        bucket(step, interval) as int % interval as int == 0,
{
    let s = step as int;
    let n = interval as int;
    vstd::arithmetic::div_mod::lemma_fundamental_div_mod(s, n);
    vstd::arithmetic::div_mod::lemma_mod_bound(s, n);
    vstd::arithmetic::mul::lemma_mul_is_commutative(s / n, n);
    assert(0 <= (s / n) * n <= s);
    vstd::arithmetic::div_mod::lemma_mod_multiples_basic(s / n, n);
}

/// Whether the trades of a log are by rising frame.
pub open spec fn rising(logs: Seq<TraLog>) -> bool {
    forall|i: int, j: int|
        0 <= i < j < logs.len() ==> (#[trigger] logs[i]).step_count <= (
        #[trigger] logs[j]).step_count
}

/// Where the trades are by rising frame, so are the candles, each interval once.
pub proof fn law_candles_rise(logs: Seq<TraLog>, interval: u64)
    requires
        interval > 0,
        rising(logs),
        candles(logs, interval) is Some,
    ensures
        ({
            let all = candles(logs, interval)->0;
            forall|i: int, j: int|
                0 <= i < j < all.len() ==> (#[trigger] all[i]).step_count < (
                #[trigger] all[j]).step_count
        }),
    decreases logs.len(),
{
    if logs.len() > 0 {
        let head = logs.drop_last();
        law_candles_rise(head, interval);
        law_candles(head, interval);
        if head.len() > 0 {
            let prev = candles(head, interval)->0;
            lemma_bucket_order(head.last().step_count, logs.last().step_count, interval);
            assert(logs[logs.len() - 2].step_count <= logs[logs.len() - 1].step_count);
        }
    }
}

/// A later frame does not lie in an earlier interval.
proof fn lemma_bucket_order(a: u64, b: u64, interval: u64)
    requires
        interval > 0,
        a <= b,
    ensures
        bucket(a, interval) <= bucket(b, interval),
{
    lemma_bucket(a, interval);
    lemma_bucket(b, interval);
    vstd::arithmetic::div_mod::lemma_div_is_ordered(a as int, b as int, interval as int);
    vstd::arithmetic::mul::lemma_mul_inequality(
        a as int / interval as int,
        b as int / interval as int,
        interval as int,
    );
}

/// The candle of an interval later than that of all trades is that of no trade.
proof fn lemma_no_candle(logs: Seq<TraLog>, interval: u64, start: u64)
    requires
        forall|i: int|
            0 <= i < logs.len() ==> bucket((#[trigger] logs[i]).step_count, interval) != start,
    ensures
        candle_at(logs, interval, start) == Some(None::<CandleData>),
    decreases logs.len(),
{
    if logs.len() > 0 {
        lemma_no_candle(logs.drop_last(), interval, start);
    }
}

/// Where the trades are by rising frame, the candle of the interval that the last trade lies in is
/// the last one of all candles.
pub proof fn law_latest_candle(logs: Seq<TraLog>, interval: u64)
    requires
        interval > 0,
        rising(logs),
        logs.len() > 0,
        candles(logs, interval) is Some,
    ensures
        last_candle(logs, interval) == Some(Some((candles(logs, interval)->0).last())),
{
    lemma_candle_at_last(logs, interval);
}

/// The candle of the interval that the last trade lies in is the last one of all candles.
proof fn lemma_candle_at_last(logs: Seq<TraLog>, interval: u64)
    requires
        interval > 0,
        rising(logs),
        logs.len() > 0,
        candles(logs, interval) is Some,
    ensures
        candle_at(logs, interval, bucket(logs.last().step_count, interval)) == Some(
            Some((candles(logs, interval)->0).last()),
        ),
    decreases logs.len(),
{
    let head = logs.drop_last();
    let start = bucket(logs.last().step_count, interval);
    law_candles(head, interval);
    if head.len() == 0 {
        lemma_no_candle(head, interval, start);
    } else if bucket(head.last().step_count, interval) == start {
        lemma_candle_at_last(head, interval);
    } else {
        assert forall|i: int| 0 <= i < head.len() implies bucket(
            (#[trigger] head[i]).step_count,
            interval,
        ) != start by {
            assert(head[i].step_count <= logs[head.len() - 1].step_count) by {
                assert(head[i] == logs[i]);
            }
            lemma_bucket_order(head[i].step_count, head.last().step_count, interval);
            lemma_bucket_order(head.last().step_count, logs.last().step_count, interval);
        }
        lemma_no_candle(head, interval, start);
    }
}

/// The volume of some trades, added up from the first to the last, or `None` where it overflows.
pub open spec fn volume_sum(run: Seq<TraLog>) -> Option<Decimal>
    decreases run.len(),
{
    if run.len() <= 1 {
        Some(run[0].volume)
    } else {
        match volume_sum(run.drop_last()) {
            Some(v) => decimal_sum(v, run.last().volume),
            None => None,
        }
    }
}

/// The sum of the volumes of some trades.
pub open spec fn exact_volume(run: Seq<TraLog>) -> int
    decreases run.len(),
{
    if run.len() == 0 {
        0
    } else {
        exact_volume(run.drop_last()) + run.last().volume.val()
    }
}

/// Whether every sum on the way to the volume of some trades is exact.
pub open spec fn adds_exactly(run: Seq<TraLog>) -> bool
    decreases run.len(),
{
    run.len() <= 1 || (adds_exactly(run.drop_last()) && match volume_sum(run.drop_last()) {
        Some(v) => exact_sum(v, run.last().volume),
        None => false,
    })
}

/// Whether a frame lies in the interval that begins at `start`.
pub open spec fn lies_in(step: u64, start: u64, interval: u64) -> bool {
    start <= step < start + interval
}

/// Whether a candle sums up some trades: all of them lie in its interval, its first and last
/// prices are theirs, no price is above its highest or below its lowest one, both of these are
/// prices that were paid, and its volume is the sum of theirs.
pub open spec fn sums_up(c: CandleData, run: Seq<TraLog>, interval: u64) -> bool {
    &&& run.len() > 0
    &&& c.step_count as int % interval as int == 0
    &&& forall|i: int|
        0 <= i < run.len() ==> lies_in((#[trigger] run[i]).step_count, c.step_count, interval)
    &&& c.open == run[0].price
    &&& c.close == run.last().price
    &&& forall|i: int|
        0 <= i < run.len() ==> c.low.val() <= (#[trigger] run[i]).price.val() <= c.high.val()
    &&& exists|i: int| 0 <= i < run.len() && (#[trigger] run[i]).price == c.high
    &&& exists|i: int| 0 <= i < run.len() && (#[trigger] run[i]).price == c.low
    &&& volume_sum(run) == Some(c.volume)
    &&& adds_exactly(run) ==> c.volume.val() == exact_volume(run)
}

/// The sum of volumes is their exact sum, where every sum on the way is exact.
proof fn lemma_volume_sum(run: Seq<TraLog>)
    requires
        run.len() > 0,
        adds_exactly(run),
    ensures
        volume_sum(run) matches Some(v) && v.val() == exact_volume(run),
    decreases run.len(),
{
    if run.len() > 1 {
        lemma_volume_sum(run.drop_last());
    } else {
        assert(run.drop_last() =~= Seq::<TraLog>::empty());
        assert(exact_volume(run.drop_last()) == 0);
    }
}

/// A trade lies in the interval that begins at a multiple of its length exactly where its own
/// interval begins there.
proof fn lemma_lies_in(step: u64, start: u64, interval: u64)
    requires
        interval > 0,
        start as int % interval as int == 0,
    ensures
        lies_in(step, start, interval) <==> bucket(step, interval) == start,
{
    lemma_bucket(step, interval);
    let b = bucket(step, interval) as int;
    let n = interval as int;
    vstd::arithmetic::div_mod::lemma_fundamental_div_mod(start as int, n);
    vstd::arithmetic::div_mod::lemma_fundamental_div_mod(b, n);
    if lies_in(step, start, interval) {
        let x = start as int / n;
        let y = b / n;
        assert(x == y) by (nonlinear_arith)
            requires
                n > 0,
                n * x <= step < n * x + n,
                n * y <= step < n * y + n,
        ;
    }
}

/// A trade alone is summed up by its candle.
proof fn lemma_sums_up_first(log: TraLog, interval: u64)
    requires
        interval > 0,
    ensures
        sums_up(crate::trade_log::first_candle(log, interval), seq![log], interval),
{
    let run = seq![log];
    lemma_bucket(log.step_count, interval);
    assert(run[0].price == log.price);
    lemma_volume_sum(run);
}

/// A candle that is extended by a trade sums it up too.
proof fn lemma_sums_up_more(c: CandleData, run: Seq<TraLog>, log: TraLog, interval: u64)
    requires
        interval > 0,
        sums_up(c, run, interval),
        bucket(log.step_count, interval) == c.step_count,
        crate::trade_log::extended(c, log) is Some,
    ensures
        sums_up(crate::trade_log::extended(c, log)->0, run.push(log), interval),
{
    let e = crate::trade_log::extended(c, log)->0;
    let more = run.push(log);
    let n = run.len() as int;
    assert(more.drop_last() =~= run);
    assert(more[n] == log);
    lemma_lies_in(log.step_count, c.step_count, interval);
    assert forall|i: int| 0 <= i < more.len() implies lies_in(
        (#[trigger] more[i]).step_count,
        e.step_count,
        interval,
    ) && e.low.val() <= more[i].price.val() <= e.high.val() by {
        if i < n {
            assert(more[i] == run[i]);
        }
    }
    let h = choose|i: int| 0 <= i < run.len() && (#[trigger] run[i]).price == c.high;
    let w = choose|i: int| 0 <= i < run.len() && (#[trigger] run[i]).price == c.low;
    assert(more[h] == run[h] && more[w] == run[w]);
    assert(more[if e.high == c.high {
        h
    } else {
        n
    }].price == e.high);
    assert(more[if e.low == c.low {
        w
    } else {
        n
    }].price == e.low);
    if adds_exactly(more) {
        lemma_volume_sum(more);
    }
}

/// The piece of a log between two cuts that follow each other.
pub open spec fn piece(logs: Seq<TraLog>, cuts: Seq<int>, i: int) -> Seq<TraLog> {
    logs.subrange(cuts[i], cuts[i + 1])
}

/// Whether a candle sums up the piece of a log between two cuts that follow each other.
pub open spec fn sums_up_piece(
    c: CandleData,
    logs: Seq<TraLog>,
    interval: u64,
    cuts: Seq<int>,
    i: int,
) -> bool {
    0 <= cuts[i] < cuts[i + 1] <= logs.len() && sums_up(c, piece(logs, cuts, i), interval)
}

/// Whether candles sum up a log piece by piece: the pieces follow each other and leave nothing out.
pub open spec fn sum_up_all(
    all: Seq<CandleData>,
    logs: Seq<TraLog>,
    interval: u64,
    cuts: Seq<int>,
) -> bool {
    &&& cuts.len() == all.len() + 1
    &&& cuts[0] == 0
    &&& cuts.last() == logs.len()
    &&& forall|i: int|
        0 <= i < all.len() ==> #[trigger] sums_up_piece(all[i], logs, interval, cuts, i)
}

/// The candles of a log sum up its trades, each trade in one of them: the high of a candle is the
/// highest price of its trades, the low the lowest one, and the volume the sum of theirs. An
/// interval of zero has no candles.
pub proof fn law_candles_sum_up(logs: Seq<TraLog>, interval: u64)
    requires
        candle_data(logs, interval) is Some,
    ensures
        interval == 0 ==> (candle_data(logs, interval)->0).len() == 0,
        interval > 0 ==> exists|cuts: Seq<int>|
            sum_up_all(candle_data(logs, interval)->0, logs, interval, cuts),
{
    if interval > 0 {
        lemma_candles_sum_up(logs, interval);
    }
}

proof fn lemma_candles_sum_up(logs: Seq<TraLog>, interval: u64)
    requires
        interval > 0,
        candles(logs, interval) is Some,
    ensures
        exists|cuts: Seq<int>| sum_up_all(candles(logs, interval)->0, logs, interval, cuts),
    decreases logs.len(),
{
    let all = candles(logs, interval)->0;
    if logs.len() == 0 {
        assert(sum_up_all(all, logs, interval, seq![0int]));
    } else {
        let head = logs.drop_last();
        let log = logs.last();
        lemma_candles_sum_up(head, interval);
        let prev = candles(head, interval)->0;
        let cuts = choose|cuts: Seq<int>| sum_up_all(prev, head, interval, cuts);
        let n = logs.len() as int;
        if prev.len() > 0 && prev.last().step_count == bucket(log.step_count, interval) {
            let k = prev.len() - 1;
            let next = cuts.update(k + 1, n);
            let run = piece(head, cuts, k);
            assert(sums_up_piece(prev[k], head, interval, cuts, k));
            lemma_sums_up_more(prev[k], run, log, interval);
            assert(run.push(log) =~= piece(logs, next, k));
            assert forall|i: int| 0 <= i < all.len() implies #[trigger] sums_up_piece(
                all[i],
                logs,
                interval,
                next,
                i,
            ) by {
                if i < k {
                    assert(all[i] == prev[i]);
                    assert(sums_up_piece(prev[i], head, interval, cuts, i));
                    assert(piece(logs, next, i) =~= piece(head, cuts, i));
                }
            }
            assert(next.len() == all.len() + 1);
            assert(next[0] == 0);
            assert(next.last() == logs.len());
            assert(sum_up_all(all, logs, interval, next));
        } else {
            let next = cuts.push(n);
            lemma_sums_up_first(log, interval);
            assert(seq![log] =~= piece(logs, next, prev.len() as int));
            assert forall|i: int| 0 <= i < all.len() implies #[trigger] sums_up_piece(
                all[i],
                logs,
                interval,
                next,
                i,
            ) by {
                if i < prev.len() {
                    assert(all[i] == prev[i]);
                    assert(sums_up_piece(prev[i], head, interval, cuts, i));
                    assert(piece(logs, next, i) =~= piece(head, cuts, i));
                }
            }
            assert(next.len() == all.len() + 1);
            assert(next[0] == 0);
            assert(next.last() == logs.len());
            assert(sum_up_all(all, logs, interval, next));
        }
    }
}

/// The trades of a log that lie in the interval that begins at `start`.
pub open spec fn trades_in(logs: Seq<TraLog>, start: u64, interval: u64) -> Seq<TraLog> {
    logs.filter(|t: TraLog| lies_in(t.step_count, start, interval))
}

/// The latest candle sums up all trades of a log that lie in the interval of the last one, in
/// whatever order they are. There is none for a log without trades or an interval of zero.
pub proof fn law_latest_candle_sums_up(logs: Seq<TraLog>, interval: u64)
    requires
        last_candle(logs, interval) is Some,
    ensures
        last_candle(logs, interval)->0 is None <==> interval == 0 || logs.len() == 0,
        last_candle(logs, interval) matches Some(Some(c)) ==> lies_in(
            logs.last().step_count,
            c.step_count,
            interval,
        ) && sums_up(c, trades_in(logs, c.step_count, interval), interval),
{
    if interval > 0 && logs.len() > 0 {
        let start = bucket(logs.last().step_count, interval);
        lemma_bucket(logs.last().step_count, interval);
        lemma_candle_at_sums_up(logs, interval, start);
    }
}

proof fn lemma_candle_at_sums_up(logs: Seq<TraLog>, interval: u64, start: u64)
    requires
        interval > 0,
        start as int % interval as int == 0,
        candle_at(logs, interval, start) is Some,
    ensures
        match candle_at(logs, interval, start)->0 {
            Some(c) => c.step_count == start && sums_up(
                c,
                trades_in(logs, start, interval),
                interval,
            ),
            None => trades_in(logs, start, interval).len() == 0,
        },
        logs.len() > 0 && bucket(logs.last().step_count, interval) == start ==> candle_at(
            logs,
            interval,
            start,
        )->0 is Some,
    decreases logs.len(),
{
    reveal(Seq::filter);
    if logs.len() > 0 {
        let head = logs.drop_last();
        let log = logs.last();
        lemma_candle_at_sums_up(head, interval, start);
        lemma_lies_in(log.step_count, start, interval);
        if bucket(log.step_count, interval) == start {
            match candle_at(head, interval, start)->0 {
                Some(c) => {
                    lemma_sums_up_more(c, trades_in(head, start, interval), log, interval);
                },
                None => {
                    lemma_sums_up_first(log, interval);
                    assert(trades_in(logs, start, interval) =~= seq![log]);
                },
            }
        }
    }
}

} // verus!
