//! Trade logs and the candles that sum them up.

use crate::decimal::{decimal_sum, Decimal};
use std::collections::VecDeque;
use vstd::prelude::*;

verus! {

/// One trade.
#[derive(Clone, Copy, Debug)]
pub struct TraLog {
    /// The frame of the trade.
    pub step_count: u64,
    /// The node that bought.
    pub buy_node: usize,
    /// The node that sold.
    pub sell_node: usize,
    /// The price.
    pub price: Decimal,
    /// How much of the base token changed hands.
    pub volume: Decimal,
}

/// The trades of one interval.
#[derive(Clone, Copy, Debug)]
pub struct CandleData {
    /// The first frame of the interval.
    pub step_count: u64,
    /// The first price.
    pub open: Decimal,
    /// The highest price.
    pub high: Decimal,
    /// The lowest price.
    pub low: Decimal,
    /// The last price.
    pub close: Decimal,
    /// The volume of all trades.
    pub volume: Decimal,
}

/// The first frame of the interval that a frame lies in.
pub open spec fn bucket(step: u64, interval: u64) -> u64 {
    ((step / interval) * interval) as u64
}

/// A candle of one trade.
pub open spec fn first_candle(log: TraLog, interval: u64) -> CandleData {
    CandleData {
        step_count: bucket(log.step_count, interval),
        open: log.price,
        high: log.price,
        low: log.price,
        close: log.price,
        volume: log.volume,
    }
}

/// A candle with one more trade, or `None` where its volume overflows.
pub open spec fn extended(c: CandleData, log: TraLog) -> Option<CandleData> {
    match decimal_sum(c.volume, log.volume) {
        Some(volume) => Some(
            CandleData {
                step_count: c.step_count,
                open: c.open,
                high: c.high.greatest(log.price),
                low: c.low.least(log.price),
                close: log.price,
                volume,
            },
        ),
        None => None,
    }
}

/// The candles of a log: one for each run of trades that lie in one interval, or `None` where a
/// volume overflows.
pub open spec fn candles(logs: Seq<TraLog>, interval: u64) -> Option<Seq<CandleData>>
    decreases logs.len(),
{
    if logs.len() == 0 {
        Some(Seq::empty())
    } else {
        match candles(logs.drop_last(), interval) {
            Some(prev) => if prev.len() > 0 && prev.last().step_count == bucket(
                logs.last().step_count,
                interval,
            ) {
                match extended(prev.last(), logs.last()) {
                    Some(c) => Some(prev.drop_last().push(c)),
                    None => None,
                }
            } else {
                Some(prev.push(first_candle(logs.last(), interval)))
            },
            None => None,
        }
    }
}

/// The candle of all trades that lie in the interval that begins at `start`: `None` where its
/// volume overflows, `Some(None)` where there is no such trade.
pub open spec fn candle_at(logs: Seq<TraLog>, interval: u64, start: u64) -> Option<
    Option<CandleData>,
>
    decreases logs.len(),
{
    if logs.len() == 0 {
        Some(None)
    } else {
        match candle_at(logs.drop_last(), interval, start) {
            Some(prev) => if bucket(logs.last().step_count, interval) != start {
                Some(prev)
            } else {
                match prev {
                    Some(c) => match extended(c, logs.last()) {
                        Some(e) => Some(Some(e)),
                        None => None,
                    },
                    None => Some(Some(first_candle(logs.last(), interval))),
                }
            },
            None => None,
        }
    }
}

/// The candles of a log, none for an interval of zero.
pub open spec fn candle_data(logs: Seq<TraLog>, interval: u64) -> Option<Seq<CandleData>> {
    if interval == 0 {
        Some(Seq::empty())
    } else {
        candles(logs, interval)
    }
}

/// The candle of the interval that the last trade lies in.
pub open spec fn last_candle(logs: Seq<TraLog>, interval: u64) -> Option<Option<CandleData>> {
    if interval == 0 || logs.len() == 0 {
        Some(None)
    } else {
        candle_at(logs, interval, bucket(logs.last().step_count, interval))
    }
}

/// A log after one more trade: the oldest one leaves where the log would be too long.
pub open spec fn logged(logs: Seq<TraLog>, max: usize, log: TraLog) -> Seq<TraLog> {
    if logs.len() + 1 > max {
        logs.push(log).drop_first()
    } else {
        logs.push(log)
    }
}

/// The first frame of the interval that a frame lies in.
fn bucket_of(step: u64, interval: u64) -> (r: u64)
    requires
        interval > 0,
    ensures
        r == bucket(step, interval),
        r <= step,
{
    let n: u64 = step / interval;
    assert(n * interval <= step) by (nonlinear_arith)
        requires
            interval > 0,
            n == step / interval,
    ;
    n * interval
}

/// A candle with one more trade, or `None` where its volume overflows.
fn extend_candle(c: CandleData, log: TraLog) -> (r: Option<CandleData>)
    ensures
        r == extended(c, log),
{
    let volume = c.volume.checked_add(log.volume)?;
    Some(
        CandleData {
            step_count: c.step_count,
            open: c.open,
            high: c.high.max(log.price),
            low: c.low.min(log.price),
            close: log.price,
            volume,
        },
    )
}

/// A candle of one trade.
fn new_candle(log: TraLog, start: u64) -> (r: CandleData)
    ensures
        forall|interval: u64|
            #![trigger first_candle(log, interval)]
            start == bucket(log.step_count, interval) ==> r == first_candle(log, interval),
{
    CandleData {
        step_count: start,
        open: log.price,
        high: log.price,
        low: log.price,
        close: log.price,
        volume: log.volume,
    }
}

/// Where the candles of the head of a log overflow, those of the log do.
proof fn lemma_candles_overflow(logs: Seq<TraLog>, interval: u64, i: int)
    requires
        0 <= i <= logs.len(),
        candles(logs.take(i), interval) is None,
    ensures
        candles(logs, interval) is None,
    decreases logs.len() - i,
{
    if i < logs.len() {
        assert(logs.take(i + 1).drop_last() =~= logs.take(i));
        lemma_candles_overflow(logs, interval, i + 1);
    } else {
        assert(logs.take(i) =~= logs);
    }
}

/// Where the candle of the head of a log overflows, that of the log does.
proof fn lemma_candle_at_overflow(logs: Seq<TraLog>, interval: u64, start: u64, i: int)
    requires
        0 <= i <= logs.len(),
        candle_at(logs.take(i), interval, start) is None,
    ensures
        candle_at(logs, interval, start) is None,
    decreases logs.len() - i,
{
    if i < logs.len() {
        assert(logs.take(i + 1).drop_last() =~= logs.take(i));
        lemma_candle_at_overflow(logs, interval, start, i + 1);
    } else {
        assert(logs.take(i) =~= logs);
    }
}

/// The candles of a log, or `None` where a volume overflows.
pub fn aggregate(logs: &VecDeque<TraLog>, interval: u64) -> (r: Option<VecDeque<CandleData>>)
    ensures
        r is Some == candle_data(logs@, interval) is Some,
        r is Some ==> r->0@ == candle_data(logs@, interval)->0,
{
    let mut out: VecDeque<CandleData> = VecDeque::new();
    if interval == 0 {
        return Some(out);
    }
    let mut last: Option<CandleData> = None;
    let mut i: usize = 0;
    assert(logs@.take(0) =~= Seq::empty());
    let ghost mut done: Seq<CandleData> = Seq::empty();
    while i < logs.len()
        invariant
            interval > 0,
            i <= logs@.len(),
            candles(logs@.take(i as int), interval) == Some(done),
            last is None ==> done.len() == 0 && out@.len() == 0,
            last is Some ==> done == out@.push(last->0),
        decreases logs@.len() - i,
    {
        let log = logs[i];
        let start = bucket_of(log.step_count, interval);
        proof {
            assert(logs@.take(i + 1).drop_last() =~= logs@.take(i as int));
            assert(logs@.take(i + 1).last() == log);
        }
        match last {
            Some(c) => {
                assert(done.last() == c && done.drop_last() =~= out@);
                if c.step_count == start {
                    match extend_candle(c, log) {
                        Some(e) => {
                            proof {
                                done = done.drop_last().push(e);
                            }
                            last = Some(e);
                        },
                        None => {
                            proof {
                                lemma_candles_overflow(logs@, interval, i + 1);
                            }
                            return None;
                        },
                    }
                } else {
                    out.push_back(c);
                    let f = new_candle(log, start);
                    proof {
                        done = done.push(f);
                        assert(f == first_candle(log, interval));
                    }
                    last = Some(f);
                }
            },
            None => {
                let f = new_candle(log, start);
                proof {
                    done = done.push(f);
                    assert(f == first_candle(log, interval));
                    assert(done =~= out@.push(f));
                }
                last = Some(f);
            },
        }
        i = i + 1;
    }
    assert(logs@.take(i as int) =~= logs@);
    if let Some(c) = last {
        out.push_back(c);
    }
    assert(out@ =~= done);
    Some(out)
}

/// The candle of the interval that the last trade lies in, or `None` where its volume overflows.
pub fn aggregate_last(logs: &VecDeque<TraLog>, interval: u64) -> (r: Option<Option<CandleData>>)
    ensures
        r == last_candle(logs@, interval),
{
    let n: usize = logs.len();
    if interval == 0 || n == 0 {
        return Some(None);
    }
    let start = bucket_of(logs[n - 1].step_count, interval);
    let mut candle: Option<CandleData> = None;
    let mut i: usize = 0;
    assert(logs@.take(0) =~= Seq::empty());
    while i < n
        invariant
            interval > 0,
            n == logs@.len(),
            n > 0,
            i <= n,
            start == bucket(logs@.last().step_count, interval),
            candle_at(logs@.take(i as int), interval, start) == Some(candle),
        decreases n - i,
    {
        let log = logs[i];
        proof {
            assert(logs@.take(i + 1).drop_last() =~= logs@.take(i as int));
            assert(logs@.take(i + 1).last() == log);
        }
        if bucket_of(log.step_count, interval) == start {
            match candle {
                Some(c) => match extend_candle(c, log) {
                    Some(e) => {
                        candle = Some(e);
                    },
                    None => {
                        proof {
                            lemma_candle_at_overflow(logs@, interval, start, i + 1);
                        }
                        return None;
                    },
                },
                None => {
                    let f = new_candle(log, start);
                    assert(f == first_candle(log, interval));
                    candle = Some(f);
                },
            }
        }
        i = i + 1;
    }
    assert(logs@.take(i as int) =~= logs@);
    Some(candle)
}

/// Adds a trade to a log; the oldest one leaves where the log would be too long.
pub fn push_log(logs: &mut VecDeque<TraLog>, max: usize, log: TraLog)
    ensures
        final(logs)@ == logged(old(logs)@, max, log),
{
    logs.push_back(log);
    if logs.len() > max {
        logs.pop_front();
        assert(logs@ =~= old(logs)@.push(log).drop_first());
    }
}

/// A copy of a log.
pub fn copy_logs(logs: &VecDeque<TraLog>) -> (r: VecDeque<TraLog>)
    ensures
        r@ == logs@,
{
    let mut out: VecDeque<TraLog> = VecDeque::new();
    let mut i: usize = 0;
    while i < logs.len()
        invariant
            i <= logs@.len(),
            out@ == logs@.take(i as int),
        decreases logs@.len() - i,
    {
        out.push_back(logs[i]);
        i = i + 1;
        assert(out@ =~= logs@.take(i as int));
    }
    assert(logs@.take(i as int) =~= logs@);
    out
}

} // verus!
