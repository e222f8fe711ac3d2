//! The feature log: one observation per trade, rolling statistics over a
//! bounded lookback window, and the forward-looking training target.
//!
//! Rolling fields of a row are all set together, from the half-open window
//! of rows just before it; rows that already carry them are left alone, so
//! repeated recomputation on an append-only log is idempotent.
use vstd::prelude::*;
use crate::{ATOM_MAX, FRAC_SCALE, MAX_LEVELS, MAX_WINDOW, RATIO_BOUND, ROLLING_WINDOW};
use crate::numeric::{
    div_round_half, div_round_half_i128, spec_isqrt, isqrt_u128, lemma_div_round_half_bounds,
    lemma_mean_bound,
};
use crate::orderbook::{OrderBook, BookFeatures, sum_sizes};
use crate::trades::{Trade, TradeFeatures};

verus! {

/// One row of the feature log: trade-derived fields, book-derived fields,
/// the rolling statistics once a full lookback window exists, and the
/// forward-looking target once a full forward window exists.
#[derive(Clone, Copy, Debug, PartialEq)]
pub struct Observation {
    pub timestamp: i64,
    pub price: u64,
    pub net_qty: i128,
    pub notional: i128,
    pub bid_total: i128,
    pub num_ticks_from_best_bid: i128,
    pub ask_total: i128,
    pub num_ticks_from_best_ask: i128,
    pub bids_asks_ratio: i128,
    pub bid_notional: i128,
    pub ask_notional: i128,
    pub rolling_qty: Option<i128>,
    pub mean_qty: Option<i128>,
    pub qty_std: Option<i128>,
    pub mean_price: Option<i128>,
    pub price_std: Option<i128>,
    pub book_ratio_rolling_mean: Option<i128>,
    pub rolling_qty_abs: Option<i128>,
    pub target: Option<i128>,
}

impl Observation {
    /// The fields the rolling statistics read are within the fixed-point
    /// range.
    pub open spec fn wf(self) -> bool {
        &&& self.price <= ATOM_MAX
        &&& -(ATOM_MAX as int) <= self.net_qty <= ATOM_MAX as int
        &&& 0 <= self.bids_asks_ratio <= RATIO_BOUND
    }

    /// All seven rolling fields are present.
    pub open spec fn spec_has_rolling(self) -> bool {
        &&& self.rolling_qty is Some
        &&& self.mean_qty is Some
        &&& self.qty_std is Some
        &&& self.mean_price is Some
        &&& self.price_std is Some
        &&& self.book_ratio_rolling_mean is Some
        &&& self.rolling_qty_abs is Some
    }

    /// Builds the row for one trade from its trade- and book-derived
    /// features, with rolling fields and target unset.
    pub fn from_trade_and_book(trade_features: TradeFeatures, book_features: BookFeatures) -> (r:
        Self)
        requires
            trade_features.price <= ATOM_MAX,
            -(ATOM_MAX as int) <= trade_features.net_qty <= ATOM_MAX as int,
            0 <= book_features.bids_asks_ratio <= RATIO_BOUND,
        ensures
            r.timestamp == trade_features.timestamp,
            r.price == trade_features.price,
            r.net_qty == trade_features.net_qty,
            r.notional == trade_features.notional,
            r.bid_total == book_features.bid_total,
            r.num_ticks_from_best_bid == book_features.num_ticks_from_best_bid,
            r.ask_total == book_features.ask_total,
            r.num_ticks_from_best_ask == book_features.num_ticks_from_best_ask,
            r.bids_asks_ratio == book_features.bids_asks_ratio,
            r.bid_notional == book_features.bid_notional,
            r.ask_notional == book_features.ask_notional,
            r.rolling_qty is None,
            r.mean_qty is None,
            r.qty_std is None,
            r.mean_price is None,
            r.price_std is None,
            r.book_ratio_rolling_mean is None,
            r.rolling_qty_abs is None,
            !r.spec_has_rolling(),
            r.target is None,
            r.wf(),
    {
        Observation {
            timestamp: trade_features.timestamp,
            price: trade_features.price,
            net_qty: trade_features.net_qty,
            notional: trade_features.notional,
            bid_total: book_features.bid_total,
            num_ticks_from_best_bid: book_features.num_ticks_from_best_bid,
            ask_total: book_features.ask_total,
            num_ticks_from_best_ask: book_features.num_ticks_from_best_ask,
            bids_asks_ratio: book_features.bids_asks_ratio,
            bid_notional: book_features.bid_notional,
            ask_notional: book_features.ask_notional,
            rolling_qty: None,
            mean_qty: None,
            qty_std: None,
            mean_price: None,
            price_std: None,
            book_ratio_rolling_mean: None,
            rolling_qty_abs: None,
            target: None,
        }
    }

    /// Whether the row carries all seven rolling fields.
    pub fn has_rolling_features(&self) -> (r: bool)
        ensures
            r == self.spec_has_rolling(),
    {
        self.rolling_qty.is_some() && self.mean_qty.is_some() && self.qty_std.is_some()
            && self.mean_price.is_some() && self.price_std.is_some()
            && self.book_ratio_rolling_mean.is_some() && self.rolling_qty_abs.is_some()
    }

    /// Whether the row carries a target.
    pub fn has_target(&self) -> (r: bool)
        ensures
            r == (self.target is Some),
    {
        self.target.is_some()
    }

    /// The full feature vector handed to the predictor, in log-column order.
    pub fn to_training_data(&self) -> (r: Vec<i128>)
        requires
            self.spec_has_rolling(),
        ensures
            r@.len() == 18,
            r@[0] == self.timestamp as i128,
            r@[1] == self.price as i128,
            r@[2] == self.net_qty,
            r@[3] == self.notional,
            r@[4] == self.bid_total,
            r@[5] == self.num_ticks_from_best_bid,
            r@[6] == self.ask_total,
            r@[7] == self.num_ticks_from_best_ask,
            r@[8] == self.bids_asks_ratio,
            r@[9] == self.bid_notional,
            r@[10] == self.ask_notional,
            r@[11] == self.rolling_qty.unwrap(),
            r@[12] == self.mean_qty.unwrap(),
            r@[13] == self.qty_std.unwrap(),
            r@[14] == self.mean_price.unwrap(),
            r@[15] == self.price_std.unwrap(),
            r@[16] == self.book_ratio_rolling_mean.unwrap(),
            r@[17] == self.rolling_qty_abs.unwrap(),
    {
        let mut v: Vec<i128> = Vec::new();
        v.push(self.timestamp as i128);
        v.push(self.price as i128);
        v.push(self.net_qty);
        v.push(self.notional);
        v.push(self.bid_total);
        v.push(self.num_ticks_from_best_bid);
        v.push(self.ask_total);
        v.push(self.num_ticks_from_best_ask);
        v.push(self.bids_asks_ratio);
        v.push(self.bid_notional);
        v.push(self.ask_notional);
        v.push(self.rolling_qty.unwrap());
        v.push(self.mean_qty.unwrap());
        v.push(self.qty_std.unwrap());
        v.push(self.mean_price.unwrap());
        v.push(self.price_std.unwrap());
        v.push(self.book_ratio_rolling_mean.unwrap());
        v.push(self.rolling_qty_abs.unwrap());
        v
    }
}

/// Every row of the log is within the fixed-point range.
pub open spec fn log_wf(s: Seq<Observation>) -> bool {
    forall|i: int| 0 <= i < s.len() ==> (#[trigger] s[i]).wf()
}

/// Sum of signed net quantity over a slice of rows.
pub open spec fn sum_net_qty(s: Seq<Observation>) -> int
    decreases s.len(),
{
    if s.len() == 0 {
        0
    } else {
        sum_net_qty(s.drop_last()) + s.last().net_qty
    }
}

/// Sum of absolute net quantity over a slice of rows.
pub open spec fn sum_abs_net_qty(s: Seq<Observation>) -> int
    decreases s.len(),
{
    if s.len() == 0 {
        0
    } else {
        sum_abs_net_qty(s.drop_last()) + (if s.last().net_qty >= 0 {
            s.last().net_qty as int
        } else {
            -(s.last().net_qty as int)
        })
    }
}

/// Sum of trade price over a slice of rows.
pub open spec fn sum_price(s: Seq<Observation>) -> int
    decreases s.len(),
{
    if s.len() == 0 {
        0
    } else {
        sum_price(s.drop_last()) + s.last().price
    }
}

/// Sum of the bid/ask size ratio over a slice of rows.
pub open spec fn sum_ratio(s: Seq<Observation>) -> int
    decreases s.len(),
{
    if s.len() == 0 {
        0
    } else {
        sum_ratio(s.drop_last()) + s.last().bids_asks_ratio
    }
}

/// Sum of squared deviation of net quantity from `m` over a slice of rows.
pub open spec fn sum_sq_dev_qty(s: Seq<Observation>, m: int) -> int
    decreases s.len(),
{
    if s.len() == 0 {
        0
    } else {
        sum_sq_dev_qty(s.drop_last(), m) + (s.last().net_qty - m) * (s.last().net_qty - m)
    }
}

/// Sum of squared deviation of trade price from `m` over a slice of rows.
pub open spec fn sum_sq_dev_price(s: Seq<Observation>, m: int) -> int
    decreases s.len(),
{
    if s.len() == 0 {
        0
    } else {
        sum_sq_dev_price(s.drop_last(), m) + (s.last().price - m) * (s.last().price - m)
    }
}

proof fn lemma_window_sum_bounds(s: Seq<Observation>)
    requires
        log_wf(s),
    ensures
        -(s.len() * ATOM_MAX as int) <= sum_net_qty(s) <= s.len() * ATOM_MAX as int,
        0 <= sum_abs_net_qty(s) <= s.len() * ATOM_MAX as int,
        0 <= sum_price(s) <= s.len() * ATOM_MAX as int,
        0 <= sum_ratio(s) <= s.len() * RATIO_BOUND,
    decreases s.len(),
{
    if s.len() > 0 {
        let d = s.drop_last();
        assert(log_wf(d)) by {
            assert forall|i: int| 0 <= i < d.len() implies (#[trigger] d[i]).wf() by {
                assert(d[i] == s[i]);
            }
        }
        lemma_window_sum_bounds(d);
        assert(s.last().wf());
        assert((s.len() - 1) * ATOM_MAX as int + ATOM_MAX as int == s.len() * ATOM_MAX as int)
            by (nonlinear_arith);
        assert((s.len() - 1) * RATIO_BOUND + RATIO_BOUND == s.len() * RATIO_BOUND)
            by (nonlinear_arith);
    }
}

proof fn lemma_sq_dev_bounds(s: Seq<Observation>, m: int, b: int)
    requires
        log_wf(s),
        0 <= b,
        -b <= m <= b,
        ATOM_MAX as int <= b,
    ensures
        0 <= sum_sq_dev_qty(s, m) <= s.len() * (4 * b * b),
        0 <= sum_sq_dev_price(s, m) <= s.len() * (4 * b * b),
    decreases s.len(),
{
    if s.len() > 0 {
        let d = s.drop_last();
        assert(log_wf(d)) by {
            assert forall|i: int| 0 <= i < d.len() implies (#[trigger] d[i]).wf() by {
                assert(d[i] == s[i]);
            }
        }
        lemma_sq_dev_bounds(d, m, b);
        assert(s.last().wf());
        let q = s.last().net_qty as int;
        let p = s.last().price as int;
        assert(0 <= (q - m) * (q - m) <= 4 * b * b) by (nonlinear_arith)
            requires -b <= q <= b && -b <= m <= b && 0 <= b;
        assert(0 <= (p - m) * (p - m) <= 4 * b * b) by (nonlinear_arith)
            requires -b <= p <= b && -b <= m <= b && 0 <= b;
        assert((s.len() - 1) * (4 * b * b) + 4 * b * b == s.len() * (4 * b * b))
            by (nonlinear_arith);
    }
}

/// Row `i` with the rolling statistics of the window `[i - w, i)` filled in:
/// sum and rounded mean of net quantity, floor-square-root population
/// standard deviation of net quantity and of price, rounded mean of price
/// and of the bid/ask ratio, and the sum of absolute net quantity.
pub open spec fn spec_fill_row(s: Seq<Observation>, i: int, w: int) -> Observation {
    let win = s.subrange(i - w, i);
    let rq = sum_net_qty(win);
    let mq = div_round_half(rq, w);
    let qstd = spec_isqrt(div_round_half(sum_sq_dev_qty(win, mq), w));
    let mp = div_round_half(sum_price(win), w);
    let pstd = spec_isqrt(div_round_half(sum_sq_dev_price(win, mp), w));
    let rmean = div_round_half(sum_ratio(win), w);
    let rabs = sum_abs_net_qty(win);
    Observation {
        rolling_qty: Some(rq as i128),
        mean_qty: Some(mq as i128),
        qty_std: Some(qstd as i128),
        mean_price: Some(mp as i128),
        price_std: Some(pstd as i128),
        book_ratio_rolling_mean: Some(rmean as i128),
        rolling_qty_abs: Some(rabs as i128),
        ..s[i]
    }
}

/// The whole log after one recomputation pass with window `w`: every row at
/// index `i >= w` that lacks rolling fields gets them from `[i - w, i)`;
/// every other row is untouched.
pub open spec fn spec_recompute(s: Seq<Observation>, w: int) -> Seq<Observation> {
    Seq::new(
        s.len(),
        |i: int|
            if i >= w && !s[i].spec_has_rolling() {
                spec_fill_row(s, i, w)
            } else {
                s[i]
            },
    )
}

/// Computes the rolling statistics of the window `[i - w, i)` for row `i`.
fn fill_row(data: &Vec<Observation>, i: usize, window: usize) -> (r: Observation)
    requires
        1 <= window <= MAX_WINDOW,
        window <= i < data@.len(),
        log_wf(data@),
    ensures
        r == spec_fill_row(data@, i as int, window as int),
{
    let lo: usize = i - window;
    let ghost win = data@.subrange(lo as int, i as int);
    proof {
        assert(log_wf(win)) by {
            assert forall|k: int| 0 <= k < win.len() implies (#[trigger] win[k]).wf() by {
                assert(win[k] == data@[lo + k]);
            }
        }
        assert(data@.subrange(lo as int, lo as int) =~= Seq::<Observation>::empty());
    }
    let w128: i128 = window as i128;
    let mut rq: i128 = 0;
    let mut rabs: i128 = 0;
    let mut sp: i128 = 0;
    let mut sr: i128 = 0;
    let mut j: usize = lo;
    while j < i
        invariant
            lo <= j <= i < data@.len(),
            lo == i - window,
            1 <= window <= MAX_WINDOW,
            log_wf(data@),
            rq == sum_net_qty(data@.subrange(lo as int, j as int)),
            rabs == sum_abs_net_qty(data@.subrange(lo as int, j as int)),
            sp == sum_price(data@.subrange(lo as int, j as int)),
            sr == sum_ratio(data@.subrange(lo as int, j as int)),
        decreases i - j,
    {
        let row = data[j];
        proof {
            let part = data@.subrange(lo as int, j as int);
            let part1 = data@.subrange(lo as int, j as int + 1);
            assert(part1.drop_last() =~= part);
            assert(part1.last() == data@[j as int]);
            assert(log_wf(part)) by {
                assert forall|k: int| 0 <= k < part.len() implies (#[trigger] part[k]).wf() by {
                    assert(part[k] == data@[lo + k]);
                }
            }
            lemma_window_sum_bounds(part);
            assert(data@[j as int].wf());
            assert(part.len() * ATOM_MAX as int <= MAX_WINDOW * ATOM_MAX as int)
                by (nonlinear_arith)
                requires 0 <= part.len() <= MAX_WINDOW as int;
            assert(part.len() * RATIO_BOUND <= MAX_WINDOW * RATIO_BOUND) by (nonlinear_arith)
                requires 0 <= part.len() <= MAX_WINDOW as int;
        }
        rq = rq + row.net_qty;
        rabs = rabs + (if row.net_qty >= 0 {
            row.net_qty
        } else {
            -row.net_qty
        });
        sp = sp + row.price as i128;
        sr = sr + row.bids_asks_ratio;
        j = j + 1;
    }
    proof {
        lemma_window_sum_bounds(win);
        assert(win.len() * ATOM_MAX as int <= MAX_WINDOW * ATOM_MAX as int) by (nonlinear_arith)
            requires 0 <= win.len() <= MAX_WINDOW as int;
        assert(win.len() * RATIO_BOUND <= MAX_WINDOW * RATIO_BOUND) by (nonlinear_arith)
            requires 0 <= win.len() <= MAX_WINDOW as int;
        assert(MAX_WINDOW * ATOM_MAX as int == 0x40_0000_0000_0000_0000int);
        assert(MAX_WINDOW * RATIO_BOUND == 0x4000_0000_0000_0000_0000_0000_0000int);
    }
    let mq: i128 = div_round_half_i128(rq, w128);
    let mp: i128 = div_round_half_i128(sp, w128);
    let rmean: i128 = div_round_half_i128(sr, w128);
    proof {
        assert(win.len() == window as int);
        assert(window * ATOM_MAX as int == ATOM_MAX as int * win.len()) by (nonlinear_arith)
            requires win.len() == window as int;
        lemma_mean_bound(rq as int, window as int, ATOM_MAX as int);
        lemma_mean_bound(sp as int, window as int, ATOM_MAX as int);
    }
    let mut sqq: i128 = 0;
    let mut sqp: i128 = 0;
    let ghost bb: int = ATOM_MAX as int + 1;
    let mut j2: usize = lo;
    while j2 < i
        invariant
            lo <= j2 <= i < data@.len(),
            lo == i - window,
            1 <= window <= MAX_WINDOW,
            log_wf(data@),
            bb == ATOM_MAX as int + 1,
            -bb <= mq as int <= bb,
            -bb <= mp as int <= bb,
            sqq == sum_sq_dev_qty(data@.subrange(lo as int, j2 as int), mq as int),
            sqp == sum_sq_dev_price(data@.subrange(lo as int, j2 as int), mp as int),
        decreases i - j2,
    {
        let row = data[j2];
        proof {
            let part = data@.subrange(lo as int, j2 as int);
            let part1 = data@.subrange(lo as int, j2 as int + 1);
            assert(part1.drop_last() =~= part);
            assert(part1.last() == data@[j2 as int]);
            assert(log_wf(part)) by {
                assert forall|k: int| 0 <= k < part.len() implies (#[trigger] part[k]).wf() by {
                    assert(part[k] == data@[lo + k]);
                }
            }
            lemma_sq_dev_bounds(part, mq as int, bb);
            lemma_sq_dev_bounds(part, mp as int, bb);
            assert(data@[j2 as int].wf());
            assert(part.len() * (4 * bb * bb) <= MAX_WINDOW * (4 * bb * bb)) by (nonlinear_arith)
                requires 0 <= part.len() <= MAX_WINDOW as int;
            assert(MAX_WINDOW * (4 * bb * bb)
                <= 0x800_0000_0000_0000_0000_0000_0000_0000int) by (nonlinear_arith)
                requires bb == 0x4_0000_0000_0000int + 1 && MAX_WINDOW == 0x10_0000int;
            let q = row.net_qty as int;
            let p = row.price as int;
            assert(0 <= (q - mq as int) * (q - mq as int) <= 4 * bb * bb) by (nonlinear_arith)
                requires -bb <= q <= bb && -bb <= mq as int <= bb && 0 <= bb;
            assert(0 <= (p - mp as int) * (p - mp as int) <= 4 * bb * bb) by (nonlinear_arith)
                requires -bb <= p <= bb && -bb <= mp as int <= bb && 0 <= bb;
            assert(4 * bb * bb <= 0x100_0000_0000_0000_0000_0000_0000int) by (nonlinear_arith)
                requires bb == 0x4_0000_0000_0000int + 1;
        }
        let dq: i128 = row.net_qty - mq;
        let dp: i128 = row.price as i128 - mp;
        sqq = sqq + dq * dq;
        sqp = sqp + dp * dp;
        j2 = j2 + 1;
    }
    proof {
        lemma_sq_dev_bounds(win, mq as int, bb);
        lemma_sq_dev_bounds(win, mp as int, bb);
        assert(win.len() * (4 * bb * bb) <= MAX_WINDOW * (4 * bb * bb)) by (nonlinear_arith)
            requires 0 <= win.len() <= MAX_WINDOW as int;
        assert(MAX_WINDOW * (4 * bb * bb) <= 0x800_0000_0000_0000_0000_0000_0000_0000int)
            by (nonlinear_arith)
            requires bb == 0x4_0000_0000_0000int + 1 && MAX_WINDOW == 0x10_0000int;
        lemma_div_round_half_bounds(sqq as int, window as int);
        lemma_div_round_half_bounds(sqp as int, window as int);
    }
    let qvar: i128 = div_round_half_i128(sqq, w128);
    let pvar: i128 = div_round_half_i128(sqp, w128);
    let qstd: u128 = isqrt_u128(qvar as u128);
    let pstd: u128 = isqrt_u128(pvar as u128);
    let base = data[i];
    Observation {
        rolling_qty: Some(rq),
        mean_qty: Some(mq),
        qty_std: Some(qstd as i128),
        mean_price: Some(mp),
        price_std: Some(pstd as i128),
        book_ratio_rolling_mean: Some(rmean),
        rolling_qty_abs: Some(rabs),
        ..base
    }
}

/// Largest trade price in a slice of rows; zero for an empty slice.
pub open spec fn max_price_seq(s: Seq<Observation>) -> int
    decreases s.len(),
{
    if s.len() == 0 {
        0
    } else if s.len() == 1 {
        s[0].price as int
    } else {
        let m = max_price_seq(s.drop_last());
        if s.last().price as int > m {
            s.last().price as int
        } else {
            m
        }
    }
}

/// Smallest trade price in a slice of rows; zero for an empty slice.
pub open spec fn min_price_seq(s: Seq<Observation>) -> int
    decreases s.len(),
{
    if s.len() == 0 {
        0
    } else if s.len() == 1 {
        s[0].price as int
    } else {
        let m = min_price_seq(s.drop_last());
        if (s.last().price as int) < m {
            s.last().price as int
        } else {
            m
        }
    }
}

/// Row `i` with its forward-looking target: the upward excursion minus the
/// downward excursion of the price over the forward window `[i, i + w)`,
/// each in `FRAC_SCALE`-scaled ticks.
pub open spec fn spec_target_row(s: Seq<Observation>, i: int, w: int, tick: int) -> Observation {
    let win = s.subrange(i, i + w);
    let hi = max_price_seq(win);
    let lo = min_price_seq(win);
    let p = s[i].price as int;
    let up = div_round_half((hi - p) * FRAC_SCALE, tick);
    let down = div_round_half((p - lo) * FRAC_SCALE, tick);
    Observation { target: Some((up - down) as i128), ..s[i] }
}

/// The whole log after one target pass: every row with a full forward window
/// gets its target; the trailing rows are untouched.
pub open spec fn spec_assign_target(s: Seq<Observation>, w: int, tick: int) -> Seq<Observation> {
    Seq::new(
        s.len(),
        |i: int|
            if i + w <= s.len() {
                spec_target_row(s, i, w, tick)
            } else {
                s[i]
            },
    )
}

/// Computes the target of row `i` from the forward window `[i, i + w)`.
fn target_row(data: &Vec<Observation>, i: usize, window: usize, tick_size: u64) -> (r: Observation)
    requires
        1 <= window <= MAX_WINDOW,
        i + window <= data@.len(),
        1 <= tick_size <= ATOM_MAX,
        log_wf(data@),
    ensures
        r == spec_target_row(data@, i as int, window as int, tick_size as int),
{
    let n: usize = data.len();
    let hi_end: usize = i + window;
    let ghost win = data@.subrange(i as int, i as int + window as int);
    let first = data[i];
    proof {
        assert(data@[i as int].wf());
        assert(data@.subrange(i as int, i as int + 1) =~= seq![data@[i as int]]);
    }
    let mut hi: u64 = first.price;
    let mut lo: u64 = first.price;
    let mut j: usize = i + 1;
    while j < hi_end
        invariant
            i + 1 <= j <= hi_end,
            hi_end == i + window,
            hi_end <= data@.len(),
            log_wf(data@),
            hi as int == max_price_seq(data@.subrange(i as int, j as int)),
            lo as int == min_price_seq(data@.subrange(i as int, j as int)),
            hi <= ATOM_MAX,
            lo <= ATOM_MAX,
        decreases hi_end - j,
    {
        let row = data[j];
        proof {
            let part = data@.subrange(i as int, j as int);
            let part1 = data@.subrange(i as int, j as int + 1);
            assert(part1.drop_last() =~= part);
            assert(part1.last() == data@[j as int]);
            assert(data@[j as int].wf());
        }
        if row.price > hi {
            hi = row.price;
        }
        if row.price < lo {
            lo = row.price;
        }
        j = j + 1;
    }
    proof {
        assert(data@.subrange(i as int, hi_end as int) == win);
        assert((hi as int - first.price as int) * FRAC_SCALE
            <= 0x1000_0000_0000_0000_0000i128 && (hi as int - first.price as int) * FRAC_SCALE
            >= -0x1000_0000_0000_0000_0000i128) by (nonlinear_arith)
            requires
                0 <= hi <= 0x4_0000_0000_0000u64,
                0 <= first.price <= 0x4_0000_0000_0000u64,
        ;
        assert((first.price as int - lo as int) * FRAC_SCALE
            <= 0x1000_0000_0000_0000_0000i128 && (first.price as int - lo as int) * FRAC_SCALE
            >= -0x1000_0000_0000_0000_0000i128) by (nonlinear_arith)
            requires
                0 <= lo <= 0x4_0000_0000_0000u64,
                0 <= first.price <= 0x4_0000_0000_0000u64,
        ;
        lemma_div_round_half_bounds(
            (hi as int - first.price as int) * FRAC_SCALE,
            tick_size as int,
        );
        lemma_div_round_half_bounds(
            (first.price as int - lo as int) * FRAC_SCALE,
            tick_size as int,
        );
    }
    let up: i128 = div_round_half_i128(
        (hi as i128 - first.price as i128) * FRAC_SCALE,
        tick_size as i128,
    );
    let down: i128 = div_round_half_i128(
        (first.price as i128 - lo as i128) * FRAC_SCALE,
        tick_size as i128,
    );
    Observation { target: Some(up - down), ..first }
}

/// The shared feature log: an append-only sequence of observations.
#[derive(Clone, Debug)]
pub struct FeatureDataFrame {
    pub data: Vec<Observation>,
}

impl FeatureDataFrame {
    /// An empty log.
    pub fn new_empty() -> (r: Self)
        ensures
            r.data@.len() == 0,
    {
        FeatureDataFrame { data: Vec::new() }
    }

    /// Appends the observation for one trade against the current book:
    /// `true` when a row was appended, `false` when a side of the book had
    /// zero aggregate size and the trade was skipped.
    pub fn observe(&mut self, trade: &Trade, book: &OrderBook, tick_size: u64) -> (appended: bool)
        requires
            trade.wf(),
            book.wf(),
            1 <= tick_size <= ATOM_MAX,
            book.bids@.len() <= MAX_LEVELS,
            book.asks@.len() <= MAX_LEVELS,
            log_wf(old(self).data@),
            old(self).data@.len() < usize::MAX,
        ensures
            log_wf(final(self).data@),
            appended == !(sum_sizes(book.bids@) == 0 || sum_sizes(book.asks@) == 0),
            !appended ==> final(self).data@ == old(self).data@,
            appended ==> final(self).data@ == old(self).data@.push(
                spec_observation(*trade, book.bids@, book.asks@, tick_size as int),
            ),
    {
        match book.to_features(tick_size) {
            None => false,
            Some(bf) => {
                let tf = trade.to_features();
                let obs = Observation::from_trade_and_book(tf, bf);
                self.data.push(obs);
                proof {
                    assert(obs == spec_observation(
                        *trade,
                        book.bids@,
                        book.asks@,
                        tick_size as int,
                    ));
                    assert forall|k: int| 0 <= k < self.data@.len() implies (#[trigger] self
                        .data@[k]).wf() by {
                        if k < self.data@.len() - 1 {
                            assert(self.data@[k] == old(self).data@[k]);
                        }
                    }
                }
                true
            },
        }
    }

    /// One recomputation pass with the given window: fills the rolling
    /// fields of every row at index `i >= window` that lacks them, from the
    /// rows `[i - window, i)`; rows that already carry them are unchanged.
    pub fn recompute_rolling(&mut self, window: usize)
        requires
            1 <= window <= MAX_WINDOW,
            log_wf(old(self).data@),
        ensures
            final(self).data@ == spec_recompute(old(self).data@, window as int),
            final(self).data@.len() == old(self).data@.len(),
            log_wf(final(self).data@),
    {
        let ghost s0 = self.data@;
        let n: usize = self.data.len();
        let mut out: Vec<Observation> = Vec::new();
        let mut i: usize = 0;
        while i < n
            invariant
                0 <= i <= n,
                n == self.data@.len(),
                self.data@ == s0,
                1 <= window <= MAX_WINDOW,
                log_wf(s0),
                out@.len() == i,
                forall|k: int|
                    0 <= k < i ==> out@[k] == spec_recompute(s0, window as int)[k],
            decreases n - i,
        {
            let row = self.data[i];
            if i >= window && !row.has_rolling_features() {
                let filled = fill_row(&self.data, i, window);
                out.push(filled);
            } else {
                out.push(row);
            }
            i = i + 1;
        }
        proof {
            assert(out@ =~= spec_recompute(s0, window as int));
        }
        self.data = out;
        proof {
            assert forall|k: int| 0 <= k < self.data@.len() implies (#[trigger] self
                .data@[k]).wf() by {
                if k >= window as int && !s0[k].spec_has_rolling() {
                    assert(self.data@[k] == spec_fill_row(s0, k, window as int));
                    assert(self.data@[k].price == s0[k].price);
                    assert(self.data@[k].net_qty == s0[k].net_qty);
                    assert(self.data@[k].bids_asks_ratio == s0[k].bids_asks_ratio);
                    assert(s0[k].wf());
                } else {
                    assert(self.data@[k] == s0[k]);
                }
            }
        }
    }

    /// The recomputation pass with the standing rolling window.
    pub fn calculate_rolling_features(&mut self)
        requires
            log_wf(old(self).data@),
        ensures
            final(self).data@ == spec_recompute(old(self).data@, ROLLING_WINDOW as int),
            final(self).data@.len() == old(self).data@.len(),
            log_wf(final(self).data@),
    {
        self.recompute_rolling(ROLLING_WINDOW);
    }

    /// One target pass with the given window: every row with a full forward
    /// window `[i, i + window)` gets its target; the trailing rows keep
    /// theirs untouched.
    pub fn assign_target(&mut self, tick_size: u64, window: usize)
        requires
            1 <= window <= MAX_WINDOW,
            1 <= tick_size <= ATOM_MAX,
            log_wf(old(self).data@),
        ensures
            final(self).data@ == spec_assign_target(
                old(self).data@,
                window as int,
                tick_size as int,
            ),
            final(self).data@.len() == old(self).data@.len(),
            log_wf(final(self).data@),
    {
        let ghost s0 = self.data@;
        let n: usize = self.data.len();
        let mut out: Vec<Observation> = Vec::new();
        let mut i: usize = 0;
        while i < n
            invariant
                0 <= i <= n,
                n == self.data@.len(),
                self.data@ == s0,
                1 <= window <= MAX_WINDOW,
                1 <= tick_size <= ATOM_MAX,
                log_wf(s0),
                out@.len() == i,
                forall|k: int|
                    0 <= k < i ==> out@[k] == spec_assign_target(
                        s0,
                        window as int,
                        tick_size as int,
                    )[k],
            decreases n - i,
        {
            if window <= n - i {
                let filled = target_row(&self.data, i, window, tick_size);
                out.push(filled);
            } else {
                out.push(self.data[i]);
            }
            i = i + 1;
        }
        proof {
            assert(out@ =~= spec_assign_target(s0, window as int, tick_size as int));
        }
        self.data = out;
        proof {
            assert forall|k: int| 0 <= k < self.data@.len() implies (#[trigger] self
                .data@[k]).wf() by {
                if k + window as int <= s0.len() {
                    assert(self.data@[k] == spec_target_row(
                        s0,
                        k,
                        window as int,
                        tick_size as int,
                    ));
                    assert(self.data@[k].price == s0[k].price);
                    assert(self.data@[k].net_qty == s0[k].net_qty);
                    assert(self.data@[k].bids_asks_ratio == s0[k].bids_asks_ratio);
                    assert(s0[k].wf());
                } else {
                    assert(self.data@[k] == s0[k]);
                }
            }
        }
    }

    /// The target pass with the standing rolling window.
    pub fn add_target_value(&mut self, tick_size: u64)
        requires
            1 <= tick_size <= ATOM_MAX,
            log_wf(old(self).data@),
        ensures
            final(self).data@ == spec_assign_target(
                old(self).data@,
                ROLLING_WINDOW as int,
                tick_size as int,
            ),
            final(self).data@.len() == old(self).data@.len(),
            log_wf(final(self).data@),
    {
        self.assign_target(tick_size, ROLLING_WINDOW);
    }

    /// Keeps only the rows fit for inference: complete rolling fields. The
    /// kept rows stay in order; the log is never reordered.
    pub fn drop_na_without_target(&mut self)
        ensures
            final(self).data@ == filtered(old(self).data@, false),
    {
        let ghost s0 = self.data@;
        let n: usize = self.data.len();
        let mut out: Vec<Observation> = Vec::new();
        let mut i: usize = 0;
        while i < n
            invariant
                0 <= i <= n,
                n == self.data@.len(),
                self.data@ == s0,
                out@ == filtered(s0.take(i as int), false),
            decreases n - i,
        {
            let row = self.data[i];
            proof {
                assert(s0.take(i as int + 1).drop_last() =~= s0.take(i as int));
                assert(s0.take(i as int + 1).last() == s0[i as int]);
            }
            if row.has_rolling_features() {
                out.push(row);
            }
            i = i + 1;
        }
        proof {
            assert(s0.take(n as int) =~= s0);
        }
        self.data = out;
    }

    /// Keeps only the rows fit for training: complete rolling fields and a
    /// target. The kept rows stay in order; the log is never reordered.
    pub fn drop_na_with_target(&mut self)
        ensures
            final(self).data@ == filtered(old(self).data@, true),
    {
        let ghost s0 = self.data@;
        let n: usize = self.data.len();
        let mut out: Vec<Observation> = Vec::new();
        let mut i: usize = 0;
        while i < n
            invariant
                0 <= i <= n,
                n == self.data@.len(),
                self.data@ == s0,
                out@ == filtered(s0.take(i as int), true),
            decreases n - i,
        {
            let row = self.data[i];
            proof {
                assert(s0.take(i as int + 1).drop_last() =~= s0.take(i as int));
                assert(s0.take(i as int + 1).last() == s0[i as int]);
            }
            if row.has_rolling_features() && row.has_target() {
                out.push(row);
            }
            i = i + 1;
        }
        proof {
            assert(s0.take(n as int) =~= s0);
        }
        self.data = out;
    }
}

/// The observation one trade yields against one book state, by the feature
/// formulas.
pub open spec fn spec_observation(
    t: Trade,
    bids: Seq<crate::orderbook::PriceSize>,
    asks: Seq<crate::orderbook::PriceSize>,
    tick: int,
) -> Observation {
    Observation {
        timestamp: t.trade_time,
        price: t.price,
        net_qty: (if t.buyer_is_the_market_maker {
            -(t.quantity as int)
        } else {
            t.quantity as int
        }) as i128,
        notional: (t.price * t.quantity) as i128,
        bid_total: sum_sizes(bids) as i128,
        num_ticks_from_best_bid: crate::orderbook::spec_tick_distance(
            bids[0].price as int,
            crate::orderbook::spec_weighted_price(
                crate::orderbook::sum_notional(bids),
                sum_sizes(bids),
                tick,
            ),
            tick,
        ) as i128,
        ask_total: sum_sizes(asks) as i128,
        num_ticks_from_best_ask: crate::orderbook::spec_tick_distance(
            crate::orderbook::spec_weighted_price(
                crate::orderbook::sum_notional(asks),
                sum_sizes(asks),
                tick,
            ),
            asks[0].price as int,
            tick,
        ) as i128,
        bids_asks_ratio: crate::orderbook::spec_size_ratio(
            sum_sizes(bids),
            sum_sizes(asks),
        ) as i128,
        bid_notional: crate::orderbook::sum_notional(bids) as i128,
        ask_notional: crate::orderbook::sum_notional(asks) as i128,
        rolling_qty: None,
        mean_qty: None,
        qty_std: None,
        mean_price: None,
        price_std: None,
        book_ratio_rolling_mean: None,
        rolling_qty_abs: None,
        target: None,
    }
}

/// The log restricted to complete rows, in order: rows with rolling fields,
/// and with a target too when `with_target` is set.
pub open spec fn filtered(s: Seq<Observation>, with_target: bool) -> Seq<Observation>
    decreases s.len(),
{
    if s.len() == 0 {
        Seq::<Observation>::empty()
    } else {
        let rest = filtered(s.drop_last(), with_target);
        if s.last().spec_has_rolling() && (!with_target || s.last().target is Some) {
            rest.push(s.last())
        } else {
            rest
        }
    }
}

/// Recomputing the rolling fields twice with no new data changes nothing:
/// the pass is idempotent.
pub proof fn lemma_recompute_idempotent(s: Seq<Observation>, w: int)
    requires
        1 <= w,
    ensures
        spec_recompute(spec_recompute(s, w), w) == spec_recompute(s, w),
{
    let r1 = spec_recompute(s, w);
    assert forall|i: int| 0 <= i < r1.len() implies spec_recompute(r1, w)[i] == r1[i] by {
        if i >= w {
            if !s[i].spec_has_rolling() {
                assert(r1[i] == spec_fill_row(s, i, w));
                assert(r1[i].spec_has_rolling());
            } else {
                assert(r1[i] == s[i]);
            }
            assert(r1[i].spec_has_rolling());
        }
    }
    assert(spec_recompute(r1, w) =~= r1);
}

/// The rolling fields of row `i` depend only on the rows `[i - w, i)`: two
/// logs that agree on that window get the same rolling values.
pub proof fn lemma_rolling_depends_on_window(
    s1: Seq<Observation>,
    s2: Seq<Observation>,
    w: int,
    i1: int,
    i2: int,
)
    requires
        1 <= w,
        w <= i1 <= s1.len(),
        w <= i2 <= s2.len(),
        s1.subrange(i1 - w, i1) == s2.subrange(i2 - w, i2),
    ensures
        spec_fill_row(s1, i1, w).rolling_qty == spec_fill_row(s2, i2, w).rolling_qty,
        spec_fill_row(s1, i1, w).mean_qty == spec_fill_row(s2, i2, w).mean_qty,
        spec_fill_row(s1, i1, w).qty_std == spec_fill_row(s2, i2, w).qty_std,
        spec_fill_row(s1, i1, w).mean_price == spec_fill_row(s2, i2, w).mean_price,
        spec_fill_row(s1, i1, w).price_std == spec_fill_row(s2, i2, w).price_std,
        spec_fill_row(s1, i1, w).book_ratio_rolling_mean == spec_fill_row(
            s2,
            i2,
            w,
        ).book_ratio_rolling_mean,
        spec_fill_row(s1, i1, w).rolling_qty_abs == spec_fill_row(s2, i2, w).rolling_qty_abs,
{
}

/// A row whose forward window runs past the end of the log never gets a
/// target assigned.
pub proof fn lemma_target_needs_full_window(s: Seq<Observation>, w: int, tick: int, i: int)
    requires
        0 <= i < s.len(),
        i + w > s.len(),
    ensures
        spec_assign_target(s, w, tick)[i] == s[i],
{
}

} // verus!
