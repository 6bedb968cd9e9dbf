//! Per-bar derived series: the built-in indicators, in batch and streaming form.
//!
//! Built-in specs are `sma:N`, `ema:N`, `dema:N`, `vsma:N`, `vema:N`, `vdema:N`, `rsi:N`,
//! `ret:log`, `ret:simple`, `vol:N`.
//!
//! An indicator decides, bar by bar, what is computed from which values: nothing during its
//! warm-up, then a seed, then one step of its recurrence. Sums are exact, over whole price units or
//! shares; dividing them and smoothing is left to whoever renders the column. The batch and the
//! streaming form of an indicator are held to the same description of its cells.
use vstd::prelude::*;

use std::collections::VecDeque;

use crate::model::Bar;
use crate::text::{chars_of, from_decimal, same, text_of, to_decimal};

verus! {

/// How a bar-to-bar return is taken.
#[derive(Debug, Clone, Copy, PartialEq, Eq, Structural)]
pub enum ReturnMethod {
    Log,
    Simple,
}

impl ReturnMethod {
    pub open spec fn named(value: Seq<char>) -> Option<ReturnMethod> {
        if value == "log"@ {
            Some(ReturnMethod::Log)
        } else if value == "simple"@ {
            Some(ReturnMethod::Simple)
        } else {
            None
        }
    }

    /// The method that a token names.
    pub fn from_token(value: &str) -> (r: Option<Self>)
        ensures
            r == ReturnMethod::named(value@),
    {
        if same(value, "log") {
            Some(ReturnMethod::Log)
        } else if same(value, "simple") {
            Some(ReturnMethod::Simple)
        } else {
            None
        }
    }
}

// ---- cells -----------------------------------------------------------------------------

/// A sum of values and how many they are: their average is the quotient.
#[derive(Debug, Clone, Copy, PartialEq, Eq, Structural)]
pub struct Average {
    pub sum: i128,
    pub count: usize,
}

/// One cell of an exponential moving average.
#[derive(Debug, Clone, Copy, PartialEq, Eq, Structural)]
pub enum EmaStep {
    /// No value yet.
    Warming,
    /// The average starts as the simple average of the first values.
    Seed(Average),
    /// The average moves towards this value.
    Smooth(i64),
}

/// What the outer average of a double exponential moving average does with the inner one's value.
#[derive(Debug, Clone, Copy, PartialEq, Eq, Structural)]
pub enum OuterStep {
    /// The inner average has no value yet.
    Idle,
    /// The value is gathered for the seed.
    Gather,
    /// The outer average starts as the simple average of the values gathered, this one included.
    Seed,
    /// The outer average moves towards the value.
    Smooth,
}

/// One cell of a double exponential moving average. It has a value once the outer average has.
#[derive(Debug, Clone, Copy, PartialEq, Eq, Structural)]
pub struct DemaStep {
    pub inner: EmaStep,
    pub outer: OuterStep,
}

/// One cell of a relative strength index.
#[derive(Debug, Clone, Copy, PartialEq, Eq, Structural)]
pub enum RsiStep {
    /// No value yet.
    Warming,
    /// The average gain and loss start as those of the first changes.
    Seed { gains: u128, losses: u128, count: usize },
    /// The averages are smoothed with this gain and loss.
    Smooth { gain: u32, loss: u32 },
}

/// The two closes of a return.
#[derive(Debug, Clone, Copy, PartialEq, Eq, Structural)]
pub struct ReturnPair {
    pub prev: u32,
    pub cur: u32,
}

/// Which bar field a moving average reads.
#[derive(Debug, Clone, Copy, PartialEq, Eq, Structural)]
pub enum Source {
    Close,
    Volume,
}

impl Source {
    pub open spec fn of(self, bar: Bar) -> i64 {
        match self {
            Source::Close => bar.close as i64,
            Source::Volume => bar.volume,
        }
    }

    pub fn value(self, bar: &Bar) -> (r: i64)
        ensures
            r == self.of(*bar),
    {
        match self {
            Source::Close => bar.close as i64,
            Source::Volume => bar.volume,
        }
    }
}

/// The values that a source reads from bars.
pub open spec fn values_of(source: Source, bars: Seq<Bar>) -> Seq<i64> {
    bars.map_values(|bar: Bar| source.of(bar))
}

pub open spec fn closes_of(bars: Seq<Bar>) -> Seq<u32> {
    bars.map_values(|bar: Bar| bar.close)
}

pub open spec fn sum_of(values: Seq<i64>) -> int
    decreases values.len(),
{
    if values.len() == 0 {
        0
    } else {
        sum_of(values.drop_last()) + values.last()
    }
}

proof fn lemma_sum_bounds(values: Seq<i64>)
    ensures
        -0x8000_0000_0000_0000 * values.len() <= sum_of(values) <= 0x7fff_ffff_ffff_ffff
            * values.len(),
    decreases values.len(),
{
    if values.len() > 0 {
        lemma_sum_bounds(values.drop_last());
    }
}

proof fn lemma_sum_drop_first(values: Seq<i64>)
    requires
        values.len() > 0,
    ensures
        sum_of(values) == values[0] + sum_of(values.drop_first()),
    decreases values.len(),
{
    if values.len() == 1 {
        assert(values.drop_last() =~= Seq::<i64>::empty());
        assert(values.drop_first() =~= Seq::<i64>::empty());
    } else {
        lemma_sum_drop_first(values.drop_last());
        assert(values.drop_last().drop_first() =~= values.drop_first().drop_last());
    }
}

/// The cell of a simple moving average: the last `period` values, once there are that many.
pub open spec fn sma_at(values: Seq<i64>, period: int, i: int) -> Option<Average> {
    if period > 0 && i + 1 >= period {
        Some(
            Average {
                sum: sum_of(values.subrange(i + 1 - period, i + 1)) as i128,
                count: period as usize,
            },
        )
    } else {
        None
    }
}

/// The cell of an exponential moving average, seeded with the simple average of the first `period`
/// values.
pub open spec fn ema_at(values: Seq<i64>, period: int, i: int) -> EmaStep {
    if period <= 0 || i + 1 < period {
        EmaStep::Warming
    } else if i + 1 == period {
        EmaStep::Seed(
            Average { sum: sum_of(values.take(period)) as i128, count: period as usize },
        )
    } else {
        EmaStep::Smooth(values[i])
    }
}

/// What the outer average of a double exponential moving average does: it takes the inner average's
/// values, from the first on, as an average takes its own.
pub open spec fn outer_at(period: int, i: int) -> OuterStep {
    let k = i - (period - 1);
    if period <= 0 || k < 0 {
        OuterStep::Idle
    } else if k + 1 < period {
        OuterStep::Gather
    } else if k + 1 == period {
        OuterStep::Seed
    } else {
        OuterStep::Smooth
    }
}

pub open spec fn dema_at(values: Seq<i64>, period: int, i: int) -> DemaStep {
    DemaStep { inner: ema_at(values, period, i), outer: outer_at(period, i) }
}

/// How much a close is above the one before it, or nothing.
pub open spec fn gain_at(closes: Seq<u32>, i: int) -> int {
    if closes[i] >= closes[i - 1] {
        closes[i] - closes[i - 1]
    } else {
        0
    }
}

/// How much a close is below the one before it, or nothing.
pub open spec fn loss_at(closes: Seq<u32>, i: int) -> int {
    if closes[i] >= closes[i - 1] {
        0
    } else {
        closes[i - 1] - closes[i]
    }
}

/// The gains of the first `n` changes.
pub open spec fn gain_sum(closes: Seq<u32>, n: int) -> int
    decreases n,
{
    if n <= 0 {
        0
    } else {
        gain_sum(closes, n - 1) + gain_at(closes, n)
    }
}

/// The losses of the first `n` changes.
pub open spec fn loss_sum(closes: Seq<u32>, n: int) -> int
    decreases n,
{
    if n <= 0 {
        0
    } else {
        loss_sum(closes, n - 1) + loss_at(closes, n)
    }
}

/// The cell of a relative strength index, seeded over the first `period` changes.
pub open spec fn rsi_at(closes: Seq<u32>, period: int, i: int) -> RsiStep {
    if period <= 0 || i < period {
        RsiStep::Warming
    } else if i == period {
        RsiStep::Seed {
            gains: gain_sum(closes, period) as u128,
            losses: loss_sum(closes, period) as u128,
            count: period as usize,
        }
    } else {
        RsiStep::Smooth { gain: gain_at(closes, i) as u32, loss: loss_at(closes, i) as u32 }
    }
}

/// The cell of a return: none for the first bar.
pub open spec fn return_at(closes: Seq<u32>, i: int) -> Option<ReturnPair> {
    if i >= 1 {
        Some(ReturnPair { prev: closes[i - 1], cur: closes[i] })
    } else {
        None
    }
}

/// The closes that a realized volatility is taken over: those of the last `period` returns, once
/// there are that many, and at least two.
pub open spec fn volatility_at(closes: Seq<u32>, period: int, i: int) -> Option<Seq<u32>> {
    if period >= 2 && i >= period {
        Some(closes.subrange(i - period, i + 1))
    } else {
        None
    }
}

// ---- batch -----------------------------------------------------------------------------

fn closes(bars: &[Bar]) -> (r: Vec<u32>)
    ensures
        r@ == closes_of(bars@),
{
    let mut out: Vec<u32> = Vec::new();
    let mut i: usize = 0;
    while i < bars.len()
        invariant
            i <= bars.len(),
            out@ == closes_of(bars@.take(i as int)),
        decreases bars.len() - i,
    {
        out.push(bars[i].close);
        assert(out@ =~= closes_of(bars@.take(i + 1)));
        i += 1;
    }
    assert(bars@.take(i as int) =~= bars@);
    out
}

fn values(source: Source, bars: &[Bar]) -> (r: Vec<i64>)
    ensures
        r@ == values_of(source, bars@),
{
    let mut out: Vec<i64> = Vec::new();
    let mut i: usize = 0;
    while i < bars.len()
        invariant
            i <= bars.len(),
            out@ == values_of(source, bars@.take(i as int)),
        decreases bars.len() - i,
    {
        out.push(source.value(&bars[i]));
        assert(out@ =~= values_of(source, bars@.take(i + 1)));
        i += 1;
    }
    assert(bars@.take(i as int) =~= bars@);
    out
}

/// Simple moving average over `period` values.
pub fn simple_ma(values: &Vec<i64>, period: usize) -> (r: Vec<Option<Average>>)
    ensures
        r@.len() == values@.len(),
        forall|i: int|
            0 <= i < values@.len() ==> #[trigger] r@[i] == sma_at(values@, period as int, i),
{
    let mut out: Vec<Option<Average>> = Vec::new();
    let mut sum: i128 = 0;
    let mut i: usize = 0;
    while i < values.len()
        invariant
            i <= values@.len(),
            out@.len() == i,
            forall|j: int| 0 <= j < i ==> #[trigger] out@[j] == sma_at(values@, period as int, j),
            period > 0 ==> sum == sum_of(values@.subrange(window_start(i as int, period as int), i as int)),
            period == 0 ==> sum == 0,
        decreases values.len() - i,
    {
        if period > 0 {
            let ghost from = window_start(i as int, period as int);
            let ghost long = values@.subrange(from, i + 1);
            proof {
                assert(long.drop_last() =~= values@.subrange(from, i as int));
                lemma_sum_bounds(long.drop_last());
                lemma_sum_bounds(long);
            }
            sum = sum + values[i] as i128;
            if i >= period {
                proof {
                    lemma_sum_drop_first(long);
                    assert(long.drop_first() =~= values@.subrange(from + 1, i + 1));
                    lemma_sum_bounds(long.drop_first());
                }
                sum = sum - values[i - period] as i128;
            }
            if i >= period - 1 {
                assert(window_start(i + 1, period as int) == i + 1 - period);
                out.push(Some(Average { sum, count: period }));
            } else {
                out.push(None);
            }
        } else {
            out.push(None);
        }
        i += 1;
    }
    out
}

/// Where the last `period` of `i` values start.
pub open spec fn window_start(i: int, period: int) -> int {
    if i >= period {
        i - period
    } else {
        0
    }
}

/// Exponential moving average of `values`, seeded with the `period`-bar SMA at index `period-1`.
pub fn exp_ma(values: &Vec<i64>, period: usize) -> (r: Vec<EmaStep>)
    ensures
        r@.len() == values@.len(),
        forall|i: int|
            0 <= i < values@.len() ==> #[trigger] r@[i] == ema_at(values@, period as int, i),
{
    let mut out: Vec<EmaStep> = Vec::new();
    let mut sum: i128 = 0;
    let mut i: usize = 0;
    while i < values.len()
        invariant
            i <= values@.len(),
            out@.len() == i,
            forall|j: int| 0 <= j < i ==> #[trigger] out@[j] == ema_at(values@, period as int, j),
            i <= period ==> sum == sum_of(values@.take(i as int)),
        decreases values.len() - i,
    {
        if period > 0 && i >= period {
            out.push(EmaStep::Smooth(values[i]));
        } else if period > 0 {
            proof {
                assert(values@.take(i + 1).drop_last() =~= values@.take(i as int));
                lemma_sum_bounds(values@.take(i + 1));
            }
            sum = sum + values[i] as i128;
            if i == period - 1 {
                out.push(EmaStep::Seed(Average { sum, count: period }));
            } else {
                out.push(EmaStep::Warming);
            }
        } else {
            out.push(EmaStep::Warming);
        }
        i += 1;
    }
    out
}

/// Double exponential moving average (Mulloy): `DEMA = 2*EMA - EMA(EMA)`, which cancels much of a
/// plain EMA's lag. Warms up over `2*(period-1)` bars (the inner EMA feeds the outer one).
pub fn double_ema(values: &Vec<i64>, period: usize) -> (r: Vec<DemaStep>)
    ensures
        r@.len() == values@.len(),
        forall|i: int|
            0 <= i < values@.len() ==> #[trigger] r@[i] == dema_at(values@, period as int, i),
{
    let inner = exp_ma(values, period);
    let mut out: Vec<DemaStep> = Vec::new();
    let mut i: usize = 0;
    while i < values.len()
        invariant
            i <= values@.len(),
            inner@.len() == values@.len(),
            forall|j: int|
                0 <= j < values@.len() ==> #[trigger] inner@[j] == ema_at(
                    values@,
                    period as int,
                    j,
                ),
            out@.len() == i,
            forall|j: int|
                0 <= j < i ==> #[trigger] out@[j] == dema_at(values@, period as int, j),
        decreases values.len() - i,
    {
        let outer = if period == 0 || i < period - 1 {
            OuterStep::Idle
        } else {
            // The inner average has values from here on without a gap.
            let k: usize = i - (period - 1);
            if k < period - 1 {
                OuterStep::Gather
            } else if k == period - 1 {
                OuterStep::Seed
            } else {
                OuterStep::Smooth
            }
        };
        out.push(DemaStep { inner: inner[i], outer });
        i += 1;
    }
    out
}

/// Simple moving average of close over `period` bars.
#[derive(Debug, Clone, Copy, PartialEq, Eq, Structural)]
pub struct Sma {
    pub period: usize,
}

/// Exponential moving average of close, seeded with the `period`-SMA.
#[derive(Debug, Clone, Copy, PartialEq, Eq, Structural)]
pub struct Ema {
    pub period: usize,
}

/// Double exponential moving average of close (lower lag than `ema`).
#[derive(Debug, Clone, Copy, PartialEq, Eq, Structural)]
pub struct Dema {
    pub period: usize,
}

/// Simple moving average of volume over `period` bars.
#[derive(Debug, Clone, Copy, PartialEq, Eq, Structural)]
pub struct VolumeSma {
    pub period: usize,
}

/// Exponential moving average of volume, seeded with the `period`-SMA.
#[derive(Debug, Clone, Copy, PartialEq, Eq, Structural)]
pub struct VolumeEma {
    pub period: usize,
}

/// Double exponential moving average of volume (lower lag than `vema`).
#[derive(Debug, Clone, Copy, PartialEq, Eq, Structural)]
pub struct VolumeDema {
    pub period: usize,
}

/// Wilder's Relative Strength Index over `period` bars.
#[derive(Debug, Clone, Copy, PartialEq, Eq, Structural)]
pub struct Rsi {
    pub period: usize,
}

/// Bar-to-bar returns (log or simple).
#[derive(Debug, Clone, Copy, PartialEq, Eq, Structural)]
pub struct Returns {
    pub method: ReturnMethod,
}

/// Rolling realized volatility: sample stdev of log returns over `period` bars.
#[derive(Debug, Clone, Copy, PartialEq, Eq, Structural)]
pub struct Volatility {
    pub period: usize,
}

/// A column name: a prefix and the period.
pub open spec fn column_name(prefix: Seq<char>, period: usize) -> Seq<char> {
    prefix + crate::text::decimal(period as nat)
}

fn named(prefix: &str, period: usize) -> (r: String)
    ensures
        r@ == column_name(prefix@, period),
{
    let mut out = prefix.to_owned();
    out.append(to_decimal(period as u128).as_str());
    out
}

impl Sma {
    pub fn name(&self) -> (r: String)
        ensures
            r@ == column_name("sma_"@, self.period),
    {
        named("sma_", self.period)
    }

    pub fn compute(&self, bars: &[Bar]) -> (r: Vec<Option<Average>>)
        ensures
            r@.len() == bars@.len(),
            forall|i: int|
                0 <= i < bars@.len() ==> #[trigger] r@[i] == sma_at(
                    values_of(Source::Close, bars@),
                    self.period as int,
                    i,
                ),
    {
        simple_ma(&values(Source::Close, bars), self.period)
    }
}

impl Ema {
    pub fn name(&self) -> (r: String)
        ensures
            r@ == column_name("ema_"@, self.period),
    {
        named("ema_", self.period)
    }

    pub fn compute(&self, bars: &[Bar]) -> (r: Vec<EmaStep>)
        ensures
            r@.len() == bars@.len(),
            forall|i: int|
                0 <= i < bars@.len() ==> #[trigger] r@[i] == ema_at(
                    values_of(Source::Close, bars@),
                    self.period as int,
                    i,
                ),
    {
        exp_ma(&values(Source::Close, bars), self.period)
    }
}

impl Dema {
    pub fn name(&self) -> (r: String)
        ensures
            r@ == column_name("dema_"@, self.period),
    {
        named("dema_", self.period)
    }

    pub fn compute(&self, bars: &[Bar]) -> (r: Vec<DemaStep>)
        ensures
            r@.len() == bars@.len(),
            forall|i: int|
                0 <= i < bars@.len() ==> #[trigger] r@[i] == dema_at(
                    values_of(Source::Close, bars@),
                    self.period as int,
                    i,
                ),
    {
        double_ema(&values(Source::Close, bars), self.period)
    }
}

impl VolumeSma {
    pub fn name(&self) -> (r: String)
        ensures
            r@ == column_name("vsma_"@, self.period),
    {
        named("vsma_", self.period)
    }

    pub fn compute(&self, bars: &[Bar]) -> (r: Vec<Option<Average>>)
        ensures
            r@.len() == bars@.len(),
            forall|i: int|
                0 <= i < bars@.len() ==> #[trigger] r@[i] == sma_at(
                    values_of(Source::Volume, bars@),
                    self.period as int,
                    i,
                ),
    {
        simple_ma(&values(Source::Volume, bars), self.period)
    }
}

impl VolumeEma {
    pub fn name(&self) -> (r: String)
        ensures
            r@ == column_name("vema_"@, self.period),
    {
        named("vema_", self.period)
    }

    pub fn compute(&self, bars: &[Bar]) -> (r: Vec<EmaStep>)
        ensures
            r@.len() == bars@.len(),
            forall|i: int|
                0 <= i < bars@.len() ==> #[trigger] r@[i] == ema_at(
                    values_of(Source::Volume, bars@),
                    self.period as int,
                    i,
                ),
    {
        exp_ma(&values(Source::Volume, bars), self.period)
    }
}

impl VolumeDema {
    pub fn name(&self) -> (r: String)
        ensures
            r@ == column_name("vdema_"@, self.period),
    {
        named("vdema_", self.period)
    }

    pub fn compute(&self, bars: &[Bar]) -> (r: Vec<DemaStep>)
        ensures
            r@.len() == bars@.len(),
            forall|i: int|
                0 <= i < bars@.len() ==> #[trigger] r@[i] == dema_at(
                    values_of(Source::Volume, bars@),
                    self.period as int,
                    i,
                ),
    {
        double_ema(&values(Source::Volume, bars), self.period)
    }
}

/// A change as gain and loss.
fn gain_loss(prev: u32, cur: u32) -> (r: (u32, u32))
    ensures
        r.0 == if cur >= prev {
            cur - prev
        } else {
            0
        },
        r.1 == if cur >= prev {
            0
        } else {
            prev - cur
        },
{
    if cur >= prev {
        (cur - prev, 0)
    } else {
        (0, prev - cur)
    }
}

impl Rsi {
    pub fn name(&self) -> (r: String)
        ensures
            r@ == column_name("rsi_"@, self.period),
    {
        named("rsi_", self.period)
    }

    pub fn compute(&self, bars: &[Bar]) -> (r: Vec<RsiStep>)
        ensures
            r@.len() == bars@.len(),
            forall|i: int|
                0 <= i < bars@.len() ==> #[trigger] r@[i] == rsi_at(
                    closes_of(bars@),
                    self.period as int,
                    i,
                ),
    {
        let closes = closes(bars);
        let n: usize = self.period;
        let mut out: Vec<RsiStep> = Vec::new();
        let mut gains: u128 = 0;
        let mut losses: u128 = 0;
        let mut i: usize = 0;
        while i < closes.len()
            invariant
                i <= closes@.len(),
                closes@ == closes_of(bars@),
                n == self.period,
                out@.len() == i,
                forall|j: int| 0 <= j < i ==> #[trigger] out@[j] == rsi_at(closes@, n as int, j),
                0 < i <= n + 1 ==> gains == gain_sum(closes@, i - 1) && losses == loss_sum(
                    closes@,
                    i - 1,
                ),
                i == 0 ==> gains == 0 && losses == 0,
                gains <= 0xffff_ffff * i,
                losses <= 0xffff_ffff * i,
            decreases closes.len() - i,
        {
            if i > 0 {
                let (gain, loss) = gain_loss(closes[i - 1], closes[i]);
                if i <= n {
                    gains = gains + gain as u128;
                    losses = losses + loss as u128;
                }
                if n == 0 || i < n {
                    out.push(RsiStep::Warming);
                } else if i == n {
                    out.push(RsiStep::Seed { gains, losses, count: n });
                } else {
                    out.push(RsiStep::Smooth { gain, loss });
                }
            } else {
                out.push(RsiStep::Warming);
            }
            i += 1;
        }
        out
    }
}

impl Returns {
    pub fn name(&self) -> (r: String)
        ensures
            r@ == match self.method {
                ReturnMethod::Log => "ret_log"@,
                ReturnMethod::Simple => "ret_simple"@,
            },
    {
        match self.method {
            ReturnMethod::Log => "ret_log".to_owned(),
            ReturnMethod::Simple => "ret_simple".to_owned(),
        }
    }

    pub fn compute(&self, bars: &[Bar]) -> (r: Vec<Option<ReturnPair>>)
        ensures
            r@.len() == bars@.len(),
            forall|i: int|
                0 <= i < bars@.len() ==> #[trigger] r@[i] == return_at(closes_of(bars@), i),
    {
        let closes = closes(bars);
        let mut out: Vec<Option<ReturnPair>> = Vec::new();
        let mut i: usize = 0;
        while i < closes.len()
            invariant
                i <= closes@.len(),
                closes@ == closes_of(bars@),
                out@.len() == i,
                forall|j: int| 0 <= j < i ==> #[trigger] out@[j] == return_at(closes@, j),
            decreases closes.len() - i,
        {
            if i >= 1 {
                out.push(Some(ReturnPair { prev: closes[i - 1], cur: closes[i] }));
            } else {
                out.push(None);
            }
            i += 1;
        }
        out
    }
}

/// Whether a cell holds the closes described.
pub open spec fn is_window(cell: Option<Vec<u32>>, closes: Option<Seq<u32>>) -> bool {
    match closes {
        Some(closes) => cell is Some && cell->0@ == closes,
        None => cell is None,
    }
}

impl Volatility {
    pub fn name(&self) -> (r: String)
        ensures
            r@ == column_name("vol_"@, self.period),
    {
        named("vol_", self.period)
    }

    pub fn compute(&self, bars: &[Bar]) -> (r: Vec<Option<Vec<u32>>>)
        ensures
            r@.len() == bars@.len(),
            forall|i: int|
                0 <= i < bars@.len() ==> is_window(
                    #[trigger] r@[i],
                    volatility_at(closes_of(bars@), self.period as int, i),
                ),
    {
        let closes = closes(bars);
        let n: usize = self.period;
        let mut out: Vec<Option<Vec<u32>>> = Vec::new();
        let mut i: usize = 0;
        while i < closes.len()
            invariant
                i <= closes@.len(),
                closes@ == closes_of(bars@),
                n == self.period,
                out@.len() == i,
                forall|j: int|
                    0 <= j < i ==> is_window(
                        #[trigger] out@[j],
                        volatility_at(closes@, n as int, j),
                    ),
            decreases closes.len() - i,
        {
            if n >= 2 && i >= n {
                let window = copy_range(&closes, i - n, i);
                out.push(Some(window));
            } else {
                out.push(None);
            }
            i += 1;
        }
        out
    }
}

/// The items from `from` through `to`.
fn copy_range(items: &Vec<u32>, from: usize, to: usize) -> (r: Vec<u32>)
    requires
        from <= to < items@.len(),
    ensures
        r@ == items@.subrange(from as int, to + 1),
{
    let mut out: Vec<u32> = Vec::new();
    let n: usize = items.len();
    let mut i: usize = from;
    while i <= to
        invariant
            from <= i <= to + 1 <= n,
            n == items@.len(),
            out@ == items@.subrange(from as int, i as int),
        decreases to + 1 - i,
    {
        out.push(items[i]);
        assert(out@ =~= items@.subrange(from as int, i + 1));
        i += 1;
    }
    out
}

// ---- streaming -------------------------------------------------------------------------

/// Incremental simple moving average: a ring of the last `period` values plus their running sum,
/// adding and subtracting in the same order as [`simple_ma`].
#[derive(Debug)]
pub struct RollingSma {
    period: usize,
    buf: VecDeque<i64>,
    sum: i128,
}

impl RollingSma {
    /// The values held.
    pub closed spec fn window(&self) -> Seq<i64> {
        self.buf@
    }

    pub closed spec fn span(&self) -> int {
        self.period as int
    }

    #[verifier::type_invariant]
    spec fn valid(&self) -> bool {
        &&& self.buf@.len() <= self.period
        &&& self.sum == sum_of(self.buf@)
    }

    /// Whether the average has seen these values and no others.
    pub open spec fn has_seen(&self, values: Seq<i64>) -> bool {
        self.window() == if self.span() == 0 {
            Seq::empty()
        } else {
            values.skip(window_start(values.len() as int, self.span()))
        }
    }

    pub fn new(period: usize) -> (r: Self)
        ensures
            r.span() == period,
            r.has_seen(Seq::empty()),
    {
        let r = RollingSma { period, buf: VecDeque::new(), sum: 0 };
        assert(r.window() =~= Seq::empty());
        assert(Seq::<i64>::empty().skip(0) =~= Seq::empty());
        r
    }

    pub fn push(&mut self, value: i64) -> (r: Option<Average>)
        ensures
            final(self).span() == old(self).span(),
            forall|seen: Seq<i64>| #[trigger]
                old(self).has_seen(seen) ==> final(self).has_seen(seen.push(value)) && r == sma_at(
                    seen.push(value),
                    old(self).span(),
                    seen.len() as int,
                ),
    {
        proof {
            use_type_invariant(&*self);
        }
        let period: usize = self.period;
        if period == 0 {
            return None;
        }
        let ghost before = self.buf@;
        let mut held = RollingSma { period, buf: VecDeque::new(), sum: 0 };
        std::mem::swap(&mut held, self);
        let mut sum: i128 = held.sum;
        let mut buf = held.buf;
        let full = buf.len() == period;
        proof {
            lemma_sum_bounds(before);
            lemma_sum_bounds(before.push(value));
            assert(before.push(value).drop_last() =~= before);
        }
        buf.push_back(value);
        sum = sum + value as i128;
        if full {
            proof {
                lemma_sum_drop_first(before.push(value));
                lemma_sum_bounds(before.push(value).drop_first());
            }
            let oldest = buf.pop_front();
            assert(buf@ =~= before.push(value).drop_first());
            if let Some(oldest) = oldest {
                sum = sum - oldest as i128;
            }
        }
        let warm = buf.len() == period;
        let ghost now = buf@;
        proof {
            assert(now.len() <= period);
            assert(sum == sum_of(now));
        }
        *self = RollingSma { period, buf, sum };
        proof {
            assert forall|seen: Seq<i64>| #[trigger] old(self).has_seen(seen) implies self.has_seen(
                seen.push(value),
            ) && (if warm {
                Some(Average { sum, count: period })
            } else {
                None
            }) == sma_at(seen.push(value), period as int, seen.len() as int) by {
                let all = seen.push(value);
                let n = all.len() as int;
                let from = window_start(n, period as int);
                assert(now =~= all.skip(from));
                if n >= period {
                    assert(all.subrange(n - period, n) =~= now);
                }
            }
        }
        if warm {
            Some(Average { sum, count: period })
        } else {
            None
        }
    }
}

/// Incremental EMA, seeded with the `period`-value SMA at the warm-up boundary exactly like
/// [`exp_ma`].
#[derive(Debug)]
pub struct OnlineEma {
    period: usize,
    seed_sum: i128,
    seed_count: usize,
}

impl OnlineEma {
    pub closed spec fn span(&self) -> int {
        self.period as int
    }

    /// How many values have been counted, at most a period of them, and their sum.
    pub closed spec fn gathered(&self) -> (int, int) {
        (self.seed_count as int, self.seed_sum as int)
    }

    #[verifier::type_invariant]
    spec fn valid(&self) -> bool {
        &&& self.seed_count <= self.period
        &&& -0x8000_0000_0000_0000 * self.seed_count <= self.seed_sum <= 0x7fff_ffff_ffff_ffff
            * self.seed_count
    }

    /// Whether the average has seen these values and no others.
    pub open spec fn has_seen(&self, values: Seq<i64>) -> bool {
        if values.len() <= self.span() {
            self.gathered() == (values.len() as int, sum_of(values))
        } else {
            self.gathered().0 == self.span()
        }
    }

    pub fn new(period: usize) -> (r: Self)
        ensures
            r.span() == period,
            r.has_seen(Seq::empty()),
    {
        OnlineEma { period, seed_sum: 0, seed_count: 0 }
    }

    pub fn push(&mut self, value: i64) -> (r: EmaStep)
        ensures
            final(self).span() == old(self).span(),
            forall|seen: Seq<i64>| #[trigger]
                old(self).has_seen(seen) ==> final(self).has_seen(seen.push(value)) && r == ema_at(
                    seen.push(value),
                    old(self).span(),
                    seen.len() as int,
                ),
    {
        proof {
            use_type_invariant(&*self);
        }
        let period: usize = self.period;
        if period == 0 {
            return EmaStep::Warming;
        }
        if self.seed_count == period {
            return EmaStep::Smooth(value);
        }
        let sum: i128 = self.seed_sum + value as i128;
        let count: usize = self.seed_count + 1;
        *self = OnlineEma { period, seed_sum: sum, seed_count: count };
        proof {
            assert forall|seen: Seq<i64>| #[trigger] old(self).has_seen(seen) implies self.has_seen(
                seen.push(value),
            ) && (if count == period {
                EmaStep::Seed(Average { sum, count: period })
            } else {
                EmaStep::Warming
            }) == ema_at(seen.push(value), period as int, seen.len() as int) by {
                let all = seen.push(value);
                assert(all.drop_last() =~= seen);
                if count == period {
                    assert(all.take(period as int) =~= all);
                }
            }
        }
        if count == period {
            EmaStep::Seed(Average { sum, count: period })
        } else {
            EmaStep::Warming
        }
    }
}

/// Incremental DEMA: `2*EMA - EMA(EMA)`, composing two averages so the outer one consumes the
/// inner's warmed output stream.
#[derive(Debug)]
pub struct OnlineDema {
    inner: OnlineEma,
    period: usize,
    outer_count: usize,
}

impl OnlineDema {
    pub closed spec fn span(&self) -> int {
        self.period as int
    }

    pub closed spec fn inner_has_seen(&self, values: Seq<i64>) -> bool {
        self.inner.has_seen(values)
    }

    /// How many of the inner average's values the outer one has counted, at most a period of them.
    pub closed spec fn counted(&self) -> int {
        self.outer_count as int
    }

    #[verifier::type_invariant]
    spec fn valid(&self) -> bool {
        &&& self.inner.span() == self.period
        &&& self.outer_count <= self.period
    }

    /// Whether the average has seen these values and no others.
    pub open spec fn has_seen(&self, values: Seq<i64>) -> bool {
        &&& self.inner_has_seen(values)
        &&& self.counted() == outer_count(values.len() as int, self.span())
    }

    pub fn new(period: usize) -> (r: Self)
        ensures
            r.span() == period,
            r.has_seen(Seq::empty()),
    {
        OnlineDema { inner: OnlineEma::new(period), period, outer_count: 0 }
    }

    pub fn push(&mut self, value: i64) -> (r: DemaStep)
        ensures
            final(self).span() == old(self).span(),
            forall|seen: Seq<i64>| #[trigger]
                old(self).has_seen(seen) ==> final(self).has_seen(seen.push(value)) && r == dema_at(
                    seen.push(value),
                    old(self).span(),
                    seen.len() as int,
                ),
    {
        proof {
            use_type_invariant(&*self);
        }
        let period: usize = self.period;
        let mut average = OnlineEma::new(period);
        std::mem::swap(&mut average, &mut self.inner);
        let inner = average.push(value);
        let mut counted: usize = self.outer_count;
        let ghost count0 = counted;
        let outer = match inner {
            EmaStep::Warming => OuterStep::Idle,
            _ => if counted == period {
                OuterStep::Smooth
            } else {
                counted = counted + 1;
                if counted == period {
                    OuterStep::Seed
                } else {
                    OuterStep::Gather
                }
            },
        };
        *self = OnlineDema { inner: average, period, outer_count: counted };
        proof {
            assert forall|seen: Seq<i64>| #[trigger] old(self).has_seen(seen) implies self.has_seen(
                seen.push(value),
            ) && (DemaStep { inner, outer }) == dema_at(
                seen.push(value),
                period as int,
                seen.len() as int,
            ) by {
                assert(old(self).inner.has_seen(seen));
                assert(inner == ema_at(seen.push(value), period as int, seen.len() as int));
            }
        }
        DemaStep { inner, outer }
    }
}

/// How many values an outer average has counted after `n` values in all.
pub open spec fn outer_count(n: int, period: int) -> int {
    let k = n - (period - 1);
    if period <= 0 || k <= 0 {
        0
    } else if k < period {
        k
    } else {
        period
    }
}

/// Incremental Wilder RSI, mirroring [`Rsi::compute`]'s seed-then-smooth recurrence.
#[derive(Debug)]
pub struct OnlineRsi {
    period: usize,
    prev_close: Option<u32>,
    deltas: usize,
    gains: u128,
    losses: u128,
}

proof fn lemma_sums_ignore_the_rest(closes: Seq<u32>, close: u32, n: int)
    requires
        n < closes.len(),
    ensures
        gain_sum(closes.push(close), n) == gain_sum(closes, n),
        loss_sum(closes.push(close), n) == loss_sum(closes, n),
    decreases n,
{
    if n > 0 {
        lemma_sums_ignore_the_rest(closes, close, n - 1);
    }
}

impl OnlineRsi {
    pub closed spec fn span(&self) -> int {
        self.period as int
    }

    pub closed spec fn last_close(&self) -> Option<u32> {
        self.prev_close
    }

    /// How many changes have been counted, at most a period of them, and their gains and losses.
    pub closed spec fn gathered(&self) -> (int, int, int) {
        (self.deltas as int, self.gains as int, self.losses as int)
    }

    #[verifier::type_invariant]
    spec fn valid(&self) -> bool {
        &&& self.deltas <= self.period
        &&& self.gains <= 0xffff_ffff * self.deltas
        &&& self.losses <= 0xffff_ffff * self.deltas
    }

    /// Whether the index has seen these closes and no others.
    pub open spec fn has_seen(&self, closes: Seq<u32>) -> bool {
        if self.span() == 0 {
            true
        } else if closes.len() == 0 {
            self.last_close() is None && self.gathered() == (0int, 0int, 0int)
        } else {
            let n = closes.len() - 1;
            &&& self.last_close() == Some(closes.last())
            &&& if n <= self.span() {
                self.gathered() == (n, gain_sum(closes, n), loss_sum(closes, n))
            } else {
                self.gathered().0 == self.span()
            }
        }
    }

    pub fn new(period: usize) -> (r: Self)
        ensures
            r.span() == period,
            r.has_seen(Seq::empty()),
    {
        OnlineRsi { period, prev_close: None, deltas: 0, gains: 0, losses: 0 }
    }

    pub fn push(&mut self, close: u32) -> (r: RsiStep)
        ensures
            final(self).span() == old(self).span(),
            forall|seen: Seq<u32>| #[trigger]
                old(self).has_seen(seen) ==> final(self).has_seen(seen.push(close)) && r == rsi_at(
                    seen.push(close),
                    old(self).span(),
                    seen.len() as int,
                ),
    {
        proof {
            use_type_invariant(&*self);
        }
        let period: usize = self.period;
        if period == 0 {
            return RsiStep::Warming;
        }
        let prev: u32 = match self.prev_close {
            Some(prev) => prev,
            None => {
                self.prev_close = Some(close);
                assert forall|seen: Seq<u32>| #[trigger] old(self).has_seen(
                    seen,
                ) implies self.has_seen(seen.push(close)) && RsiStep::Warming == rsi_at(
                    seen.push(close),
                    period as int,
                    seen.len() as int,
                ) by {
                    assert(seen.len() == 0);
                }
                return RsiStep::Warming;
            },
        };
        let (gain, loss) = gain_loss(prev, close);
        let seeded = self.deltas == period;
        let deltas: usize = if seeded {
            self.deltas
        } else {
            self.deltas + 1
        };
        let gains: u128 = if seeded {
            self.gains
        } else {
            self.gains + gain as u128
        };
        let losses: u128 = if seeded {
            self.losses
        } else {
            self.losses + loss as u128
        };
        *self = OnlineRsi { period, prev_close: Some(close), deltas, gains, losses };
        let step = if seeded {
            RsiStep::Smooth { gain, loss }
        } else if deltas == period {
            RsiStep::Seed { gains, losses, count: period }
        } else {
            RsiStep::Warming
        };
        proof {
            assert forall|seen: Seq<u32>| #[trigger] old(self).has_seen(seen) implies self.has_seen(
                seen.push(close),
            ) && step == rsi_at(seen.push(close), period as int, seen.len() as int) by {
                let all = seen.push(close);
                let n = seen.len() as int;
                assert(n > 0);
                assert(all[n] == close && all[n - 1] == prev);
                if n - 1 <= period {
                    lemma_sums_ignore_the_rest(seen, close, n - 1);
                }
            }
        }
        step
    }
}

/// Incremental bar-to-bar return.
#[derive(Debug)]
pub struct OnlineReturns {
    prev_close: Option<u32>,
}

impl OnlineReturns {
    pub closed spec fn last_close(&self) -> Option<u32> {
        self.prev_close
    }

    /// Whether these closes and no others have been seen.
    pub open spec fn has_seen(&self, closes: Seq<u32>) -> bool {
        self.last_close() == if closes.len() == 0 {
            None
        } else {
            Some(closes.last())
        }
    }

    pub fn new() -> (r: Self)
        ensures
            r.has_seen(Seq::empty()),
    {
        OnlineReturns { prev_close: None }
    }

    pub fn push(&mut self, close: u32) -> (r: Option<ReturnPair>)
        ensures
            forall|seen: Seq<u32>| #[trigger]
                old(self).has_seen(seen) ==> final(self).has_seen(seen.push(close)) && r
                    == return_at(seen.push(close), seen.len() as int),
    {
        let out = match self.prev_close {
            Some(prev) => Some(ReturnPair { prev, cur: close }),
            None => None,
        };
        self.prev_close = Some(close);
        out
    }
}

/// Incremental rolling realized volatility: keeps the closes of the last `period` bars.
#[derive(Debug)]
pub struct OnlineVolatility {
    period: usize,
    window: VecDeque<u32>,
}

impl OnlineVolatility {
    pub closed spec fn span(&self) -> int {
        self.period as int
    }

    pub closed spec fn held(&self) -> Seq<u32> {
        self.window@
    }

    #[verifier::type_invariant]
    spec fn valid(&self) -> bool {
        self.window@.len() <= self.period
    }

    /// Whether these closes and no others have been seen.
    pub open spec fn has_seen(&self, closes: Seq<u32>) -> bool {
        self.held() == closes.skip(window_start(closes.len() as int, self.span()))
    }

    pub fn new(period: usize) -> (r: Self)
        ensures
            r.span() == period,
            r.has_seen(Seq::empty()),
    {
        let r = OnlineVolatility { period, window: VecDeque::new() };
        assert(Seq::<u32>::empty().skip(0) =~= r.held());
        r
    }

    /// The closes to take the volatility over, once there are enough.
    pub fn push(&mut self, close: u32) -> (r: Option<Vec<u32>>)
        ensures
            final(self).span() == old(self).span(),
            forall|seen: Seq<u32>| #[trigger]
                old(self).has_seen(seen) ==> final(self).has_seen(seen.push(close)) && is_window(
                    r,
                    volatility_at(seen.push(close), old(self).span(), seen.len() as int),
                ),
    {
        proof {
            use_type_invariant(&*self);
        }
        let period: usize = self.period;
        let mut taken = OnlineVolatility { period, window: VecDeque::new() };
        std::mem::swap(&mut taken, self);
        let mut window = taken.window;
        let ghost before = window@;
        let full = window.len() == period;
        let out: Option<Vec<u32>> = if full && period >= 2 {
            let mut closes: Vec<u32> = Vec::new();
            let n: usize = window.len();
            let mut i: usize = 0;
            while i < n
                invariant
                    i <= n,
                    n == window@.len(),
                    window@ == before,
                    closes@ == before.take(i as int),
                decreases n - i,
            {
                closes.push(window[i]);
                assert(closes@ =~= before.take(i + 1));
                i += 1;
            }
            closes.push(close);
            assert(closes@ =~= before.push(close));
            Some(closes)
        } else {
            None
        };
        window.push_back(close);
        if full {
            let _ = window.pop_front();
            assert(window@ =~= before.push(close).drop_first());
        }
        let ghost now = window@;
        *self = OnlineVolatility { period, window };
        proof {
            assert forall|seen: Seq<u32>| #[trigger] old(self).has_seen(seen) implies self.has_seen(
                seen.push(close),
            ) && is_window(
                out,
                volatility_at(seen.push(close), period as int, seen.len() as int),
            ) by {
                let all = seen.push(close);
                let i = seen.len() as int;
                assert(now =~= all.skip(window_start(i + 1, period as int)));
                if period >= 2 && i >= period {
                    assert(before.push(close) =~= all.subrange(i - period, i + 1));
                }
            }
        }
        out
    }
}

// ---- specs -----------------------------------------------------------------------------

/// A built-in indicator.
#[derive(Debug, Clone, Copy, PartialEq, Eq, Structural)]
pub enum BuiltIn {
    Sma(Sma),
    Ema(Ema),
    Dema(Dema),
    VolumeSma(VolumeSma),
    VolumeEma(VolumeEma),
    VolumeDema(VolumeDema),
    Rsi(Rsi),
    Volatility(Volatility),
    Returns(Returns),
}

impl BuiltIn {
    pub open spec fn column(self) -> Seq<char> {
        match self {
            BuiltIn::Sma(i) => column_name("sma_"@, i.period),
            BuiltIn::Ema(i) => column_name("ema_"@, i.period),
            BuiltIn::Dema(i) => column_name("dema_"@, i.period),
            BuiltIn::VolumeSma(i) => column_name("vsma_"@, i.period),
            BuiltIn::VolumeEma(i) => column_name("vema_"@, i.period),
            BuiltIn::VolumeDema(i) => column_name("vdema_"@, i.period),
            BuiltIn::Rsi(i) => column_name("rsi_"@, i.period),
            BuiltIn::Volatility(i) => column_name("vol_"@, i.period),
            BuiltIn::Returns(i) => match i.method {
                ReturnMethod::Log => "ret_log"@,
                ReturnMethod::Simple => "ret_simple"@,
            },
        }
    }

    /// The name of the indicator's column.
    pub fn name(&self) -> (r: String)
        ensures
            r@ == self.column(),
    {
        match self {
            BuiltIn::Sma(i) => i.name(),
            BuiltIn::Ema(i) => i.name(),
            BuiltIn::Dema(i) => i.name(),
            BuiltIn::VolumeSma(i) => i.name(),
            BuiltIn::VolumeEma(i) => i.name(),
            BuiltIn::VolumeDema(i) => i.name(),
            BuiltIn::Rsi(i) => i.name(),
            BuiltIn::Volatility(i) => i.name(),
            BuiltIn::Returns(i) => i.name(),
        }
    }

    pub open spec fn precision(self) -> u8 {
        match self {
            BuiltIn::Sma(_) | BuiltIn::Ema(_) | BuiltIn::Dema(_) | BuiltIn::Rsi(_) => 4,
            BuiltIn::VolumeSma(_) | BuiltIn::VolumeEma(_) | BuiltIn::VolumeDema(_) => 0,
            BuiltIn::Volatility(_) | BuiltIn::Returns(_) => 8,
        }
    }

    /// Fixed-point decimal precision used when storing/rendering this column. Price-level
    /// indicators keep 4, volumes none; small-magnitude ones use 8.
    pub fn decimals(&self) -> (r: u8)
        ensures
            r == self.precision(),
    {
        match self {
            BuiltIn::Sma(_) | BuiltIn::Ema(_) | BuiltIn::Dema(_) | BuiltIn::Rsi(_) => 4,
            BuiltIn::VolumeSma(_) | BuiltIn::VolumeEma(_) | BuiltIn::VolumeDema(_) => 0,
            BuiltIn::Volatility(_) | BuiltIn::Returns(_) => 8,
        }
    }
}

/// Why a spec is refused.
#[derive(Debug, Clone, Copy, PartialEq, Eq, Structural)]
pub enum SpecError {
    /// The period is not an integer.
    NotInteger,
    /// The period is zero.
    ZeroPeriod,
    /// A return is neither `log` nor `simple`.
    BadMethod,
}

/// Where the first colon of a token stands.
pub open spec fn first_colon(token: Seq<char>) -> Option<int>
    decreases token.len(),
{
    if token.len() == 0 {
        None
    } else {
        match first_colon(token.drop_last()) {
            Some(i) => Some(i),
            None => if token.last() == ':' {
                Some(token.len() - 1)
            } else {
                None
            },
        }
    }
}

pub open spec fn is_kind(kind: Seq<char>) -> bool {
    ||| kind == "sma"@
    ||| kind == "ema"@
    ||| kind == "dema"@
    ||| kind == "vsma"@
    ||| kind == "vema"@
    ||| kind == "vdema"@
    ||| kind == "rsi"@
    ||| kind == "vol"@
    ||| kind == "ret"@
}

/// A token split at its first colon, when what stands before it is a known indicator.
pub open spec fn spec_split(token: Seq<char>) -> Option<(Seq<char>, Seq<char>)> {
    match first_colon(token) {
        None => None,
        Some(i) => if is_kind(token.take(i)) {
            Some((token.take(i), token.skip(i + 1)))
        } else {
            None
        },
    }
}

/// A period: a positive integer, with or without a plus sign.
pub open spec fn period_of(arg: Seq<char>) -> Result<usize, SpecError> {
    let digits = if arg.len() > 0 && arg[0] == '+' {
        arg.drop_first()
    } else {
        arg
    };
    if digits.len() == 0 || !crate::text::all_digits(digits) || crate::text::decimal_value(digits)
        > usize::MAX {
        Err(SpecError::NotInteger)
    } else if crate::text::decimal_value(digits) == 0 {
        Err(SpecError::ZeroPeriod)
    } else {
        Ok(crate::text::decimal_value(digits) as usize)
    }
}

/// The indicator of a kind with an argument.
pub open spec fn indicator_of(kind: Seq<char>, arg: Seq<char>) -> Result<BuiltIn, SpecError> {
    if kind == "ret"@ {
        match ReturnMethod::named(arg) {
            Some(method) => Ok(BuiltIn::Returns(Returns { method })),
            None => Err(SpecError::BadMethod),
        }
    } else {
        match period_of(arg) {
            Err(e) => Err(e),
            Ok(period) => Ok(
                if kind == "sma"@ {
                    BuiltIn::Sma(Sma { period })
                } else if kind == "ema"@ {
                    BuiltIn::Ema(Ema { period })
                } else if kind == "dema"@ {
                    BuiltIn::Dema(Dema { period })
                } else if kind == "vsma"@ {
                    BuiltIn::VolumeSma(VolumeSma { period })
                } else if kind == "vema"@ {
                    BuiltIn::VolumeEma(VolumeEma { period })
                } else if kind == "vdema"@ {
                    BuiltIn::VolumeDema(VolumeDema { period })
                } else if kind == "rsi"@ {
                    BuiltIn::Rsi(Rsi { period })
                } else {
                    BuiltIn::Volatility(Volatility { period })
                },
            ),
        }
    }
}

/// What a token means: `None` when it is not spec-shaped.
pub open spec fn spec_meaning(token: Seq<char>) -> Option<Result<BuiltIn, SpecError>> {
    match spec_split(token) {
        None => None,
        Some((kind, arg)) => Some(indicator_of(kind, arg)),
    }
}

proof fn lemma_first_colon(token: Seq<char>, i: int)
    requires
        0 <= i <= token.len(),
        forall|j: int| 0 <= j < i ==> token[j] != ':',
    ensures
        i == token.len() ==> first_colon(token) is None,
        i < token.len() && token[i] == ':' ==> first_colon(token) == Some(i),
    decreases token.len(),
{
    if token.len() > 0 {
        let init = token.drop_last();
        if i == token.len() {
            lemma_first_colon(init, i - 1);
        } else if i < token.len() - 1 {
            lemma_first_colon(init, i);
        } else {
            lemma_first_colon(init, i);
        }
    }
}

/// Splits a spec token into `(kind, arg)` when its prefix is a known indicator, so paths that
/// contain a colon (e.g. a Windows drive letter `C:\...`) fall through to path tokens.
fn indicator_spec(token: &str) -> (r: Option<(String, String)>)
    ensures
        match spec_split(token@) {
            None => r is None,
            Some((kind, arg)) => r matches Some((k, a)) && k@ == kind && a@ == arg,
        },
{
    let chars = chars_of(token);
    let mut i: usize = 0;
    while i < chars.len() && chars[i] != ':'
        invariant
            i <= chars.len(),
            chars@ == token@,
            forall|j: int| 0 <= j < i ==> token@[j] != ':',
        decreases chars.len() - i,
    {
        i += 1;
    }
    proof {
        lemma_first_colon(token@, i as int);
    }
    if i == chars.len() {
        return None;
    }
    let kind = text_of(vstd::slice::slice_subrange(chars.as_slice(), 0, i));
    let arg = text_of(vstd::slice::slice_subrange(chars.as_slice(), i + 1, chars.len()));
    assert(kind@ =~= token@.take(i as int));
    assert(arg@ =~= token@.skip(i + 1));
    let known = same(kind.as_str(), "sma") || same(kind.as_str(), "ema") || same(
        kind.as_str(),
        "dema",
    ) || same(kind.as_str(), "vsma") || same(kind.as_str(), "vema") || same(kind.as_str(), "vdema")
        || same(kind.as_str(), "rsi") || same(kind.as_str(), "vol") || same(kind.as_str(), "ret");
    if known {
        Some((kind, arg))
    } else {
        None
    }
}

/// Reads a period.
pub fn parse_period(arg: &str) -> (r: Result<usize, SpecError>)
    ensures
        r == period_of(arg@),
{
    let chars = chars_of(arg);
    let from: usize = if chars.len() > 0 && chars[0] == '+' {
        1
    } else {
        0
    };
    let digits = vstd::slice::slice_subrange(chars.as_slice(), from, chars.len());
    proof {
        if from == 1 {
            assert(digits@ =~= arg@.drop_first());
        } else {
            assert(digits@ =~= arg@);
        }
    }
    match from_decimal(digits) {
        None => Err(SpecError::NotInteger),
        Some(n) => if n > usize::MAX as u64 {
            Err(SpecError::NotInteger)
        } else if n == 0 {
            Err(SpecError::ZeroPeriod)
        } else {
            Ok(n as usize)
        },
    }
}

/// Reads the method of a return.
pub fn parse_ret_method(arg: &str) -> (r: Result<ReturnMethod, SpecError>)
    ensures
        match ReturnMethod::named(arg@) {
            Some(method) => r == Ok::<ReturnMethod, SpecError>(method),
            None => r == Err::<ReturnMethod, SpecError>(SpecError::BadMethod),
        },
{
    match ReturnMethod::from_token(arg) {
        Some(method) => Ok(method),
        None => Err(SpecError::BadMethod),
    }
}

/// Parses a spec token (`sma:20`, `ret:log`, `vol:20`, ...) into a built-in indicator.
///
/// Returns `None` when the token is not spec-shaped (so a classifier can treat it as a path/format
/// token), `Some(Err)` when it is spec-shaped but invalid.
pub fn parse_spec(token: &str) -> (r: Option<Result<BuiltIn, SpecError>>)
    ensures
        r == spec_meaning(token@),
{
    let (kind, arg) = match indicator_spec(token) {
        Some(split) => split,
        None => return None,
    };
    let kind = kind.as_str();
    if same(kind, "ret") {
        return match parse_ret_method(arg.as_str()) {
            Ok(method) => Some(Ok(BuiltIn::Returns(Returns { method }))),
            Err(e) => Some(Err(e)),
        };
    }
    let period: usize = match parse_period(arg.as_str()) {
        Ok(period) => period,
        Err(e) => return Some(Err(e)),
    };
    Some(
        Ok(
            if same(kind, "sma") {
                BuiltIn::Sma(Sma { period })
            } else if same(kind, "ema") {
                BuiltIn::Ema(Ema { period })
            } else if same(kind, "dema") {
                BuiltIn::Dema(Dema { period })
            } else if same(kind, "vsma") {
                BuiltIn::VolumeSma(VolumeSma { period })
            } else if same(kind, "vema") {
                BuiltIn::VolumeEma(VolumeEma { period })
            } else if same(kind, "vdema") {
                BuiltIn::VolumeDema(VolumeDema { period })
            } else if same(kind, "rsi") {
                BuiltIn::Rsi(Rsi { period })
            } else {
                BuiltIn::Volatility(Volatility { period })
            },
        ),
    )
}

/// The engine backing one streaming column.
#[derive(Debug)]
pub enum StreamKind {
    Sma(Source, RollingSma),
    Ema(Source, OnlineEma),
    Dema(Source, OnlineDema),
    Rsi(OnlineRsi),
    Ret(OnlineReturns),
    Vol(OnlineVolatility),
}

/// One cell of a streaming column.
#[derive(Debug)]
pub enum Cell {
    Average(Option<Average>),
    Ema(EmaStep),
    Dema(DemaStep),
    Rsi(RsiStep),
    Return(Option<ReturnPair>),
    Volatility(Option<Vec<u32>>),
}

/// A built-in indicator in incremental form, carrying the same name and precision as its batch
/// counterpart: fed one bar at a time, it gives that bar's cell. This lets `calc` render row-by-row
/// without buffering the whole bar series.
#[derive(Debug)]
pub struct BuiltinStream {
    indicator: BuiltIn,
    kind: StreamKind,
}

/// Whether a cell is the one that an indicator's batch form has at bar `i`.
pub open spec fn is_cell(cell: Cell, indicator: BuiltIn, bars: Seq<Bar>, i: int) -> bool {
    match (indicator, cell) {
        (BuiltIn::Sma(x), Cell::Average(c)) => c == sma_at(
            values_of(Source::Close, bars),
            x.period as int,
            i,
        ),
        (BuiltIn::VolumeSma(x), Cell::Average(c)) => c == sma_at(
            values_of(Source::Volume, bars),
            x.period as int,
            i,
        ),
        (BuiltIn::Ema(x), Cell::Ema(c)) => c == ema_at(
            values_of(Source::Close, bars),
            x.period as int,
            i,
        ),
        (BuiltIn::VolumeEma(x), Cell::Ema(c)) => c == ema_at(
            values_of(Source::Volume, bars),
            x.period as int,
            i,
        ),
        (BuiltIn::Dema(x), Cell::Dema(c)) => c == dema_at(
            values_of(Source::Close, bars),
            x.period as int,
            i,
        ),
        (BuiltIn::VolumeDema(x), Cell::Dema(c)) => c == dema_at(
            values_of(Source::Volume, bars),
            x.period as int,
            i,
        ),
        (BuiltIn::Rsi(x), Cell::Rsi(c)) => c == rsi_at(closes_of(bars), x.period as int, i),
        (BuiltIn::Returns(_), Cell::Return(c)) => c == return_at(closes_of(bars), i),
        (BuiltIn::Volatility(x), Cell::Volatility(c)) => is_window(
            c,
            volatility_at(closes_of(bars), x.period as int, i),
        ),
        _ => false,
    }
}

impl BuiltinStream {
    pub closed spec fn of(&self) -> BuiltIn {
        self.indicator
    }

    /// Whether the engine is the indicator's own.
    pub closed spec fn valid(&self) -> bool {
        match (self.indicator, self.kind) {
            (BuiltIn::Sma(x), StreamKind::Sma(source, state)) => source is Close && state.span()
                == x.period,
            (BuiltIn::VolumeSma(x), StreamKind::Sma(source, state)) => source is Volume
                && state.span() == x.period,
            (BuiltIn::Ema(x), StreamKind::Ema(source, state)) => source is Close && state.span()
                == x.period,
            (BuiltIn::VolumeEma(x), StreamKind::Ema(source, state)) => source is Volume
                && state.span() == x.period,
            (BuiltIn::Dema(x), StreamKind::Dema(source, state)) => source is Close
                && state.span() == x.period,
            (BuiltIn::VolumeDema(x), StreamKind::Dema(source, state)) => source is Volume
                && state.span() == x.period,
            (BuiltIn::Rsi(x), StreamKind::Rsi(state)) => state.span() == x.period,
            (BuiltIn::Returns(_), StreamKind::Ret(_)) => true,
            (BuiltIn::Volatility(x), StreamKind::Vol(state)) => state.span() == x.period,
            _ => false,
        }
    }

    /// Whether the column has been fed these bars and no others.
    pub closed spec fn has_seen(&self, bars: Seq<Bar>) -> bool {
        match self.kind {
            StreamKind::Sma(source, state) => state.has_seen(values_of(source, bars)),
            StreamKind::Ema(source, state) => state.has_seen(values_of(source, bars)),
            StreamKind::Dema(source, state) => state.has_seen(values_of(source, bars)),
            StreamKind::Rsi(state) => state.has_seen(closes_of(bars)),
            StreamKind::Ret(state) => state.has_seen(closes_of(bars)),
            StreamKind::Vol(state) => state.has_seen(closes_of(bars)),
        }
    }

    /// The incremental form of an indicator.
    pub fn new(indicator: BuiltIn) -> (r: Self)
        ensures
            r.valid(),
            r.of() == indicator,
            r.has_seen(Seq::empty()),
    {
        proof {
            assert(values_of(Source::Close, Seq::empty()) =~= Seq::empty());
            assert(values_of(Source::Volume, Seq::empty()) =~= Seq::empty());
            assert(closes_of(Seq::empty()) =~= Seq::empty());
        }
        let kind = match indicator {
            BuiltIn::Sma(x) => StreamKind::Sma(Source::Close, RollingSma::new(x.period)),
            BuiltIn::VolumeSma(x) => StreamKind::Sma(Source::Volume, RollingSma::new(x.period)),
            BuiltIn::Ema(x) => StreamKind::Ema(Source::Close, OnlineEma::new(x.period)),
            BuiltIn::VolumeEma(x) => StreamKind::Ema(Source::Volume, OnlineEma::new(x.period)),
            BuiltIn::Dema(x) => StreamKind::Dema(Source::Close, OnlineDema::new(x.period)),
            BuiltIn::VolumeDema(x) => StreamKind::Dema(Source::Volume, OnlineDema::new(x.period)),
            BuiltIn::Rsi(x) => StreamKind::Rsi(OnlineRsi::new(x.period)),
            BuiltIn::Returns(_) => StreamKind::Ret(OnlineReturns::new()),
            BuiltIn::Volatility(x) => StreamKind::Vol(OnlineVolatility::new(x.period)),
        };
        BuiltinStream { indicator, kind }
    }

    pub fn name(&self) -> (r: String)
        ensures
            r@ == self.of().column(),
    {
        self.indicator.name()
    }

    pub fn decimals(&self) -> (r: u8)
        ensures
            r == self.of().precision(),
    {
        self.indicator.decimals()
    }

    /// The indicator that the column shows.
    pub fn indicator(&self) -> (r: BuiltIn)
        ensures
            r == self.of(),
    {
        self.indicator
    }

    /// Consumes the next bar and gives its cell: the same that the batch form has for it.
    pub fn update(&mut self, bar: &Bar) -> (r: Cell)
        requires
            old(self).valid(),
        ensures
            final(self).valid(),
            final(self).of() == old(self).of(),
            forall|seen: Seq<Bar>| #[trigger]
                old(self).has_seen(seen) ==> final(self).has_seen(seen.push(*bar)) && is_cell(
                    r,
                    old(self).of(),
                    seen.push(*bar),
                    seen.len() as int,
                ),
    {
        proof {
            assert forall|source: Source, seen: Seq<Bar>| #[trigger]
                values_of(source, seen.push(*bar)) == values_of(source, seen).push(
                    source.of(*bar),
                ) by {
                assert(values_of(source, seen.push(*bar)) =~= values_of(source, seen).push(
                    source.of(*bar),
                ));
            }
            assert forall|seen: Seq<Bar>| #[trigger] closes_of(seen.push(*bar)) == closes_of(
                seen,
            ).push(bar.close) by {
                assert(closes_of(seen.push(*bar)) =~= closes_of(seen).push(bar.close));
            }
        }
        match &mut self.kind {
            StreamKind::Sma(source, state) => Cell::Average(state.push(source.value(bar))),
            StreamKind::Ema(source, state) => Cell::Ema(state.push(source.value(bar))),
            StreamKind::Dema(source, state) => Cell::Dema(state.push(source.value(bar))),
            StreamKind::Rsi(state) => Cell::Rsi(state.push(bar.close)),
            StreamKind::Ret(state) => Cell::Return(state.push(bar.close)),
            StreamKind::Vol(state) => Cell::Volatility(state.push(bar.close)),
        }
    }
}

/// Parses a spec token into its incremental form (the twin of [`parse_spec`]).
pub fn parse_streaming_spec(token: &str) -> (r: Option<Result<BuiltinStream, SpecError>>)
    ensures
        match spec_meaning(token@) {
            None => r is None,
            Some(Err(e)) => r == Some(Err::<BuiltinStream, SpecError>(e)),
            Some(Ok(indicator)) => r matches Some(Ok(stream)) && stream.of() == indicator
                && stream.valid() && stream.has_seen(Seq::empty()),
        },
{
    match parse_spec(token) {
        None => None,
        Some(Err(e)) => Some(Err(e)),
        Some(Ok(indicator)) => Some(Ok(BuiltinStream::new(indicator))),
    }
}

/// Whether a cell has a value: it is past its indicator's warm-up.
pub open spec fn has_value(cell: Cell) -> bool {
    match cell {
        Cell::Average(c) => c is Some,
        Cell::Ema(c) => !(c is Warming),
        Cell::Dema(c) => c.outer is Seed || c.outer is Smooth,
        Cell::Rsi(c) => !(c is Warming),
        Cell::Return(c) => c is Some,
        Cell::Volatility(c) => c is Some,
    }
}

/// The first bar with a value: a simple or exponential average needs a period of bars, a double one
/// two of them less two bars more, a strength index and a volatility one bar more than a period. A
/// volatility over a single return never has one.
pub open spec fn first_value(indicator: BuiltIn) -> Option<int> {
    match indicator {
        BuiltIn::Sma(x) => warm(x.period as int, x.period - 1),
        BuiltIn::VolumeSma(x) => warm(x.period as int, x.period - 1),
        BuiltIn::Ema(x) => warm(x.period as int, x.period - 1),
        BuiltIn::VolumeEma(x) => warm(x.period as int, x.period - 1),
        BuiltIn::Dema(x) => warm(x.period as int, 2 * (x.period - 1)),
        BuiltIn::VolumeDema(x) => warm(x.period as int, 2 * (x.period - 1)),
        BuiltIn::Rsi(x) => warm(x.period as int, x.period as int),
        BuiltIn::Returns(_) => Some(1),
        BuiltIn::Volatility(x) => warm(x.period - 1, x.period as int),
    }
}

pub open spec fn warm(periods: int, first: int) -> Option<int> {
    if periods > 0 {
        Some(first)
    } else {
        None
    }
}

/// Every indicator warms up once and then has a value at every bar.
pub proof fn warm_up_is_a_prefix(cell: Cell, indicator: BuiltIn, bars: Seq<Bar>, i: int)
    requires
        0 <= i < bars.len(),
        is_cell(cell, indicator, bars, i),
    ensures
        has_value(cell) <==> (first_value(indicator) is Some && i >= first_value(indicator)->0),
{
}

// ---- a table of columns ------------------------------------------------------------------

fn average_cells(steps: &Vec<Option<Average>>) -> (r: Vec<Cell>)
    ensures
        r@.len() == steps@.len(),
        forall|i: int| 0 <= i < steps@.len() ==> #[trigger] r@[i] == Cell::Average(steps@[i]),
{
    let mut out: Vec<Cell> = Vec::new();
    let mut i: usize = 0;
    while i < steps.len()
        invariant
            i <= steps.len(),
            out@.len() == i,
            forall|j: int| 0 <= j < i ==> #[trigger] out@[j] == Cell::Average(steps@[j]),
        decreases steps.len() - i,
    {
        out.push(Cell::Average(steps[i]));
        i += 1;
    }
    out
}

fn ema_cells(steps: &Vec<EmaStep>) -> (r: Vec<Cell>)
    ensures
        r@.len() == steps@.len(),
        forall|i: int| 0 <= i < steps@.len() ==> #[trigger] r@[i] == Cell::Ema(steps@[i]),
{
    let mut out: Vec<Cell> = Vec::new();
    let mut i: usize = 0;
    while i < steps.len()
        invariant
            i <= steps.len(),
            out@.len() == i,
            forall|j: int| 0 <= j < i ==> #[trigger] out@[j] == Cell::Ema(steps@[j]),
        decreases steps.len() - i,
    {
        out.push(Cell::Ema(steps[i]));
        i += 1;
    }
    out
}

fn dema_cells(steps: &Vec<DemaStep>) -> (r: Vec<Cell>)
    ensures
        r@.len() == steps@.len(),
        forall|i: int| 0 <= i < steps@.len() ==> #[trigger] r@[i] == Cell::Dema(steps@[i]),
{
    let mut out: Vec<Cell> = Vec::new();
    let mut i: usize = 0;
    while i < steps.len()
        invariant
            i <= steps.len(),
            out@.len() == i,
            forall|j: int| 0 <= j < i ==> #[trigger] out@[j] == Cell::Dema(steps@[j]),
        decreases steps.len() - i,
    {
        out.push(Cell::Dema(steps[i]));
        i += 1;
    }
    out
}

fn rsi_cells(steps: &Vec<RsiStep>) -> (r: Vec<Cell>)
    ensures
        r@.len() == steps@.len(),
        forall|i: int| 0 <= i < steps@.len() ==> #[trigger] r@[i] == Cell::Rsi(steps@[i]),
{
    let mut out: Vec<Cell> = Vec::new();
    let mut i: usize = 0;
    while i < steps.len()
        invariant
            i <= steps.len(),
            out@.len() == i,
            forall|j: int| 0 <= j < i ==> #[trigger] out@[j] == Cell::Rsi(steps@[j]),
        decreases steps.len() - i,
    {
        out.push(Cell::Rsi(steps[i]));
        i += 1;
    }
    out
}

fn return_cells(steps: &Vec<Option<ReturnPair>>) -> (r: Vec<Cell>)
    ensures
        r@.len() == steps@.len(),
        forall|i: int| 0 <= i < steps@.len() ==> #[trigger] r@[i] == Cell::Return(steps@[i]),
{
    let mut out: Vec<Cell> = Vec::new();
    let mut i: usize = 0;
    while i < steps.len()
        invariant
            i <= steps.len(),
            out@.len() == i,
            forall|j: int| 0 <= j < i ==> #[trigger] out@[j] == Cell::Return(steps@[j]),
        decreases steps.len() - i,
    {
        out.push(Cell::Return(steps[i]));
        i += 1;
    }
    out
}

fn window_cells(steps: Vec<Option<Vec<u32>>>) -> (r: Vec<Cell>)
    ensures
        r@.len() == steps@.len(),
        forall|i: int| 0 <= i < steps@.len() ==> #[trigger] r@[i] == Cell::Volatility(steps@[i]),
{
    let mut left = steps;
    let ghost all = left@;
    let mut back: Vec<Cell> = Vec::new();
    while left.len() > 0
        invariant
            left@.len() + back@.len() == all.len(),
            left@ == all.take(left@.len() as int),
            forall|j: int|
                0 <= j < back@.len() ==> #[trigger] back@[j] == Cell::Volatility(
                    all[all.len() - 1 - j],
                ),
        decreases left@.len(),
    {
        let step = left.pop().unwrap();
        back.push(Cell::Volatility(step));
    }
    let mut out: Vec<Cell> = Vec::new();
    let ghost n = back@.len();
    let ghost whole = back@;
    while back.len() > 0
        invariant
            out@.len() + back@.len() == n,
            n == whole.len(),
            back@ == whole.take(back@.len() as int),
            forall|j: int| 0 <= j < out@.len() ==> #[trigger] out@[j] == whole[n - 1 - j],
        decreases back@.len(),
    {
        let cell = back.pop().unwrap();
        out.push(cell);
    }
    assert forall|i: int| 0 <= i < all.len() implies #[trigger] out@[i] == Cell::Volatility(
        all[i],
    ) by {
        assert(out@[i] == whole[n - 1 - i]);
    }
    out
}

impl BuiltIn {
    /// The indicator's cell for every bar.
    pub fn compute(&self, bars: &[Bar]) -> (r: Vec<Cell>)
        ensures
            r@.len() == bars@.len(),
            forall|i: int| 0 <= i < bars@.len() ==> is_cell(#[trigger] r@[i], *self, bars@, i),
    {
        match self {
            BuiltIn::Sma(x) => average_cells(&x.compute(bars)),
            BuiltIn::Ema(x) => ema_cells(&x.compute(bars)),
            BuiltIn::Dema(x) => dema_cells(&x.compute(bars)),
            BuiltIn::VolumeSma(x) => average_cells(&x.compute(bars)),
            BuiltIn::VolumeEma(x) => ema_cells(&x.compute(bars)),
            BuiltIn::VolumeDema(x) => dema_cells(&x.compute(bars)),
            BuiltIn::Rsi(x) => rsi_cells(&x.compute(bars)),
            BuiltIn::Volatility(x) => window_cells(x.compute(bars)),
            BuiltIn::Returns(x) => return_cells(&x.compute(bars)),
        }
    }
}

/// A column of cells aligned to the input bars.
#[derive(Debug)]
pub struct CalcColumn {
    pub name: String,
    pub values: Vec<Cell>,
    /// Fixed-point precision used to store/render this column.
    pub decimals: u8,
}

/// The result of running a [`Calc`].
#[derive(Debug)]
pub struct CalcOutput<'a> {
    pub bars: &'a [Bar],
    pub columns: Vec<CalcColumn>,
}

/// Whether a column is an indicator's over a bar series.
pub open spec fn is_column(column: CalcColumn, indicator: BuiltIn, bars: Seq<Bar>) -> bool {
    &&& column.name@ == indicator.column()
    &&& column.decimals == indicator.precision()
    &&& column.values@.len() == bars.len()
    &&& forall|i: int|
        0 <= i < bars.len() ==> is_cell(#[trigger] column.values@[i], indicator, bars, i)
}

/// Builder/runner for per-bar indicator columns over a bar series.
#[derive(Debug)]
pub struct Calc<'a> {
    bars: &'a [Bar],
    indicators: Vec<BuiltIn>,
}

impl<'a> Calc<'a> {
    pub closed spec fn over(&self) -> Seq<Bar> {
        self.bars@
    }

    pub closed spec fn added(&self) -> Seq<BuiltIn> {
        self.indicators@
    }

    pub fn new(bars: &'a [Bar]) -> (r: Self)
        ensures
            r.over() == bars@,
            r.added() == Seq::<BuiltIn>::empty(),
    {
        Calc { bars, indicators: Vec::new() }
    }

    /// Adds an indicator (e.g. one produced by [`parse_spec`]).
    pub fn with(self, indicator: BuiltIn) -> (r: Self)
        ensures
            r.over() == self.over(),
            r.added() == self.added().push(indicator),
    {
        let mut indicators = self.indicators;
        indicators.push(indicator);
        Calc { bars: self.bars, indicators }
    }

    /// Runs every indicator and returns one aligned column per indicator.
    pub fn run(&self) -> (r: CalcOutput<'a>)
        ensures
            r.bars@ == self.over(),
            r.columns@.len() == self.added().len(),
            forall|i: int|
                0 <= i < r.columns@.len() ==> is_column(
                    #[trigger] r.columns@[i],
                    self.added()[i],
                    self.over(),
                ),
    {
        let mut columns: Vec<CalcColumn> = Vec::new();
        let mut i: usize = 0;
        while i < self.indicators.len()
            invariant
                i <= self.indicators.len(),
                columns@.len() == i,
                forall|j: int|
                    0 <= j < i ==> is_column(
                        #[trigger] columns@[j],
                        self.indicators@[j],
                        self.bars@,
                    ),
            decreases self.indicators.len() - i,
        {
            let indicator = self.indicators[i];
            let name = indicator.name();
            let decimals: u8 = indicator.decimals();
            let values = indicator.compute(self.bars);
            columns.push(CalcColumn { name, values, decimals });
            i += 1;
        }
        CalcOutput { bars: self.bars, columns }
    }
}

/// The returns of a whole series, each as the two closes it is taken from.
#[derive(Debug)]
pub struct ReturnSeries {
    pub method: ReturnMethod,
    pub pairs: Vec<ReturnPair>,
}

/// The returns that a whole-series summary is made of: one per bar after the first. There is none
/// for fewer than two bars.
pub fn summarize(bars: &[Bar], method: ReturnMethod) -> (r: Option<ReturnSeries>)
    ensures
        r is Some <==> bars@.len() >= 2,
        r matches Some(series) ==> {
            &&& series.method == method
            &&& series.pairs@.len() == bars@.len() - 1
            &&& forall|i: int|
                0 <= i < series.pairs@.len() ==> #[trigger] series.pairs@[i] == (ReturnPair {
                    prev: bars@[i].close,
                    cur: bars@[i + 1].close,
                })
        },
{
    if bars.len() < 2 {
        return None;
    }
    let mut pairs: Vec<ReturnPair> = Vec::new();
    let mut i: usize = 1;
    while i < bars.len()
        invariant
            1 <= i <= bars.len(),
            pairs@.len() == i - 1,
            forall|j: int|
                0 <= j < i - 1 ==> #[trigger] pairs@[j] == (ReturnPair {
                    prev: bars@[j].close,
                    cur: bars@[j + 1].close,
                }),
        decreases bars.len() - i,
    {
        pairs.push(ReturnPair { prev: bars[i - 1].close, cur: bars[i].close });
        i += 1;
    }
    Some(ReturnSeries { method, pairs })
}

} // verus!
