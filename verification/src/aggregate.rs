//! Folding trades and bars into one bar.
use vstd::prelude::*;

use crate::model::{Bar, Tick, Vwap};

verus! {

/// What a run of trades amounts to, over whole numbers of any size.
#[verifier::ext_equal]
pub struct Agg {
    pub time: int,
    pub open: int,
    pub high: int,
    pub low: int,
    pub close: int,
    pub volume: int,
    pub mass: int,
    pub trades: int,
}

/// What a single trade amounts to.
pub open spec fn tick_agg(tick: Tick) -> Agg {
    Agg {
        time: tick.time as int,
        open: tick.price as int,
        high: tick.price as int,
        low: tick.price as int,
        close: tick.price as int,
        volume: tick.size as int,
        mass: tick.price * tick.size,
        trades: 1,
    }
}

/// What a bar amounts to.
pub open spec fn bar_agg(bar: Bar) -> Agg {
    Agg {
        time: bar.time as int,
        open: bar.open as int,
        high: bar.high as int,
        low: bar.low as int,
        close: bar.close as int,
        volume: bar.volume as int,
        mass: bar.mass(),
        trades: bar.trades as int,
    }
}

pub open spec fn larger(a: int, b: int) -> int {
    if a >= b {
        a
    } else {
        b
    }
}

pub open spec fn smaller(a: int, b: int) -> int {
    if a <= b {
        a
    } else {
        b
    }
}

impl Agg {
    /// This run, then a later one.
    pub open spec fn then_run(self, next: Agg) -> Agg {
        Agg {
            time: self.time,
            open: self.open,
            high: larger(self.high, next.high),
            low: smaller(self.low, next.low),
            close: next.close,
            volume: self.volume + next.volume,
            mass: self.mass + next.mass,
            trades: self.trades + next.trades,
        }
    }

    /// The same run, timed at the start of its bucket.
    pub open spec fn timed(self, time: int) -> Agg {
        Agg { time, ..self }
    }

    /// Whether the totals fit the fields of a bar.
    pub open spec fn fits(self) -> bool {
        &&& i64::MIN <= self.volume <= i64::MAX
        &&& i128::MIN <= self.mass <= i128::MAX
        &&& 0 <= self.trades <= u64::MAX
    }

    /// The bar of a run: the average price is the mass over the volume, and there is none without
    /// volume.
    pub open spec fn bar(self) -> Bar {
        Bar {
            time: self.time as u32,
            open: self.open as u32,
            high: self.high as u32,
            low: self.low as u32,
            close: self.close as u32,
            volume: self.volume as i64,
            vwap: if self.volume != 0 {
                Vwap::Mass(self.mass as i128)
            } else {
                Vwap::Undefined
            },
            trades: self.trades as u64,
        }
    }
}

/// What a non-empty run amounts to.
pub open spec fn total(run: Seq<Agg>) -> Agg
    decreases run.len(),
{
    if run.len() <= 1 {
        run[0]
    } else {
        total(run.drop_last()).then_run(run.last())
    }
}

/// The open bucket of a resampler.
#[derive(Debug, Clone, Copy)]
pub(crate) struct Accumulator {
    pub(crate) time: u32,
    pub(crate) open: u32,
    pub(crate) high: u32,
    pub(crate) low: u32,
    pub(crate) close: u32,
    pub(crate) volume: i64,
    pub(crate) weighted: i128,
    pub(crate) trades: u64,
}

impl View for Accumulator {
    type V = Agg;

    closed spec fn view(&self) -> Agg {
        Agg {
            time: self.time as int,
            open: self.open as int,
            high: self.high as int,
            low: self.low as int,
            close: self.close as int,
            volume: self.volume as int,
            mass: self.weighted as int,
            trades: self.trades as int,
        }
    }
}

/// The price mass (`vwap * volume`, i.e. the sum of `price * size` over the bar's ticks) a bar
/// contributes to a re-resampled bucket's VWAP. Zero-volume/empty bars carry no mass.
pub fn bar_weighted(bar: &Bar) -> (r: i128)
    ensures
        r == bar.mass(),
{
    match bar.vwap {
        Vwap::Undefined => 0,
        Vwap::Price(price) => {
            assert(-0x1_0000_0000 * 0x8000_0000_0000_0000 <= price * bar.volume <= 0x1_0000_0000
                * 0x8000_0000_0000_0000) by (nonlinear_arith)
                requires
                    0 <= price < 0x1_0000_0000,
                    -0x8000_0000_0000_0000 <= bar.volume <= 0x8000_0000_0000_0000,
            ;
            price as i128 * bar.volume as i128
        },
        Vwap::Mass(mass) => mass,
    }
}

fn tick_weighted(tick: &Tick) -> (r: i128)
    ensures
        r == tick.price * tick.size,
        -0x8000_0000_0000_0000 <= r <= 0x8000_0000_0000_0000,
{
    assert(-0x8000_0000_0000_0000 <= tick.price * tick.size <= 0x8000_0000_0000_0000)
        by (nonlinear_arith)
        requires
            0 <= tick.price < 0x1_0000_0000,
            -0x8000_0000 <= tick.size <= 0x8000_0000,
    ;
    tick.price as i128 * tick.size as i128
}

fn upper(a: u32, b: u32) -> (r: u32)
    ensures
        r == larger(a as int, b as int),
{
    if a >= b {
        a
    } else {
        b
    }
}

fn lower(a: u32, b: u32) -> (r: u32)
    ensures
        r == smaller(a as int, b as int),
{
    if a <= b {
        a
    } else {
        b
    }
}

impl Accumulator {
    pub(crate) fn new(time: u32, tick: &Tick) -> (r: Self)
        ensures
            r@ == tick_agg(*tick).timed(time as int),
    {
        Accumulator {
            time,
            open: tick.price,
            high: tick.price,
            low: tick.price,
            close: tick.price,
            volume: tick.size as i64,
            weighted: tick_weighted(tick),
            trades: 1,
        }
    }

    pub(crate) fn update(&mut self, tick: &Tick)
        requires
            old(self)@.then_run(tick_agg(*tick)).fits(),
        ensures
            final(self)@ == old(self)@.then_run(tick_agg(*tick)),
    {
        self.high = upper(self.high, tick.price);
        self.low = lower(self.low, tick.price);
        self.close = tick.price;
        self.volume = self.volume + tick.size as i64;
        self.weighted = self.weighted + tick_weighted(tick);
        self.trades = self.trades + 1;
    }

    /// Opens a bucket from an existing bar (used when re-resampling a bar file to a coarser or
    /// equal interval). `time` is the target bucket start, not the source bar's time.
    pub(crate) fn from_bar(time: u32, bar: &Bar) -> (r: Self)
        ensures
            r@ == bar_agg(*bar).timed(time as int),
    {
        Accumulator {
            time,
            open: bar.open,
            high: bar.high,
            low: bar.low,
            close: bar.close,
            volume: bar.volume,
            weighted: bar_weighted(bar),
            trades: bar.trades,
        }
    }

    /// Folds another source bar into the open bucket. Source bars are ascending, so `close` is the
    /// latest bar's close; the VWAP is rebuilt from each bar's `vwap * volume` price mass.
    pub(crate) fn update_bar(&mut self, bar: &Bar)
        requires
            old(self)@.then_run(bar_agg(*bar)).fits(),
        ensures
            final(self)@ == old(self)@.then_run(bar_agg(*bar)),
    {
        self.high = upper(self.high, bar.high);
        self.low = lower(self.low, bar.low);
        self.close = bar.close;
        self.volume = self.volume + bar.volume;
        self.weighted = self.weighted + bar_weighted(bar);
        self.trades = self.trades + bar.trades;
    }

    /// Whether a tick can be folded in without a total leaving the range of its field.
    pub(crate) fn has_room(&self, tick: &Tick) -> (r: bool)
        ensures
            r == self@.then_run(tick_agg(*tick)).fits(),
    {
        self.volume.checked_add(tick.size as i64).is_some() && self.weighted.checked_add(
            tick_weighted(tick),
        ).is_some() && self.trades < u64::MAX
    }

    /// Whether a bar can be folded in without a total leaving the range of its field.
    pub(crate) fn has_room_for_bar(&self, bar: &Bar) -> (r: bool)
        ensures
            r == self@.then_run(bar_agg(*bar)).fits(),
    {
        self.volume.checked_add(bar.volume).is_some() && self.weighted.checked_add(
            bar_weighted(bar),
        ).is_some() && self.trades.checked_add(bar.trades).is_some()
    }

    pub(crate) fn finish(self) -> (r: Bar)
        ensures
            r == self@.bar(),
    {
        Bar {
            time: self.time,
            open: self.open,
            high: self.high,
            low: self.low,
            close: self.close,
            volume: self.volume,
            vwap: if self.volume != 0 {
                Vwap::Mass(self.weighted)
            } else {
                Vwap::Undefined
            },
            trades: self.trades,
        }
    }
}

} // verus!
