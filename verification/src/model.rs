//! Ticks and bars.
//!
//! Prices are whole numbers of price units, 10,000 to one unit of currency, which is how the files
//! store them. Sums of price times size are kept whole, so a bar's average price is held as its
//! mass over its volume rather than as a rounded quotient.
use vstd::prelude::*;

verus! {

/// Price units in one unit of currency.
pub const PRICE_SCALE: u32 = 10_000;

/// One trade.
#[derive(Debug, Clone, Copy, PartialEq, Eq, Structural)]
pub struct Tick {
    /// Unix second.
    pub time: u32,
    /// Price units.
    pub price: u32,
    pub size: i32,
}

/// A bar's volume-weighted average price.
#[derive(Debug, Clone, Copy, PartialEq, Eq, Structural)]
pub enum Vwap {
    /// No volume, so no average.
    Undefined,
    /// A price of its own: the stored average of a bar file, or the flat price of a filled bar.
    Price(u32),
    /// The sum of price times size; the average is this over the bar's volume.
    Mass(i128),
}

/// Open, high, low and close over an interval, with volume and trade count.
#[derive(Debug, Clone, Copy, PartialEq, Eq, Structural)]
pub struct Bar {
    /// Unix second at which the interval starts.
    pub time: u32,
    pub open: u32,
    pub high: u32,
    pub low: u32,
    pub close: u32,
    pub volume: i64,
    pub vwap: Vwap,
    pub trades: u64,
}

impl Bar {
    /// The price mass a bar carries: its average price times its volume.
    pub open spec fn mass(self) -> int {
        match self.vwap {
            Vwap::Undefined => 0,
            Vwap::Price(price) => price * self.volume,
            Vwap::Mass(mass) => mass as int,
        }
    }
}

/// What a file holds.
#[derive(Debug, Clone, Copy, PartialEq, Eq, Structural)]
pub enum InputKind {
    Tick,
    Bar,
}

impl InputKind {
    pub open spec fn word(self) -> Seq<char> {
        match self {
            InputKind::Tick => "tick"@,
            InputKind::Bar => "bar"@,
        }
    }

    /// The word for the kind.
    pub fn label(self) -> (r: &'static str)
        ensures
            r@ == self.word(),
    {
        match self {
            InputKind::Tick => "tick",
            InputKind::Bar => "bar",
        }
    }
}

} // verus!
