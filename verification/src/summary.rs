//! What a summary of `calc` holds: which blocks it has, what they are called, and which values go
//! into them. The statistics themselves are computed in floating point by whoever renders them.
use vstd::prelude::*;

use crate::text::{chars_of, same};

verus! {

/// Identity of one indicator column, needed to summarize it.
#[derive(Debug)]
pub struct SummaryColumn {
    pub name: String,
    pub decimals: u8,
}

/// A column is a return column iff it carries a bar-to-bar return series.
pub open spec fn carries_returns(name: Seq<char>) -> bool {
    name == "ret_log"@ || name == "ret_simple"@
}

pub fn is_return_column(name: &str) -> (r: bool)
    ensures
        r == carries_returns(name@),
{
    same(name, "ret_log") || same(name, "ret_simple")
}

/// The columns of the return indicators, and no others, are return columns.
pub proof fn returns_are_return_columns(indicator: crate::calc::BuiltIn)
    ensures
        carries_returns(indicator.column()) == (indicator is Returns),
{
    reveal_strlit("ret_log");
    reveal_strlit("ret_simple");
    reveal_strlit("sma_");
    reveal_strlit("ema_");
    reveal_strlit("dema_");
    reveal_strlit("vsma_");
    reveal_strlit("vema_");
    reveal_strlit("vdema_");
    reveal_strlit("rsi_");
    reveal_strlit("vol_");
    if !(indicator is Returns) {
        let column = indicator.column();
        assert("ret_log"@[1] == 'e' && "ret_log"@[0] == 'r');
        assert("ret_simple"@[1] == 'e' && "ret_simple"@[0] == 'r');
        match indicator {
            crate::calc::BuiltIn::Rsi(_) => {
                assert(column[1] == 's');
            },
            _ => {
                assert(column[0] != 'r');
            },
        }
    }
}

// ---- the price path ------------------------------------------------------------------

/// The close-price path of a summary, in whole price units.
#[derive(Debug, Clone, Copy, PartialEq, Eq, Structural)]
pub struct PricePath {
    pub first_time: u32,
    pub first_close: u32,
    pub last_time: u32,
    pub last_close: u32,
    pub high: u32,
    pub low: u32,
}

impl PricePath {
    /// Whether this is the path of closes, each with its time.
    pub open spec fn follows(self, closes: Seq<(u32, u32)>) -> bool {
        &&& closes.len() > 0
        &&& closes[0] == (self.first_time, self.first_close)
        &&& closes.last() == (self.last_time, self.last_close)
        &&& forall|i: int|
            0 <= i < closes.len() ==> self.low <= (#[trigger] closes[i]).1 <= self.high
        &&& exists|i: int| 0 <= i < closes.len() && (#[trigger] closes[i]).1 == self.high
        &&& exists|i: int| 0 <= i < closes.len() && (#[trigger] closes[i]).1 == self.low
    }

    /// The seconds that the path spans; none where time goes back.
    pub fn span_seconds(&self) -> (r: u32)
        ensures
            r == if self.last_time >= self.first_time {
                self.last_time - self.first_time
            } else {
                0
            },
    {
        if self.last_time >= self.first_time {
            self.last_time - self.first_time
        } else {
            0
        }
    }
}

/// What a summary does with a column's values.
#[derive(Debug, Clone, Copy, PartialEq, Eq, Structural)]
pub enum ColumnKind {
    /// Count, mean, extremes and the last value.
    Basic,
    /// Every value is kept, to fit a normal distribution.
    Return,
}

/// The kind of a column.
pub open spec fn kind_of_column(name: Seq<char>) -> ColumnKind {
    if carries_returns(name) {
        ColumnKind::Return
    } else {
        ColumnKind::Basic
    }
}

/// Accumulates the price path behind a summary as `calc` streams rows, and tells how each column is
/// summarized.
pub struct SummaryCollector {
    bars: u64,
    price: Option<PricePath>,
    kinds: Vec<ColumnKind>,
    volatile: Vec<bool>,
    closes: Ghost<Seq<(u32, u32)>>,
}

/// Whether a name belongs to a column of rolling volatility.
pub open spec fn is_volatility_name(name: Seq<char>) -> bool {
    name.len() >= 4 && name.take(4) == "vol_"@
}

fn is_volatility(name: &str) -> (r: bool)
    ensures
        r == is_volatility_name(name@),
{
    proof {
        reveal_strlit("vol_");
    }
    let c = chars_of(name);
    let r = c.len() >= 4 && c[0] == 'v' && c[1] == 'o' && c[2] == 'l' && c[3] == '_';
    proof {
        if r {
            assert(name@.take(4) =~= "vol_"@);
        } else if name@.len() >= 4 && name@.take(4) == "vol_"@ {
            let t = name@.take(4);
            assert(t[0] == name@[0] && t[1] == name@[1] && t[2] == name@[2] && t[3] == name@[3]);
        }
    }
    r
}

impl SummaryCollector {
    /// The closes taken in so far, each with its time.
    pub closed spec fn closes_in(&self) -> Seq<(u32, u32)> {
        self.closes@
    }

    pub closed spec fn column_kinds(&self) -> Seq<ColumnKind> {
        self.kinds@
    }

    /// Which columns carry rolling volatility.
    pub closed spec fn volatility_columns(&self) -> Seq<bool> {
        self.volatile@
    }

    pub closed spec fn valid(&self) -> bool {
        &&& self.bars == self.closes@.len()
        &&& self.price is Some <==> self.closes@.len() > 0
        &&& self.price matches Some(path) ==> path.follows(self.closes@)
    }

    /// Builds a collector for `columns` (aligned to the rows later fed to [`Self::push_row`]).
    pub fn new(columns: &[SummaryColumn]) -> (r: Self)
        ensures
            r.valid(),
            r.closes_in() == Seq::<(u32, u32)>::empty(),
            r.column_kinds() == columns@.map_values(|c: SummaryColumn| kind_of_column(c.name@)),
            r.volatility_columns() == columns@.map_values(
                |c: SummaryColumn| is_volatility_name(c.name@),
            ),
    {
        let mut kinds: Vec<ColumnKind> = Vec::new();
        let mut volatile: Vec<bool> = Vec::new();
        let ghost f = |c: SummaryColumn| kind_of_column(c.name@);
        let ghost g = |c: SummaryColumn| is_volatility_name(c.name@);
        let mut i: usize = 0;
        while i < columns.len()
            invariant
                i <= columns.len(),
                f == (|c: SummaryColumn| kind_of_column(c.name@)),
                kinds@ == columns@.take(i as int).map_values(f),
                g == (|c: SummaryColumn| is_volatility_name(c.name@)),
                volatile@ == columns@.take(i as int).map_values(g),
            decreases columns.len() - i,
        {
            let name = columns[i].name.as_str();
            volatile.push(is_volatility(name));
            assert(volatile@ =~= columns@.take(i + 1).map_values(g));
            let kind = if is_return_column(name) {
                ColumnKind::Return
            } else {
                ColumnKind::Basic
            };
            kinds.push(kind);
            assert(kinds@ =~= columns@.take(i + 1).map_values(f));
            i += 1;
        }
        assert(columns@.take(i as int) =~= columns@);
        SummaryCollector { bars: 0, price: None, kinds, volatile, closes: Ghost(Seq::empty()) }
    }

    /// Feeds one bar's close into the price path.
    pub fn push_row(&mut self, time: u32, close: u32)
        requires
            old(self).valid(),
            old(self).closes_in().len() < u64::MAX,
        ensures
            final(self).valid(),
            final(self).closes_in() == old(self).closes_in().push((time, close)),
            final(self).column_kinds() == old(self).column_kinds(),
            final(self).volatility_columns() == old(self).volatility_columns(),
    {
        let ghost before = self.closes@;
        let ghost after = before.push((time, close));
        self.bars = self.bars + 1;
        let path = match self.price {
            None => PricePath {
                first_time: time,
                first_close: close,
                last_time: time,
                last_close: close,
                high: close,
                low: close,
            },
            Some(path) => PricePath {
                last_time: time,
                last_close: close,
                high: if close > path.high {
                    close
                } else {
                    path.high
                },
                low: if close < path.low {
                    close
                } else {
                    path.low
                },
                ..path
            },
        };
        proof {
            assert(after[before.len() as int] == (time, close));
            assert forall|i: int| 0 <= i < after.len() implies path.low <= (
            #[trigger] after[i]).1 <= path.high by {
                if i < before.len() {
                    assert(after[i] == before[i]);
                }
            }
            if self.price is Some {
                let p = self.price->0;
                let h = choose|i: int| 0 <= i < before.len() && (#[trigger] before[i]).1 == p.high;
                let l = choose|i: int| 0 <= i < before.len() && (#[trigger] before[i]).1 == p.low;
                assert(after[h] == before[h] && after[l] == before[l]);
                assert(after[0] == before[0]);
            }
            assert(path.follows(after));
        }
        self.price = Some(path);
        self.closes = Ghost(self.closes@.push((time, close)));
    }

    /// How many bars were fed in.
    pub fn bars(&self) -> (r: u64)
        requires
            self.valid(),
        ensures
            r == self.closes_in().len(),
    {
        self.bars
    }

    /// The price path; none without a bar.
    pub fn price(&self) -> (r: Option<PricePath>)
        requires
            self.valid(),
        ensures
            r is Some <==> self.closes_in().len() > 0,
            r matches Some(path) ==> path.follows(self.closes_in()),
    {
        self.price
    }

    /// How a column is summarized; none past the last column.
    pub fn column(&self, index: usize) -> (r: Option<ColumnKind>)
        ensures
            r == if index < self.column_kinds().len() {
                Some(self.column_kinds()[index as int])
            } else {
                None
            },
    {
        if index < self.kinds.len() {
            Some(self.kinds[index])
        } else {
            None
        }
    }

    /// The column that the volatility regime is read from: the first of rolling volatility whose
    /// values are usable, that is, has values and a mean above zero.
    pub fn regime(&self, usable: &[bool]) -> (r: Option<usize>)
        ensures
            match r {
                Some(i) => regime_fits(self.volatility_columns(), usable@, i as int)
                    && forall|j: int|
                    0 <= j < i ==> !#[trigger] regime_fits(self.volatility_columns(), usable@, j),
                None => forall|j: int|
                    !#[trigger] regime_fits(self.volatility_columns(), usable@, j),
            },
            r matches Some(i) ==> self.volatility_columns()[i as int] && usable@[i as int],
            forall|j: int|
                0 <= j < self.volatility_columns().len() && j < usable@.len() && (
                #[trigger] self.volatility_columns()[j]) && usable@[j] ==> r is Some && r->0 <= j,
    {
        let mut i: usize = 0;
        while i < self.volatile.len() && i < usable.len()
            invariant
                i <= self.volatile@.len(),
                i <= usable@.len(),
                forall|j: int|
                    0 <= j < i ==> !#[trigger] regime_fits(self.volatility_columns(), usable@, j),
                forall|j: int|
                    0 <= j < i ==> !((#[trigger] self.volatility_columns()[j]) && usable@[j]),
            decreases usable@.len() - i,
        {
            if self.volatile[i] && usable[i] {
                return Some(i);
            }
            i += 1;
        }
        None
    }
}

/// Whether the volatility regime can be read from a column.
pub open spec fn regime_fits(volatile: Seq<bool>, usable: Seq<bool>, i: int) -> bool {
    0 <= i < volatile.len() && i < usable.len() && volatile[i] && usable[i]
}

// ---- names and positions ---------------------------------------------------------------

/// What a summary is called: by its symbol too where several share the output.
pub fn summary_base(symbol: &str, include_symbol: bool) -> (r: String)
    ensures
        r@ == if include_symbol {
            symbol@ + ".summary"@
        } else {
            "summary"@
        },
{
    if include_symbol {
        let mut out = symbol.to_owned();
        out.append(".summary");
        out
    } else {
        "summary".to_owned()
    }
}

/// What a block of a summary is called.
pub fn summary_block(base: &str, block: &str) -> (r: String)
    ensures
        r@ == base@ + seq!['.'] + block@,
{
    let mut out = base.to_owned();
    out.push('.');
    out.append(block);
    assert(out@ =~= base@ + seq!['.'] + block@);
    out
}

/// The decimals of a mean: the column's, and two at the least.
pub fn mean_decimals(decimals: u8) -> (r: u8)
    ensures
        r >= 2,
        r == if decimals > 2 {
            decimals
        } else {
            2
        },
{
    if decimals > 2 {
        decimals
    } else {
        2
    }
}

/// Where a quartile lies among ascending values: between two neighbours, so many quarters of the
/// way. It is the position `quarters / 4 * (n - 1)`.
pub fn quantile_position(n: usize, quarters: usize) -> (r: (usize, usize, usize))
    requires
        1 <= n,
        quarters <= 4,
    ensures
        r.0 <= r.1 < n,
        r.1 - r.0 == (if r.2 > 0 {
            1int
        } else {
            0int
        }),
        r.2 < 4,
        4 * r.0 + r.2 == quarters * (n - 1),
{
    assert(quarters * (n - 1) <= 4 * (n - 1)) by (nonlinear_arith)
        requires
            quarters <= 4,
            n >= 1,
    ;
    let steps: u128 = quarters as u128 * (n as u128 - 1);
    assert(quarters as int * (n as int - 1) == steps);
    let low: usize = (steps / 4) as usize;
    let rest: usize = (steps % 4) as usize;
    let high: usize = if rest > 0 {
        low + 1
    } else {
        low
    };
    (low, high, rest)
}

} // verus!
