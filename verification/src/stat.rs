//! Per-file summary statistics, computed identically from tick or bar inputs.
use vstd::prelude::*;

use crate::aggregate::bar_weighted;
use crate::model::{Bar, Tick, Vwap};
use crate::output::{comma_i64, comma_u64, fmt_price, fmt_vwap, opt_time, FrameFormat, Table};

verus! {

/// One summary row for a tick or bar file.
///
/// Every field is derivable from either format, so summarizing a tick file and summarizing the
/// bars it resamples into yields the same `min`/`max`/`vwap`/`volume`/`trades`. `kind` records
/// which format the row was read from (`"tick"` or `"bar"`).
#[derive(Debug)]
pub struct StatRow {
    pub symbol: String,
    pub kind: &'static str,
    pub format: String,
    pub trades: u64,
    pub first: Option<u32>,
    pub last: Option<u32>,
    pub min: Option<u32>,
    pub max: Option<u32>,
    pub vwap: Vwap,
    pub volume: i64,
}

/// The figures of a summary.
#[verifier::ext_equal]
pub struct Figures {
    pub first: int,
    pub last: int,
    pub min: int,
    pub max: int,
    pub mass: int,
    pub volume: int,
    pub trades: int,
}

/// The figures after one more trade or bar.
pub open spec fn observed(
    before: Option<Figures>,
    item: crate::aggregate::Agg,
) -> Figures {
    match before {
        None => Figures {
            first: item.time,
            last: item.time,
            min: item.low,
            max: item.high,
            mass: item.mass,
            volume: item.volume,
            trades: item.trades,
        },
        Some(f) => Figures {
            first: f.first,
            last: item.time,
            min: crate::aggregate::smaller(f.min, item.low),
            max: crate::aggregate::larger(f.max, item.high),
            mass: f.mass + item.mass,
            volume: f.volume + item.volume,
            trades: f.trades + item.trades,
        },
    }
}

/// The figures of a run of trades or bars; none without any.
pub open spec fn figures(items: Seq<crate::aggregate::Agg>) -> Option<Figures> {
    if items.len() == 0 {
        None
    } else {
        let all = crate::aggregate::total(items);
        Some(
            Figures {
                first: items[0].time,
                last: items.last().time,
                min: all.low,
                max: all.high,
                mass: all.mass,
                volume: all.volume,
                trades: all.trades,
            },
        )
    }
}

/// The figures of a run are those of its start and one more item.
pub proof fn figures_grow(items: Seq<crate::aggregate::Agg>, item: crate::aggregate::Agg)
    ensures
        figures(items.push(item)) == Some(observed(figures(items), item)),
{
    assert(items.push(item).drop_last() =~= items);
}

/// Whether the figures fit the fields of a row.
pub open spec fn fit(f: Figures) -> bool {
    &&& i64::MIN <= f.volume <= i64::MAX
    &&& i128::MIN <= f.mass <= i128::MAX
    &&& 0 <= f.trades <= u64::MAX
}

/// Whether a row holds the figures: no prices without any item, and no average without volume.
pub open spec fn shows(row: StatRow, f: Option<Figures>) -> bool {
    match f {
        None => {
            &&& row.trades == 0
            &&& row.first is None
            &&& row.last is None
            &&& row.min is None
            &&& row.max is None
            &&& row.vwap is Undefined
            &&& row.volume == 0
        },
        Some(f) => {
            &&& row.trades == f.trades
            &&& row.first == Some(f.first as u32)
            &&& row.last == Some(f.last as u32)
            &&& row.min == Some(f.min as u32)
            &&& row.max == Some(f.max as u32)
            &&& row.vwap == (if f.volume != 0 {
                Vwap::Mass(f.mass as i128)
            } else {
                Vwap::Undefined
            })
            &&& row.volume == f.volume
        },
    }
}

/// Incrementally accumulates summary statistics from a stream of ascending ticks or bars, so a
/// file's rows never need to be materialized all at once. Ticks and bars feed the same fields:
/// a tick contributes its price as both the low and high and one trade; a bar contributes its
/// low/high, its volume-weighted price mass (`vwap * volume`), and its trade count.
#[derive(Debug)]
pub struct StatAccumulator {
    trades: u64,
    first: Option<u32>,
    last: u32,
    min: u32,
    max: u32,
    weighted: i128,
    volume: i64,
}

impl View for StatAccumulator {
    type V = Option<Figures>;

    closed spec fn view(&self) -> Option<Figures> {
        match self.first {
            None => None,
            Some(first) => Some(
                Figures {
                    first: first as int,
                    last: self.last as int,
                    min: self.min as int,
                    max: self.max as int,
                    mass: self.weighted as int,
                    volume: self.volume as int,
                    trades: self.trades as int,
                },
            ),
        }
    }
}

impl StatAccumulator {
    /// Before the first item every total is zero.
    #[verifier::type_invariant]
    spec fn valid(&self) -> bool {
        self.first is None ==> self.trades == 0 && self.weighted == 0 && self.volume == 0
    }

    pub fn new() -> (r: Self)
        ensures
            r@ is None,
    {
        StatAccumulator {
            trades: 0,
            first: None,
            last: 0,
            min: u32::MAX,
            max: 0,
            weighted: 0,
            volume: 0,
        }
    }

    /// Whether `tick` can be added without a total leaving the range of its field.
    pub fn accepts_tick(&self, tick: &Tick) -> (r: bool)
        ensures
            r == fit(observed(self@, crate::aggregate::tick_agg(*tick))),
    {
        self.has_room(tick.size as i64, tick_mass(tick), 1)
    }

    /// Whether `bar` can be added without a total leaving the range of its field.
    pub fn accepts_bar(&self, bar: &Bar) -> (r: bool)
        ensures
            r == fit(observed(self@, crate::aggregate::bar_agg(*bar))),
    {
        self.has_room(bar.volume, bar_weighted(bar), bar.trades)
    }

    fn has_room(&self, volume: i64, weighted: i128, trades: u64) -> (r: bool)
        ensures
            r <==> {
                &&& i64::MIN <= self.volume + volume <= i64::MAX
                &&& i128::MIN <= self.weighted + weighted <= i128::MAX
                &&& self.trades + trades <= u64::MAX
            },
            self.valid(),
    {
        proof {
            use_type_invariant(self);
        }
        self.volume.checked_add(volume).is_some() && self.weighted.checked_add(weighted).is_some()
            && self.trades.checked_add(trades).is_some()
    }

    pub fn push_tick(&mut self, tick: &Tick)
        requires
            fit(observed(old(self)@, crate::aggregate::tick_agg(*tick))),
        ensures
            final(self)@ == Some(observed(old(self)@, crate::aggregate::tick_agg(*tick))),
    {
        self.observe(
            tick.time,
            tick.price,
            tick.price,
            tick.size as i64,
            tick_mass(tick),
            1,
        );
    }

    pub fn push_bar(&mut self, bar: &Bar)
        requires
            fit(observed(old(self)@, crate::aggregate::bar_agg(*bar))),
        ensures
            final(self)@ == Some(observed(old(self)@, crate::aggregate::bar_agg(*bar))),
    {
        // A bar's `vwap * volume` is exactly the sum of `price * size` over the ticks it covers, so
        // accumulating it reconstructs the overall VWAP. Zero-volume (empty) bars contribute no
        // price mass but still extend the low/high with their flat price.
        self.observe(bar.time, bar.low, bar.high, bar.volume, bar_weighted(bar), bar.trades);
    }

    fn observe(
        &mut self,
        time: u32,
        low: u32,
        high: u32,
        volume: i64,
        weighted: i128,
        trades: u64,
    )
        requires
            fit(observed(old(self)@, item_of(time, low, high, volume, weighted, trades))),
        ensures
            final(self)@ == Some(
                observed(old(self)@, item_of(time, low, high, volume, weighted, trades)),
            ),
    {
        proof {
            use_type_invariant(&*self);
        }
        let empty = self.first.is_none();
        let first: Option<u32> = match self.first {
            Some(first) => Some(first),
            None => Some(time),
        };
        *self = StatAccumulator {
            trades: self.trades + trades,
            first,
            last: time,
            min: if empty || low < self.min {
                low
            } else {
                self.min
            },
            max: if empty || high > self.max {
                high
            } else {
                self.max
            },
            weighted: self.weighted + weighted,
            volume: self.volume + volume,
        };
    }

    pub fn finish(self, symbol: String, kind: &'static str, format: String) -> (r: StatRow)
        ensures
            r.symbol == symbol,
            r.kind == kind,
            r.format == format,
            shows(r, self@),
    {
        proof {
            use_type_invariant(&self);
        }
        match self.first {
            None => StatRow {
                symbol,
                kind,
                format,
                trades: 0,
                first: None,
                last: None,
                min: None,
                max: None,
                vwap: Vwap::Undefined,
                volume: 0,
            },
            Some(first) => StatRow {
                symbol,
                kind,
                format,
                trades: self.trades,
                first: Some(first),
                last: Some(self.last),
                min: Some(self.min),
                max: Some(self.max),
                vwap: if self.volume != 0 {
                    Vwap::Mass(self.weighted)
                } else {
                    Vwap::Undefined
                },
                volume: self.volume,
            },
        }
    }
}

spec fn item_of(
    time: u32,
    low: u32,
    high: u32,
    volume: i64,
    weighted: i128,
    trades: u64,
) -> crate::aggregate::Agg {
    crate::aggregate::Agg {
        time: time as int,
        open: low as int,
        high: high as int,
        low: low as int,
        close: high as int,
        volume: volume as int,
        mass: weighted as int,
        trades: trades as int,
    }
}

fn tick_mass(tick: &Tick) -> (r: i128)
    ensures
        r == tick.price * tick.size,
        r == crate::aggregate::tick_agg(*tick).mass,
{
    assert(-0x8000_0000_0000_0000 <= tick.price * tick.size <= 0x8000_0000_0000_0000)
        by (nonlinear_arith)
        requires
            0 <= tick.price < 0x1_0000_0000,
            -0x8000_0000 <= tick.size <= 0x8000_0000,
    ;
    tick.price as i128 * tick.size as i128
}

/// Computes the summary for one file's ticks (convenience wrapper over [`StatAccumulator`]).
pub fn compute_stat(symbol: String, format: String, ticks: &[Tick]) -> (r: StatRow)
    requires
        crate::resample::sizes_fit(ticks@),
    ensures
        r.symbol == symbol,
        r.kind@ == "tick"@,
        r.format == format,
        shows(r, figures(crate::resample::tick_aggs(ticks@))),
{
    let mut acc = StatAccumulator::new();
    let ghost items = crate::resample::tick_aggs(ticks@);
    let mut k: usize = 0;
    while k < ticks.len()
        invariant
            k <= ticks.len(),
            items == crate::resample::tick_aggs(ticks@),
            crate::resample::sizes_fit(ticks@),
            acc@ == figures(items.take(k as int)),
            acc@ matches Some(f) ==> {
                &&& f.volume == crate::resample::size_sum(ticks@.subrange(0, k as int))
                &&& f.trades == k
                &&& -0x8000_0000_0000_0000 * k <= f.mass <= 0x8000_0000_0000_0000 * k
            },
            k > 0 ==> acc@ is Some,
        decreases ticks.len() - k,
    {
        let tick = &ticks[k];
        let ghost item = crate::aggregate::tick_agg(*tick);
        proof {
            assert(items[k as int] == item);
            assert(items.take(k + 1) =~= items.take(k as int).push(item));
            figures_grow(items.take(k as int), item);
            assert(ticks@.subrange(0, k + 1).drop_last() =~= ticks@.subrange(0, k as int));
            assert(i64::MIN <= crate::resample::size_sum(ticks@.subrange(0, k + 1)) <= i64::MAX);
            assert(-0x8000_0000_0000_0000 <= item.mass <= 0x8000_0000_0000_0000) by (nonlinear_arith)
                requires
                    item.mass == tick.price * tick.size,
                    0 <= tick.price < 0x1_0000_0000,
                    -0x8000_0000 <= tick.size <= 0x8000_0000,
            ;
            assert(crate::resample::size_sum(Seq::<Tick>::empty()) == 0);
            assert(k == 0 ==> ticks@.subrange(0, 0) =~= Seq::<Tick>::empty());
        }
        acc.push_tick(tick);
        k += 1;
    }
    assert(items.take(k as int) =~= items);
    acc.finish(symbol, "tick", format)
}

/// The headers of a summary table.
pub open spec fn stat_headers() -> Seq<Seq<char>> {
    seq![
        "symbol"@,
        "kind"@,
        "format"@,
        "trades"@,
        "first"@,
        "last"@,
        "min"@,
        "max"@,
        "vwap"@,
        "volume"@,
    ]
}

/// The numeric columns of a summary table are right-justified.
pub open spec fn stat_aligns() -> Seq<bool> {
    seq![false, false, false, true, false, false, true, true, true, true]
}

pub open spec fn opt_time_text(value: Option<u32>, human: bool) -> Seq<char> {
    match value {
        Some(epoch) => crate::output::time_text(epoch as int, human),
        None => seq!['-'],
    }
}

pub open spec fn opt_price_text(value: Option<u32>) -> Seq<char> {
    crate::output::price_text(
        match value {
            Some(units) => Some(units as int),
            None => None,
        },
    )
}

/// The cells of a summary row.
pub open spec fn stat_cells(row: StatRow, human: bool) -> Seq<Seq<char>> {
    seq![
        row.symbol@,
        row.kind@,
        row.format@,
        crate::output::comma_text(row.trades as int),
        opt_time_text(row.first, human),
        opt_time_text(row.last, human),
        opt_price_text(row.min),
        opt_price_text(row.max),
        crate::output::vwap_text(row.vwap, row.volume as int),
        crate::output::comma_text(row.volume as int),
    ]
}

fn opt_price(value: Option<u32>) -> (r: String)
    ensures
        r@ == opt_price_text(value),
{
    match value {
        Some(units) => fmt_price(Some(units as i128)),
        None => fmt_price(None),
    }
}

/// The cells of a summary row. Times are for people in a table, epoch seconds in CSV.
pub fn stat_row_cells(row: &StatRow, human: bool) -> (r: Vec<String>)
    ensures
        crate::text::texts(r@) == stat_cells(*row, human),
{
    let mut out: Vec<String> = Vec::new();
    out.push(row.symbol.clone());
    out.push(row.kind.to_owned());
    out.push(row.format.clone());
    out.push(comma_u64(row.trades));
    out.push(opt_time(row.first, human));
    out.push(opt_time(row.last, human));
    out.push(opt_price(row.min));
    out.push(opt_price(row.max));
    out.push(fmt_vwap(row.vwap, row.volume));
    out.push(comma_i64(row.volume));
    assert(crate::text::texts(out@) =~= stat_cells(*row, human));
    out
}

/// A format that a summary cannot be written in.
#[derive(Debug, Clone, Copy, PartialEq, Eq, Structural)]
pub struct UnsupportedFormat {
    pub format: FrameFormat,
}

impl UnsupportedFormat {
    /// What is wrong, in words.
    pub open spec fn message_text(self) -> Seq<char> {
        "stat does not support "@ + self.format.token() + " output"@
    }

    /// What is wrong, in words.
    pub fn message(self) -> (r: String)
        ensures
            r@ == self.message_text(),
    {
        let mut out = "stat does not support ".to_owned();
        out.append(self.format.as_str());
        out.append(" output");
        out
    }
}

/// How summary rows go out.
#[derive(Debug)]
pub enum StatOutput {
    /// The whole text.
    Text(String),
    /// One JSON object per row.
    JsonLines,
}

pub open spec fn stat_grid(rows: Seq<StatRow>, human: bool) -> Seq<Seq<Seq<char>>> {
    rows.map_values(|row: StatRow| stat_cells(row, human))
}

/// The table of summary rows.
fn stat_table(rows: &Vec<StatRow>, human: bool) -> (r: Table)
    ensures
        r.regular(),
        crate::text::texts(r.headers@) == stat_headers(),
        r.aligns@ == stat_aligns(),
        crate::output::grid(r.rows@) == stat_grid(rows@, human),
{
    let headers: Vec<String> = vec![
        "symbol".to_owned(),
        "kind".to_owned(),
        "format".to_owned(),
        "trades".to_owned(),
        "first".to_owned(),
        "last".to_owned(),
        "min".to_owned(),
        "max".to_owned(),
        "vwap".to_owned(),
        "volume".to_owned(),
    ];
    let aligns: Vec<bool> = vec![
        false,
        false,
        false,
        true,
        false,
        false,
        true,
        true,
        true,
        true,
    ];
    assert(crate::text::texts(headers@) =~= stat_headers());
    assert(aligns@ =~= stat_aligns());
    let mut cells: Vec<Vec<String>> = Vec::new();
    let mut i: usize = 0;
    while i < rows.len()
        invariant
            i <= rows.len(),
            cells@.len() == i,
            forall|j: int|
                0 <= j < i ==> crate::text::texts((#[trigger] cells@[j])@) == stat_cells(
                    rows@[j],
                    human,
                ),
        decreases rows.len() - i,
    {
        cells.push(stat_row_cells(&rows[i], human));
        i += 1;
    }
    let table = Table { headers, aligns, rows: cells };
    proof {
        assert(crate::output::grid(table.rows@) =~= stat_grid(rows@, human));
        assert forall|j: int| 0 <= j < table.rows@.len() implies (#[trigger] table.rows@[j])@.len()
            <= table.headers@.len() by {
            assert(crate::text::texts(table.rows@[j]@).len() == 10);
        }
    }
    table
}

/// Writes summary rows. JSON lines are left to the caller, row by row; raw and hex output are
/// refused.
pub fn write_stat(rows: &Vec<StatRow>, format: FrameFormat) -> (r: Result<
    StatOutput,
    UnsupportedFormat,
>)
    ensures
        match format {
            FrameFormat::JsonLines => r matches Ok(out) && out is JsonLines,
            FrameFormat::Raw | FrameFormat::Hex => r matches Err(e) && e.format == format,
            FrameFormat::Table => r matches Ok(StatOutput::Text(text)) && text@
                == crate::output::table_text(stat_headers(), stat_aligns(), stat_grid(rows@, true)),
            FrameFormat::Markdown => r matches Ok(StatOutput::Text(text)) && text@
                == crate::output::markdown_text(
                stat_headers(),
                stat_aligns(),
                stat_grid(rows@, true),
            ),
            FrameFormat::Csv => r matches Ok(StatOutput::Text(text)) && text@
                == crate::output::csv_table_text(stat_headers(), stat_grid(rows@, false)),
        },
{
    match format {
        FrameFormat::JsonLines => Ok(StatOutput::JsonLines),
        FrameFormat::Raw | FrameFormat::Hex => Err(UnsupportedFormat { format }),
        FrameFormat::Table => Ok(StatOutput::Text(stat_table(rows, true).render_table())),
        FrameFormat::Markdown => Ok(StatOutput::Text(stat_table(rows, true).render_markdown())),
        FrameFormat::Csv => Ok(StatOutput::Text(stat_table(rows, false).render_csv())),
    }
}

} // verus!
