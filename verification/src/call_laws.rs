//! What a caller is given: the results of whole calls, in terms of what went into them.
use vstd::prelude::*;

use std::ops::Range;

use crate::adjust::{
    Adjuster, Adjustment, AdjustmentMode, ActionKind, CorporateAction, NeedsSeries, Scale, Step,
};
use crate::calc::{
    Average, BuiltIn, Cell, CalcOutput, Dema, DemaStep, Ema, EmaStep, ReturnMethod, ReturnPair,
    ReturnSeries, Returns, Rsi, RsiStep, Sma, Volatility, VolumeDema, VolumeEma, VolumeSma,
};
use crate::civil::Zone;
use crate::feed::{BarPlan, BarRequest, MixedSources, TickQuery};
use crate::interval::{Granularity, Interval};
use crate::ls::{FileFacts, LsFormat, LsRow};
use crate::mcp::dto::{BarRow, InspectReport, LsEntry, Series, StatEntry, VerifyReport};
use crate::model::{Bar, InputKind, Tick, Vwap};
use crate::output::FrameFormat;
use crate::report::{Frames, Header, Inspection};
use crate::resample::BarClock;
use crate::session::Session;
use crate::sidecar::{RefreshOutcome, RefreshPlan, SidecarWrite};
use crate::stat::{StatOutput, StatRow, UnsupportedFormat};

verus! {

// ---- adjusting ---------------------------------------------------------------------------

/// Adjusting a series gives each bar the steps of exactly the actions whose ex-date is after it, latest
/// first; a split divides prices by its ratio and multiplies volumes by it, in split-only mode as in
/// total return, and a dividend scales prices in total return alone.
pub proof fn adjusting_applies_later_actions(
    bars: &[Bar],
    actions: &[CorporateAction],
    mode: AdjustmentMode,
    r: Adjustment,
    i: int,
)
    requires
        call_ensures(crate::adjust::adjust_bars, (bars, actions, mode), r),
        forall|a: int, b: int|
            0 <= a <= b < bars@.len() ==> (#[trigger] bars@[a]).time <= (#[trigger] bars@[b]).time,
        forall|a: int, b: int|
            0 <= a <= b < actions@.len() ==> (#[trigger] actions@[a]).time <= (#[trigger]
            actions@[b]).time,
        forall|a: int| 0 <= a < actions@.len() ==> (#[trigger] actions@[a]).valid(),
        0 <= i < bars@.len(),
    ensures
        r.counts@.len() == bars@.len(),
        mode == AdjustmentMode::Raw ==> r.counts@[i] == 0,
        mode != AdjustmentMode::Raw ==> ({
            let n = actions@.len() as int;
            let count = r.counts@[i] as int;
            &&& count <= n
            &&& count <= r.steps@.len()
            &&& forall|m: int|
                0 <= m < n ==> ((#[trigger] actions@[m]).time > bars@[i].time <==> m >= n - count)
            &&& forall|k: int|
                0 <= k < count ==> crate::adjust_laws::does_in(
                    #[trigger] r.steps@[k],
                    actions@[n - 1 - k],
                    mode,
                    bars@,
                )
        }),
{
    let all = crate::adjust::steps_from(bars@, actions@, mode, 0);
    let own = crate::adjust::steps_from(bars@, actions@, mode, i);
    assert(r.counts@[i] == own.len());
    if mode != AdjustmentMode::Raw {
        crate::adjust_laws::later_actions_apply(bars@, actions@, mode, i);
        crate::adjust::one_list_of_steps(bars@, actions@, mode, i);
        let n = actions@.len() as int;
        assert(r.counts@[i] <= r.steps@.len());
        assert forall|k: int| 0 <= k < own.len() implies crate::adjust_laws::does_in(
            #[trigger] r.steps@[k],
            actions@[n - 1 - k],
            mode,
            bars@,
        ) by {
            assert(own[k] == all[k]);
        }
    }
}

/// The scale of a bar's volume is the product of its steps' factors on volumes, wherever it can be
/// written; so it is the product over the splits after the bar.
pub proof fn scales_are_products(a: &Adjustment, i: usize, r: Option<Scale>)
    requires
        call_ensures(Adjustment::scale, (a, i), r),
    ensures
        r is Some ==> ({
            let product = crate::adjust::volume_product(a.steps@.take(a.counts@[i as int] as int));
            product == (r->0.num as int, r->0.den as int)
        }),
{
}

/// The factors of a step are those on prices, as numerator and denominator, and then those on volumes:
/// a split's are its ratio upside down and its ratio.
pub proof fn factors_are_prices_then_volumes(step: Step, r: (u128, u128, u128, u128))
    requires
        call_ensures(crate::adjust::factors, (step,), r),
    ensures
        (r.0 as int, r.1 as int) == step.price_factor(),
        (r.2 as int, r.3 as int) == step.volume_factor(),
        step is Split ==> r.0 == step->ratio.den && r.1 == step->ratio.num && r.2
            == step->ratio.num && r.3 == step->ratio.den,
{
}

/// An adjuster for a stream is made for splits or for nothing; a total return needs the whole series.
pub proof fn streams_take_splits_alone(
    actions: &[CorporateAction],
    mode: AdjustmentMode,
    r: Result<Adjuster, NeedsSeries>,
)
    requires
        call_ensures(Adjuster::streaming, (actions, mode), r),
    ensures
        r is Err <==> mode == AdjustmentMode::TotalReturn,
        mode == AdjustmentMode::Raw ==> r->Ok_0.all_steps().len() == 0,
        mode == AdjustmentMode::SplitOnly ==> {
            &&& r->Ok_0.all_steps().len() == actions@.len()
            &&& r->Ok_0.ex_dates().len() == actions@.len()
            &&& r->Ok_0.position() == 0
            &&& forall|k: int|
                0 <= k < actions@.len() ==> #[trigger] r->Ok_0.ex_dates()[k] == actions@[k].time
        },
{
}

/// Splits found in a series are found between a bar and the next: none in a series of one bar.
pub proof fn found_splits_are_of_the_series(bars: &[Bar], r: Vec<CorporateAction>, k: int)
    requires
        call_ensures(crate::adjust::detect_splits, (bars,), r),
        0 <= k < r@.len(),
    ensures
        exists|i: int|
            0 < i < bars@.len() && #[trigger] found_at(bars@, i, r@[k]),
{
    lemma_found(bars@, k);
}

/// Whether an action is the split between a bar and the one before it.
pub open spec fn found_at(bars: Seq<Bar>, i: int, action: CorporateAction) -> bool {
    &&& action.time == bars[i].time
    &&& action.kind is Split
    &&& crate::adjust::split_between(bars[i - 1], bars[i]) == Some(action.kind->ratio)
}

proof fn lemma_found(bars: Seq<Bar>, k: int)
    requires
        0 <= k < crate::adjust::apparent_splits(bars).len(),
    ensures
        exists|i: int|
            0 < i < bars.len() && #[trigger] found_at(
                bars,
                i,
                crate::adjust::apparent_splits(bars)[k],
            ),
    decreases bars.len(),
{
    let init = bars.drop_last();
    let before = crate::adjust::apparent_splits(init);
    let action = crate::adjust::apparent_splits(bars)[k];
    if k < before.len() {
        lemma_found(init, k);
        let i = choose|i: int| 0 < i < init.len() && #[trigger] found_at(init, i, before[k]);
        assert(init[i] == bars[i] && init[i - 1] == bars[i - 1]);
        assert(found_at(bars, i, action));
    } else {
        assert(found_at(bars, bars.len() - 1, action));
    }
}

// ---- indicators --------------------------------------------------------------------------

/// The cells of a strength index count rises as gains and falls as losses.
pub proof fn strength_counts_rises_as_gains(rsi: &Rsi, bars: &[Bar], r: Vec<RsiStep>, i: int)
    requires
        call_ensures(Rsi::compute, (rsi, bars), r),
        0 <= i < bars@.len(),
    ensures
        r@.len() == bars@.len(),
        match r@[i] {
            RsiStep::Warming => rsi.period == 0 || i < rsi.period,
            RsiStep::Seed { gains, losses, count } => i == rsi.period && count == rsi.period && gains
                - losses == bars@[i].close - bars@[0].close && gains + losses
                == crate::calc_laws::travelled(bars@, i),
            RsiStep::Smooth { gain, loss } => i > rsi.period && gain - loss == bars@[i].close
                - bars@[i - 1].close && (gain == 0 || loss == 0),
        },
{
    assert(r@[i] == crate::calc::rsi_at(crate::calc::closes_of(bars@), rsi.period as int, i));
    crate::calc_laws::rises_are_gains_and_falls_are_losses(
        Cell::Rsi(r@[i]),
        rsi.period,
        bars@,
        i,
    );
}

/// The averages of closes are of the last closes.
pub proof fn simple_averages_are_of_closes(sma: &Sma, bars: &[Bar], r: Vec<Option<Average>>, i: int)
    requires
        call_ensures(Sma::compute, (sma, bars), r),
        0 <= i < bars@.len(),
    ensures
        r@.len() == bars@.len(),
        r@[i] is Some <==> sma.period > 0 && i + 1 >= sma.period,
        r@[i] is Some ==> crate::calc_laws::averages(
            r@[i]->0,
            false,
            bars@,
            i + 1 - sma.period,
            i + 1,
        ),
{
    assert(crate::calc::is_cell(Cell::Average(r@[i]), BuiltIn::Sma(*sma), bars@, i));
    crate::calc_laws::simple_averages_are_of_the_last_bars(
        Cell::Average(r@[i]),
        sma.period,
        false,
        bars@,
        i,
    );
}

/// The averages of volumes are of the last volumes.
pub proof fn volume_averages_are_of_volumes(
    sma: &VolumeSma,
    bars: &[Bar],
    r: Vec<Option<Average>>,
    i: int,
)
    requires
        call_ensures(VolumeSma::compute, (sma, bars), r),
        0 <= i < bars@.len(),
    ensures
        r@.len() == bars@.len(),
        r@[i] is Some <==> sma.period > 0 && i + 1 >= sma.period,
        r@[i] is Some ==> crate::calc_laws::averages(
            r@[i]->0,
            true,
            bars@,
            i + 1 - sma.period,
            i + 1,
        ),
{
    assert(crate::calc::is_cell(Cell::Average(r@[i]), BuiltIn::VolumeSma(*sma), bars@, i));
    crate::calc_laws::simple_averages_are_of_the_last_bars(
        Cell::Average(r@[i]),
        sma.period,
        true,
        bars@,
        i,
    );
}

/// Exponential averages of closes and of volumes start simple and then follow their own values.
pub proof fn exponential_averages_follow_their_values(
    ema: &Ema,
    vema: &VolumeEma,
    bars: &[Bar],
    r: Vec<EmaStep>,
    v: Vec<EmaStep>,
    i: int,
)
    requires
        call_ensures(Ema::compute, (ema, bars), r),
        call_ensures(VolumeEma::compute, (vema, bars), v),
        0 <= i < bars@.len(),
    ensures
        r@.len() == bars@.len(),
        v@.len() == bars@.len(),
        crate::calc_laws::smooths(r@[i], ema.period, false, bars@, i),
        crate::calc_laws::smooths(v@[i], vema.period, true, bars@, i),
{
    assert(crate::calc::is_cell(Cell::Ema(r@[i]), BuiltIn::Ema(*ema), bars@, i));
    assert(crate::calc::is_cell(Cell::Ema(v@[i]), BuiltIn::VolumeEma(*vema), bars@, i));
    crate::calc_laws::exponential_averages_start_simple(
        Cell::Ema(r@[i]),
        ema.period,
        false,
        bars@,
        i,
    );
    crate::calc_laws::exponential_averages_start_simple(
        Cell::Ema(v@[i]),
        vema.period,
        true,
        bars@,
        i,
    );
}

/// Double exponential averages of closes and of volumes follow their own values inside.
pub proof fn double_averages_follow_their_values(
    dema: &Dema,
    vdema: &VolumeDema,
    bars: &[Bar],
    r: Vec<DemaStep>,
    v: Vec<DemaStep>,
    i: int,
)
    requires
        call_ensures(Dema::compute, (dema, bars), r),
        call_ensures(VolumeDema::compute, (vdema, bars), v),
        0 <= i < bars@.len(),
    ensures
        crate::calc_laws::smooths(r@[i].inner, dema.period, false, bars@, i),
        crate::calc_laws::smooths(v@[i].inner, vdema.period, true, bars@, i),
        r@[i].outer is Seed <==> i + 1 == 2 * dema.period - 1,
        r@[i].outer is Smooth <==> dema.period > 0 && i + 1 > 2 * dema.period - 1,
        v@[i].outer is Seed <==> i + 1 == 2 * vdema.period - 1,
        v@[i].outer is Smooth <==> vdema.period > 0 && i + 1 > 2 * vdema.period - 1,
{
    assert(crate::calc::is_cell(Cell::Dema(r@[i]), BuiltIn::Dema(*dema), bars@, i));
    assert(crate::calc::is_cell(Cell::Dema(v@[i]), BuiltIn::VolumeDema(*vdema), bars@, i));
    crate::calc_laws::double_averages_smooth_twice(
        Cell::Dema(r@[i]),
        dema.period,
        false,
        bars@,
        i,
    );
    crate::calc_laws::double_averages_smooth_twice(
        Cell::Dema(v@[i]),
        vdema.period,
        true,
        bars@,
        i,
    );
}

/// Returns go from the close before to the close itself, bar by bar and over a whole series.
pub proof fn returns_go_forward(
    indicator: &Returns,
    method: ReturnMethod,
    bars: &[Bar],
    r: Vec<Option<ReturnPair>>,
    s: Option<ReturnSeries>,
    i: int,
)
    requires
        call_ensures(Returns::compute, (indicator, bars), r),
        call_ensures(crate::calc::summarize, (bars, method), s),
        0 <= i < bars@.len(),
    ensures
        r@.len() == bars@.len(),
        r@[i] is Some <==> i > 0,
        i > 0 ==> r@[i]->0.prev == bars@[i - 1].close && r@[i]->0.cur == bars@[i].close,
        s is Some <==> bars@.len() >= 2,
        s is Some ==> s->0.method == method && s->0.pairs@.len() == bars@.len() - 1,
        s is Some && i > 0 ==> s->0.pairs@[i - 1].prev == bars@[i - 1].close && s->0.pairs@[i
            - 1].cur == bars@[i].close,
{
    assert(crate::calc::is_cell(Cell::Return(r@[i]), BuiltIn::Returns(*indicator), bars@, i));
    crate::calc_laws::returns_go_from_one_close_to_the_next(
        Cell::Return(r@[i]),
        indicator.method,
        bars@,
        i,
    );
}

/// Volatilities are taken over the closes of the last returns.
pub proof fn volatilities_are_of_closes(
    volatility: &Volatility,
    bars: &[Bar],
    r: Vec<Option<Vec<u32>>>,
    i: int,
    k: int,
)
    requires
        call_ensures(Volatility::compute, (volatility, bars), r),
        0 <= i < bars@.len(),
        0 <= k <= volatility.period,
    ensures
        r@.len() == bars@.len(),
        r@[i] is Some <==> volatility.period >= 2 && i >= volatility.period,
        r@[i] is Some ==> r@[i]->0@.len() == volatility.period + 1 && r@[i]->0@[k] == bars@[i
            - volatility.period + k].close,
{
    assert(crate::calc::is_cell(
        Cell::Volatility(r@[i]),
        BuiltIn::Volatility(*volatility),
        bars@,
        i,
    ));
    crate::calc_laws::volatility_is_over_the_last_returns(
        Cell::Volatility(r@[i]),
        volatility.period,
        bars@,
        i,
    );
}

/// The names of the columns, one for each indicator and period.
pub proof fn columns_are_named_after_their_specs(
    sma: &Sma,
    ema: &Ema,
    rsi: &Rsi,
    vol: &Volatility,
    vsma: &VolumeSma,
    names: (String, String, String, String, String),
)
    requires
        call_ensures(Sma::name, (sma,), names.0),
        call_ensures(Ema::name, (ema,), names.1),
        call_ensures(Rsi::name, (rsi,), names.2),
        call_ensures(Volatility::name, (vol,), names.3),
        call_ensures(VolumeSma::name, (vsma,), names.4),
    ensures
        names.0@ == "sma_"@ + crate::text::decimal(sma.period as nat),
        names.1@ == "ema_"@ + crate::text::decimal(ema.period as nat),
        names.2@ == "rsi_"@ + crate::text::decimal(rsi.period as nat),
        names.3@ == "vol_"@ + crate::text::decimal(vol.period as nat),
        names.4@ == "vsma_"@ + crate::text::decimal(vsma.period as nat),
{
}

// ---- summaries and listings --------------------------------------------------------------

/// A computed summary is of the trades given, under the symbol and format given.
pub proof fn computed_summaries_are_of_their_trades(
    symbol: String,
    format: String,
    ticks: &[Tick],
    r: StatRow,
)
    requires
        call_ensures(crate::stat::compute_stat, (symbol, format, ticks), r),
        ticks@.len() > 0,
        i128::MIN <= crate::aggregate_laws::turnover(ticks@) <= i128::MAX,
        i64::MIN <= crate::aggregate_laws::size_total(ticks@) <= i64::MAX,
    ensures
        r.symbol == symbol,
        r.kind@ == "tick"@,
        r.format == format,
        r.trades == ticks@.len(),
        r.volume == crate::aggregate_laws::size_total(ticks@),
        r.first == Some(ticks@[0].time),
        r.last == Some(ticks@[ticks@.len() - 1].time),
        r.min is Some,
        r.max is Some,
        forall|i: int|
            0 <= i < ticks@.len() ==> r.min->0 <= (#[trigger] ticks@[i]).price <= r.max->0,
        r.volume != 0 ==> r.vwap == Vwap::Mass(crate::aggregate_laws::turnover(ticks@) as i128),
{
    crate::table_laws::a_summary_is_of_its_trades(r, ticks@);
}

/// The cells of a summary row are those of its headers.
pub proof fn summary_cells_are_given(row: &StatRow, human: bool, r: Vec<String>)
    requires
        call_ensures(crate::stat::stat_row_cells, (row, human), r),
    ensures
        r@.len() == 10,
        r@[0]@ == row.symbol@,
        r@[4]@ == crate::table_laws::time_shown(row.first, human),
        r@[5]@ == crate::table_laws::time_shown(row.last, human),
        r@[6]@ == crate::table_laws::price_shown(row.min),
        r@[7]@ == crate::table_laws::price_shown(row.max),
{
    crate::table_laws::summary_cells_are_what_their_headers_name(*row, human);
    let t = crate::text::texts(r@);
    assert(t.len() == 10);
    assert(t[0] == r@[0]@ && t[4] == r@[4]@ && t[5] == r@[5]@ && t[6] == r@[6]@ && t[7] == r@[7]@);
}

/// Summaries are written as tables and Markdown for people and as CSV for programs; raw and hex output
/// are refused.
pub proof fn summaries_are_written_by_format(
    rows: &Vec<StatRow>,
    format: FrameFormat,
    r: Result<StatOutput, UnsupportedFormat>,
)
    requires
        call_ensures(crate::stat::write_stat, (rows, format), r),
    ensures
        r is Err <==> format == FrameFormat::Raw || format == FrameFormat::Hex,
        r is Ok && r->Ok_0 is JsonLines <==> format == FrameFormat::JsonLines,
        format == FrameFormat::Table ==> r->Ok_0 is Text && r->Ok_0->Text_0@
            == crate::output::table_text(
            crate::stat::stat_headers(),
            crate::stat::stat_aligns(),
            crate::stat::stat_grid(rows@, true),
        ),
        format == FrameFormat::Markdown ==> r->Ok_0 is Text && r->Ok_0->Text_0@
            == crate::output::markdown_text(
            crate::stat::stat_headers(),
            crate::stat::stat_aligns(),
            crate::stat::stat_grid(rows@, true),
        ),
        format == FrameFormat::Csv ==> r->Ok_0 is Text && r->Ok_0->Text_0@
            == crate::output::csv_table_text(
            crate::stat::stat_headers(),
            crate::stat::stat_grid(rows@, false),
        ),
{
}

/// A listing row takes each fact of its file under its own name: the first key as the first time, the
/// last as the last; a step for bars alone; hours from the sampled frames.
pub proof fn listing_rows_take_the_facts(
    file: String,
    stem: Option<&str>,
    facts: &FileFacts,
    rth: &Session,
    r: LsRow,
)
    requires
        call_ensures(crate::ls::ls_file, (file, stem, facts, rth), r),
    ensures
        r.file == file,
        facts.title@.len() > 0 ==> r.symbol@ == facts.title@,
        facts.title@.len() == 0 && stem is Some ==> r.symbol@ == stem->0@,
        facts.kind == InputKind::Tick ==> r.kind@ == "tick"@ && r.granularity is None,
        facts.kind == InputKind::Bar ==> r.kind@ == "bar"@,
        r.format@ == facts.format@,
        r.frame_count == facts.frame_count,
        r.bytes == facts.bytes,
        facts.first_key is None ==> r.first is None,
        facts.last_key is None ==> r.last is None,
        facts.first_key is Some ==> r.first == crate::ls::key_time(facts.first_key->0),
        facts.last_key is Some ==> r.last == crate::ls::key_time(facts.last_key->0),
        facts.kind == InputKind::Bar && r.granularity is Some ==> Some(r.granularity->0@)
            == crate::inspect::granularity_of(facts.times@),
        facts.times@.len() == 0 ==> r.hours@ == "n/a"@,
        facts.times@.len() > 0 ==> r.hours@ == crate::inspect::hours_label(facts.times@, rth@),
{
}

/// A listing is written in the format and the zone asked for.
pub proof fn listings_are_written_by_format(
    rows: &Vec<LsRow>,
    format: LsFormat,
    tz: &Zone,
    r: String,
)
    requires
        call_ensures(crate::ls::write_ls, (rows, format, tz), r),
    ensures
        format == LsFormat::JsonLines ==> r@ == crate::ls::json_lines(rows@, tz@),
        format == LsFormat::Table ==> r@ == crate::output::table_text(
            crate::ls::ls_headers(),
            crate::ls::ls_aligns(),
            crate::ls::ls_grid(rows@, tz@, true),
        ),
        format == LsFormat::Markdown ==> r@ == crate::output::markdown_text(
            crate::ls::ls_headers(),
            crate::ls::ls_aligns(),
            crate::ls::ls_grid(rows@, tz@, true),
        ),
        format == LsFormat::Csv ==> r@ == crate::output::csv_table_text(
            crate::ls::ls_headers(),
            crate::ls::ls_grid(rows@, tz@, false),
        ),
{
}

/// An inspection takes each fact of a header under its own name, and its step, hours and preview from
/// the frames.
pub proof fn inspections_take_the_facts(
    header: Header,
    frames: &Frames,
    rth: &Session,
    tz: &Zone,
    r: Inspection,
)
    requires
        call_ensures(crate::report::inspect_frames, (header, frames, rth, tz), r),
    ensures
        r.title == header.title,
        header.title@.len() > 0 ==> r.symbol@ == header.title@,
        frames is Ticks ==> r.kind == InputKind::Tick && r.granularity is None,
        frames is Bars ==> r.kind == InputKind::Bar,
        r.format == header.format,
        r.frame_type == header.frame_type,
        r.key_field_index == header.key_field_index,
        r.frame_count == header.frame_count,
        r.physical_bytes == header.physical_bytes,
        header.first is Some ==> r.first == crate::ls::key_time(header.first->0),
        header.last is Some ==> r.last == crate::ls::key_time(header.last->0),
        header.first is None ==> r.first is None,
        header.last is None ==> r.last is None,
        r.fields == header.fields,
        r.hours is Some <==> frames.times().len() > 0,
        r.preview@ == frames.preview(header.frame_count as int, tz@),
{
}

/// The times of sampled frames are those of the leading ones and then of the trailing ones.
pub proof fn sampled_times_run_from_the_lead(frames: Frames, k: int)
    requires
        0 <= k < frames.times().len(),
    ensures
        match frames {
            Frames::Ticks(lead, tail) => frames.times().len() == lead@.len() + tail@.len()
                && frames.times()[k] == (if k < lead@.len() {
                lead@[k].time
            } else {
                tail@[k - lead@.len()].time
            }),
            Frames::Bars(lead, tail) => frames.times().len() == lead@.len() + tail@.len()
                && frames.times()[k] == (if k < lead@.len() {
                lead@[k].time
            } else {
                tail@[k - lead@.len()].time
            }),
        },
{
}

/// Sampled windows lie at both ends of a file and do not overlap: the first from its start, the last
/// up to its end, each as long as asked where there is room.
pub proof fn sampled_windows_lie_at_both_ends(
    frame_count: u64,
    per_end: u64,
    r: (Range<u64>, Option<Range<u64>>),
)
    requires
        call_ensures(crate::inspect::sample_windows, (frame_count, per_end), r),
    ensures
        ({
            let (lead, tail) = r;
            &&& lead.start == 0
            &&& lead.end <= frame_count
            &&& lead.end <= per_end
            &&& tail is None <==> frame_count <= per_end
            &&& frame_count <= per_end ==> lead.end == frame_count
            &&& frame_count > per_end ==> lead.end == per_end && tail->0.end == frame_count
                && tail->0.start >= lead.end && tail->0.start < tail->0.end && tail->0.end
                - tail->0.start <= per_end || per_end == 0
            &&& frame_count >= 2 * per_end && frame_count > per_end ==> tail->0.end - tail->0.start
                == per_end
        }),
{
}

// ---- answers of the tools ----------------------------------------------------------------

/// The answers of the tools give each field of a row under its own name.
pub proof fn answers_give_fields_by_name(
    ls: LsRow,
    stat: StatRow,
    bar: &Bar,
    tz: &Zone,
    a: LsEntry,
    b: StatEntry,
    c: BarRow,
)
    requires
        call_ensures(LsEntry::new, (ls, tz), a),
        call_ensures(StatEntry::new, (stat, tz), b),
        call_ensures(BarRow::new, (bar, tz), c),
    ensures
        a.file == ls.file && a.symbol == ls.symbol && a.kind@ == ls.kind@ && a.format == ls.format,
        a.frame_count == ls.frame_count && a.bytes == ls.bytes && a.hours@ == ls.hours@,
        a.granularity == ls.granularity,
        a.first is Some <==> ls.first is Some,
        a.last is Some <==> ls.last is Some,
        a.first is Some ==> a.first->0@ == crate::table_laws::stamp_shown(ls.first, tz@),
        a.last is Some ==> a.last->0@ == crate::table_laws::stamp_shown(ls.last, tz@),
        b.symbol == stat.symbol && b.kind@ == stat.kind@ && b.format == stat.format,
        b.trades == stat.trades && b.volume == stat.volume && b.vwap == stat.vwap,
        b.min == stat.min,
        b.max == stat.max,
        b.first is Some <==> stat.first is Some,
        b.last is Some <==> stat.last is Some,
        b.first is Some ==> b.first->0@ == crate::table_laws::stamp_shown(stat.first, tz@),
        b.last is Some ==> b.last->0@ == crate::table_laws::stamp_shown(stat.last, tz@),
        c.time@ == crate::table_laws::stamp_shown(Some(bar.time), tz@),
        c.open == bar.open,
        c.high == bar.high,
        c.low == bar.low,
        c.close == bar.close,
        c.volume == bar.volume,
        c.vwap == bar.vwap,
        c.trades == bar.trades,
{
}

/// A tool's report of a file gives what its inspection found, and a verification its counts and
/// summary.
pub proof fn tool_reports_give_what_was_found(
    report: &Inspection,
    file: String,
    tz: &Zone,
    kind: InputKind,
    frame_count: u64,
    row: StatRow,
    a: InspectReport,
    b: VerifyReport,
)
    requires
        call_ensures(InspectReport::new, (report, file, tz), a),
        call_ensures(VerifyReport::new, (file, kind, frame_count, row, tz), b),
    ensures
        a.file == file && a.symbol@ == report.symbol@ && a.kind@ == report.kind.word(),
        a.format@ == report.format@ && a.frame_type@ == report.frame_type@,
        a.frame_count == report.frame_count && a.bytes == report.physical_bytes,
        a.first is Some <==> report.first is Some,
        a.last is Some <==> report.last is Some,
        a.first is Some ==> a.first->0@ == crate::table_laws::stamp_shown(report.first, tz@),
        a.last is Some ==> a.last->0@ == crate::table_laws::stamp_shown(report.last, tz@),
        a.preview@ == report.preview@,
        a.fields@.len() == report.fields@.len(),
        b.file == file && b.symbol@ == row.symbol@ && b.kind@ == kind.word() && b.status@ == "ok"@,
        b.frame_count == frame_count,
        b.data.min == row.min && b.data.max == row.max && b.data.trades == row.trades
            && b.data.volume == row.volume && b.data.vwap == row.vwap,
{
}

/// An answer says how many rows there were, how many it gives, and whether any are left out.
pub proof fn answers_say_what_is_left_out<T>(
    symbol: String,
    interval: Interval,
    tz: &Zone,
    total: usize,
    rows: Vec<T>,
    r: Series<T>,
)
    requires
        call_ensures(
            crate::mcp::server::series::<T>,
            (symbol, interval, tz, total, rows),
            r,
        ),
    ensures
        r.symbol == symbol,
        r.interval@ == interval.token(),
        r.total == total,
        r.returned == rows@.len(),
        r.rows == rows,
        r.truncated <==> r.returned < r.total,
        r.hint is Some <==> r.truncated,
{
}

/// A limit is at least one row and at most ten thousand, and a thousand where none is given.
pub proof fn limits_are_kept_in_range(limit: Option<usize>, r: usize)
    requires
        call_ensures(crate::mcp::server::clamp_limit, (limit,), r),
    ensures
        1 <= r <= 10_000,
        limit is None ==> r == 1_000,
        limit is Some && 1 <= limit->0 <= 10_000 ==> r == limit->0,
        limit is Some && limit->0 == 0 ==> r == 1,
        limit is Some && limit->0 > 10_000 ==> r == 10_000,
{
}

// ---- requests ----------------------------------------------------------------------------

/// A request reads the window it asks for, counts from its session, filters trades by it where regular
/// hours are asked for, never filters bars, and seeks a sidecar where one may stand for it.
pub proof fn requests_are_planned_as_asked(
    req: &BarRequest<'_>,
    kinds: &[InputKind],
    r: Result<BarPlan, MixedSources>,
)
    requires
        call_ensures(crate::feed::request_bars, (req, kinds), r),
        kinds@.len() <= usize::MAX,
    ensures
        r is Err <==> exists|i: int| 0 < i < kinds@.len() && #[trigger] kinds@[i] != kinds@[0],
        r is Ok ==> {
            let plan = r->Ok_0;
            let ticks = kinds@.len() > 0 && kinds@[0] == InputKind::Tick;
            &&& plan.query.start == req.start && plan.query.end == req.end
            &&& plan.sidecar_query.start == req.start && plan.sidecar_query.end == req.end
            &&& plan.sidecar_query.session is None
            &&& plan.query.session is Some <==> req.use_rth && ticks
            &&& plan.query.session is Some ==> plan.query.session->0@ == req.session@
            &&& plan.clock@ == crate::resample::ClockModel::Session(req.session@)
            &&& plan.seek_sidecar <==> req.prefer_sidecar && !req.fill && req.interval is Some
            &&& kinds@.len() > 0 ==> plan.kind == Some(kinds@[0])
        },
{
    crate::request_laws::sources_share_one_kind(kinds@);
    if r is Err {
        let index = crate::feed::shared_kind(kinds@)->Err_0.index as int;
        assert(kinds@[index] != kinds@[0]);
    }
}

/// A refresh trims the last stored bar, makes a file anew where there is none, and reads on from the
/// trimmed bar within the caller's own window.
pub proof fn refreshes_are_planned_from_what_is_stored(
    resume: Option<u32>,
    query: TickQuery,
    r: RefreshPlan,
)
    requires
        call_ensures(crate::sidecar::refresh_sidecar, (resume, query), r),
    ensures
        r.trim == resume,
        r.rebuilt <==> resume is None,
        r.scan.end == query.end,
        r.scan.session == query.session,
        resume is Some ==> r.scan.start is Some && r.scan.start->0 >= resume->0,
        query.start is Some ==> r.scan.start is Some && r.scan.start->0 >= query.start->0,
        resume is None ==> r.scan.start == query.start,
{
}

/// A refresh writes the bars from the trimmed one on: into a new file where it rebuilds, behind the
/// others where there are any, and not at all where there are none.
pub proof fn refreshes_write_the_bars_from_the_trimmed_one(
    plan: &RefreshPlan,
    bars: &Vec<Bar>,
    r: (SidecarWrite, Vec<Bar>),
)
    requires
        call_ensures(RefreshPlan::finish, (plan, bars), r),
    ensures
        plan.trim is None ==> r.1@ == bars@,
        plan.trim is Some ==> r.1@ == bars@.filter(|bar: Bar| bar.time >= plan.trim->0),
        r.0 is Create <==> plan.rebuilt,
        r.0 is Append <==> !plan.rebuilt && r.1@.len() > 0,
{
    crate::request_laws::refreshed_bars_are_kept_from_the_dropped_one(
        bars@,
        if plan.trim is Some {
            plan.trim->0
        } else {
            0
        },
    );
}

/// The outcome of a refresh counts what was written, and with it what was left of the file.
pub proof fn outcomes_count_what_was_written(
    plan: &RefreshPlan,
    symbol: String,
    path: String,
    left: u64,
    left_last: Option<u32>,
    written: &Vec<Bar>,
    r: RefreshOutcome,
)
    requires
        call_ensures(RefreshPlan::outcome, (plan, symbol, path, left, left_last, written), r),
    ensures
        r.symbol == symbol && r.path == path,
        r.appended == written@.len(),
        r.rebuilt == plan.rebuilt,
        plan.rebuilt ==> r.total == r.appended,
        !plan.rebuilt ==> r.total == left + r.appended,
        written@.len() > 0 ==> r.last_time == Some(written@[written@.len() - 1].time),
        written@.len() == 0 && !plan.rebuilt ==> r.last_time == left_last,
{
}

/// Resampling trades on a clock without filling makes one bar of each run of trades, one run after
/// another.
pub proof fn resampled_bars_are_of_consecutive_trades(
    ticks: &[Tick],
    interval: Interval,
    clock: &BarClock,
    r: Vec<Bar>,
)
    requires
        call_ensures(crate::resample::resample, (ticks, interval, false, clock), r),
        interval.valid(),
        crate::bar_laws::fit_bars(ticks@),
    ensures
        exists|cuts: Seq<int>|
            #[trigger] crate::bar_laws::cut_at(clock@, interval.anchoring(), ticks@, r@, cuts),
{
    assert(crate::resample::counts(interval.anchoring())) by {
        let n = interval.units();
        assert(1 <= n <= 100_000);
        assert((n * 60) as u32 == n * 60 && (n * 3_600) as u32 == n * 3_600);
    }
    crate::bar_laws::bars_are_of_consecutive_trades(clock@, interval.anchoring(), ticks@);
}

/// Retries go on for the seconds given, forever below zero; commits come at their interval, after
/// every batch at zero and only at the end below it; a download resumes one second past its last trade.
pub proof fn downloads_keep_their_times(
    limit: i64,
    elapsed: u64,
    last: u32,
    retry: bool,
    commit: bool,
    resume: Option<u32>,
)
    requires
        call_ensures(crate::download::may_retry, (limit, elapsed), retry),
        call_ensures(crate::download::commit_due, (limit, elapsed), commit),
        call_ensures(crate::download::resume_at, (last,), resume),
    ensures
        limit < 0 ==> retry && !commit,
        limit == 0 ==> !retry && commit,
        limit > 0 ==> (retry <==> elapsed < limit) && (commit <==> elapsed >= limit),
        last < u32::MAX ==> resume == Some((last + 1) as u32),
        last == u32::MAX ==> resume is None,
{
}

/// A quantile lies between two neighbours of a sorted list: so many quarters of the way from the first
/// to the last.
pub proof fn quantiles_lie_between_neighbours(
    n: usize,
    quarters: usize,
    r: (usize, usize, usize),
)
    requires
        call_ensures(crate::summary::quantile_position, (n, quarters), r),
        n >= 1,
        quarters <= 4,
    ensures
        ({
            let (low, high, rest) = r;
            &&& low <= high < n
            &&& high <= low + 1
            &&& 4 * low + rest == quarters * (n - 1)
            &&& quarters == 0 ==> low == 0 && high == 0
            &&& quarters == 4 ==> low == n - 1 && high == n - 1
            &&& quarters == 2 && n % 2 == 1 ==> low == (n - 1) / 2 && high == low
        }),
{
    let m = n - 1;
    let q = quarters as int;
    assert(q == 0 ==> q * m == 0) by (nonlinear_arith);
    assert(q == 2 ==> q * m == 2 * m) by (nonlinear_arith);
    assert(q == 4 ==> q * m == 4 * m) by (nonlinear_arith);
}

} // verus!
