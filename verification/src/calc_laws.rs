//! What the cells of the indicators say of the bars they stand beside.
use vstd::prelude::*;

use crate::calc::{
    Average, BuiltIn, Cell, Dema, Ema, EmaStep, OuterStep, ReturnMethod, Returns, Rsi, RsiStep, Sma,
    SpecError, Volatility, VolumeDema, VolumeEma, VolumeSma,
};
use crate::model::Bar;

verus! {

// ---- strength index ----------------------------------------------------------------------

/// How far closes travel over the first `n` changes, up and down together.
pub open spec fn travelled(bars: Seq<Bar>, n: int) -> int
    decreases n,
{
    if n <= 0 {
        0
    } else {
        let (a, b) = (bars[n - 1].close as int, bars[n].close as int);
        travelled(bars, n - 1) + if a < b {
            b - a
        } else {
            a - b
        }
    }
}

proof fn lemma_gains(bars: Seq<Bar>, n: int)
    requires
        0 <= n < bars.len(),
    ensures
        ({
            let closes = crate::calc::closes_of(bars);
            let (gains, losses) = (
                crate::calc::gain_sum(closes, n),
                crate::calc::loss_sum(closes, n),
            );
            &&& gains - losses == bars[n].close - bars[0].close
            &&& gains + losses == travelled(bars, n)
            &&& 0 <= gains <= 0xffff_ffff * n
            &&& 0 <= losses <= 0xffff_ffff * n
        }),
    decreases n,
{
    if n > 0 {
        lemma_gains(bars, n - 1);
        let closes = crate::calc::closes_of(bars);
        assert(closes[n] == bars[n].close && closes[n - 1] == bars[n - 1].close);
    }
}

/// A strength index has no value during the first `period` changes. It then starts from the gains and
/// losses of just those changes: their difference is how far the close has come, their sum how far it
/// has travelled. After that each cell takes in the change from the close before it, a rise as gain
/// alone and a fall as loss alone.
pub proof fn rises_are_gains_and_falls_are_losses(cell: Cell, period: usize, bars: Seq<Bar>, i: int)
    requires
        0 <= i < bars.len(),
        crate::calc::is_cell(cell, BuiltIn::Rsi(Rsi { period }), bars, i),
    ensures
        cell is Rsi,
        match cell->Rsi_0 {
            RsiStep::Warming => period == 0 || i < period,
            RsiStep::Seed { gains, losses, count } => {
                &&& period > 0
                &&& i == period
                &&& count == period
                &&& gains - losses == bars[i].close - bars[0].close
                &&& gains + losses == travelled(bars, i)
            },
            RsiStep::Smooth { gain, loss } => {
                &&& period > 0
                &&& i > period
                &&& gain - loss == bars[i].close - bars[i - 1].close
                &&& gain == 0 || loss == 0
                &&& bars[i].close > bars[i - 1].close ==> gain > 0 && loss == 0
                &&& bars[i].close < bars[i - 1].close ==> loss > 0 && gain == 0
            },
        },
{
    let closes = crate::calc::closes_of(bars);
    assert(closes[i] == bars[i].close);
    if i > 0 {
        assert(closes[i - 1] == bars[i - 1].close);
    }
    if i == period {
        lemma_gains(bars, i);
        assert(0xffff_ffff * i <= u128::MAX) by (nonlinear_arith)
            requires
                0 <= i <= usize::MAX,
        ;
    }
}

// ---- returns and volatility --------------------------------------------------------------

/// A return is taken from the close of the bar before to the close of its own bar; the first bar has
/// none.
pub proof fn returns_go_from_one_close_to_the_next(
    cell: Cell,
    method: ReturnMethod,
    bars: Seq<Bar>,
    i: int,
)
    requires
        0 <= i < bars.len(),
        crate::calc::is_cell(cell, BuiltIn::Returns(Returns { method }), bars, i),
    ensures
        cell is Return,
        cell->Return_0 is Some <==> i > 0,
        i > 0 ==> cell->Return_0->0.prev == bars[i - 1].close && cell->Return_0->0.cur
            == bars[i].close,
{
}

/// A volatility is taken over the last `period` returns, so over the closes of one bar more, in
/// order. It needs two returns.
pub proof fn volatility_is_over_the_last_returns(
    cell: Cell,
    period: usize,
    bars: Seq<Bar>,
    i: int,
)
    requires
        0 <= i < bars.len(),
        crate::calc::is_cell(cell, BuiltIn::Volatility(Volatility { period }), bars, i),
    ensures
        cell is Volatility,
        cell->Volatility_0 is Some <==> period >= 2 && i >= period,
        cell->Volatility_0 is Some ==> ({
            let closes = cell->Volatility_0->0@;
            &&& closes.len() == period + 1
            &&& closes.last() == bars[i].close
            &&& forall|k: int|
                0 <= k <= period ==> #[trigger] closes[k] == bars[i - period + k].close
        }),
{
}

// ---- moving averages ---------------------------------------------------------------------

/// The closes of bars, added up.
pub open spec fn close_total(bars: Seq<Bar>) -> int {
    bars.fold_left(0int, |sum: int, bar: Bar| sum + bar.close)
}

/// The volumes of bars, added up.
pub open spec fn volume_total(bars: Seq<Bar>) -> int {
    bars.fold_left(0int, |sum: int, bar: Bar| sum + bar.volume)
}

/// Whether an average is that of the bars from `from` up to `to`: their sum, and how many they are.
pub open spec fn averages(
    average: Average,
    volumes: bool,
    bars: Seq<Bar>,
    from: int,
    to: int,
) -> bool {
    &&& average.count == to - from
    &&& average.sum == if volumes {
        volume_total(bars.subrange(from, to))
    } else {
        close_total(bars.subrange(from, to))
    }
}

proof fn lemma_totals(bars: Seq<Bar>)
    ensures
        crate::calc::sum_of(crate::calc::values_of(crate::calc::Source::Close, bars))
            == close_total(bars),
        crate::calc::sum_of(crate::calc::values_of(crate::calc::Source::Volume, bars))
            == volume_total(bars),
        -0x8000_0000_0000_0000 * bars.len() <= close_total(bars) <= 0x7fff_ffff_ffff_ffff
            * bars.len(),
        -0x8000_0000_0000_0000 * bars.len() <= volume_total(bars) <= 0x7fff_ffff_ffff_ffff
            * bars.len(),
    decreases bars.len(),
{
    if bars.len() > 0 {
        let init = bars.drop_last();
        lemma_totals(init);
        let closes = crate::calc::values_of(crate::calc::Source::Close, bars);
        let volumes = crate::calc::values_of(crate::calc::Source::Volume, bars);
        assert(closes.drop_last() =~= crate::calc::values_of(crate::calc::Source::Close, init));
        assert(volumes.drop_last() =~= crate::calc::values_of(crate::calc::Source::Volume, init));
        assert(closes.last() == bars.last().close);
        assert(volumes.last() == bars.last().volume);
    }
}

proof fn lemma_window(bars: Seq<Bar>, from: int, to: int)
    requires
        0 <= from <= to <= bars.len(),
        to - from <= usize::MAX,
    ensures
        crate::calc::sum_of(
            crate::calc::values_of(crate::calc::Source::Close, bars).subrange(from, to),
        ) as i128 == close_total(bars.subrange(from, to)),
        crate::calc::sum_of(
            crate::calc::values_of(crate::calc::Source::Volume, bars).subrange(from, to),
        ) as i128 == volume_total(bars.subrange(from, to)),
{
    let window = bars.subrange(from, to);
    lemma_totals(window);
    assert(crate::calc::values_of(crate::calc::Source::Close, bars).subrange(from, to)
        =~= crate::calc::values_of(crate::calc::Source::Close, window));
    assert(crate::calc::values_of(crate::calc::Source::Volume, bars).subrange(from, to)
        =~= crate::calc::values_of(crate::calc::Source::Volume, window));
    let n = window.len() as int;
    assert(-0x8000_0000_0000_0000 * n >= i128::MIN && 0x7fff_ffff_ffff_ffff * n <= i128::MAX)
        by (nonlinear_arith)
        requires
            0 <= n <= 0xffff_ffff_ffff_ffff,
    ;
}

/// A simple moving average is that of the last `period` bars, its own the last of them, once there
/// are so many: of their closes, or of their volumes.
pub proof fn simple_averages_are_of_the_last_bars(
    cell: Cell,
    period: usize,
    volumes: bool,
    bars: Seq<Bar>,
    i: int,
)
    requires
        0 <= i < bars.len(),
        crate::calc::is_cell(
            cell,
            if volumes {
                BuiltIn::VolumeSma(VolumeSma { period })
            } else {
                BuiltIn::Sma(Sma { period })
            },
            bars,
            i,
        ),
    ensures
        cell is Average,
        cell->Average_0 is Some <==> period > 0 && i + 1 >= period,
        cell->Average_0 is Some ==> averages(
            cell->Average_0->0,
            volumes,
            bars,
            i + 1 - period,
            i + 1,
        ),
{
    if period > 0 && i + 1 >= period {
        lemma_window(bars, i + 1 - period, i + 1);
    }
}

/// Whether a step is the one of an exponential average over bars: it starts at bar `period - 1` from
/// the average of the bars so far, and then moves towards each bar's own value.
pub open spec fn smooths(
    step: EmaStep,
    period: usize,
    volumes: bool,
    bars: Seq<Bar>,
    i: int,
) -> bool {
    match step {
        EmaStep::Warming => period == 0 || i + 1 < period,
        EmaStep::Seed(average) => period > 0 && i + 1 == period && averages(
            average,
            volumes,
            bars,
            0,
            i + 1,
        ),
        EmaStep::Smooth(value) => period > 0 && i + 1 > period && value == if volumes {
            bars[i].volume as int
        } else {
            bars[i].close as int
        },
    }
}

proof fn lemma_ema(period: usize, bars: Seq<Bar>, i: int)
    requires
        0 <= i < bars.len(),
    ensures
        smooths(
            crate::calc::ema_at(
                crate::calc::values_of(crate::calc::Source::Close, bars),
                period as int,
                i,
            ),
            period,
            false,
            bars,
            i,
        ),
        smooths(
            crate::calc::ema_at(
                crate::calc::values_of(crate::calc::Source::Volume, bars),
                period as int,
                i,
            ),
            period,
            true,
            bars,
            i,
        ),
{
    if period > 0 && i + 1 == period {
        lemma_window(bars, 0, i + 1);
        let closes = crate::calc::values_of(crate::calc::Source::Close, bars);
        let volumes = crate::calc::values_of(crate::calc::Source::Volume, bars);
        assert(closes.take(period as int) =~= closes.subrange(0, i + 1));
        assert(volumes.take(period as int) =~= volumes.subrange(0, i + 1));
    }
}

/// An exponential average starts as the simple average of the first `period` bars, and then moves
/// towards the value of each: of closes, or of volumes.
pub proof fn exponential_averages_start_simple(
    cell: Cell,
    period: usize,
    volumes: bool,
    bars: Seq<Bar>,
    i: int,
)
    requires
        0 <= i < bars.len(),
        crate::calc::is_cell(
            cell,
            if volumes {
                BuiltIn::VolumeEma(VolumeEma { period })
            } else {
                BuiltIn::Ema(Ema { period })
            },
            bars,
            i,
        ),
    ensures
        cell is Ema,
        smooths(cell->Ema_0, period, volumes, bars, i),
{
    lemma_ema(period, bars, i);
}

/// A double exponential average takes an exponential average of the inner one's values, from the
/// first of them on: it gathers `period` of them, starts with the last of those, and then moves.
pub proof fn double_averages_smooth_twice(
    cell: Cell,
    period: usize,
    volumes: bool,
    bars: Seq<Bar>,
    i: int,
)
    requires
        0 <= i < bars.len(),
        crate::calc::is_cell(
            cell,
            if volumes {
                BuiltIn::VolumeDema(VolumeDema { period })
            } else {
                BuiltIn::Dema(Dema { period })
            },
            bars,
            i,
        ),
    ensures
        cell is Dema,
        smooths(cell->Dema_0.inner, period, volumes, bars, i),
        cell->Dema_0.outer is Idle <==> cell->Dema_0.inner is Warming,
        match cell->Dema_0.outer {
            OuterStep::Idle => period == 0 || i + 1 < period,
            OuterStep::Gather => period <= i + 1 < 2 * period - 1,
            OuterStep::Seed => i + 1 == 2 * period - 1,
            OuterStep::Smooth => period > 0 && i + 1 > 2 * period - 1,
        },
{
    lemma_ema(period, bars, i);
}

// ---- specs and columns -------------------------------------------------------------------

proof fn lemma_colon(kind: Seq<char>, arg: Seq<char>)
    requires
        forall|k: int| 0 <= k < kind.len() ==> kind[k] != ':',
    ensures
        crate::calc::first_colon(kind.push(':') + arg) == Some(kind.len() as int),
    decreases arg.len(),
{
    let token = kind.push(':') + arg;
    if arg.len() > 0 {
        lemma_colon(kind, arg.drop_last());
        assert(token.drop_last() =~= kind.push(':') + arg.drop_last());
    } else {
        assert(token =~= kind.push(':'));
        assert(token.drop_last() =~= kind);
        lemma_no_colon(kind);
    }
}

proof fn lemma_no_colon(text: Seq<char>)
    requires
        forall|k: int| 0 <= k < text.len() ==> text[k] != ':',
    ensures
        crate::calc::first_colon(text) is None,
    decreases text.len(),
{
    if text.len() > 0 {
        let init = text.drop_last();
        assert forall|k: int| 0 <= k < init.len() implies init[k] != ':' by {
            assert(init[k] == text[k]);
        }
        lemma_no_colon(init);
    }
}

/// Whether a token asks for an indicator and its column is named after it: `kind:arg` makes the
/// column `kind_arg`.
pub open spec fn asks_for(kind: Seq<char>, arg: Seq<char>, indicator: BuiltIn) -> bool {
    &&& crate::calc::spec_meaning(kind.push(':') + arg) == Some(
        Ok::<BuiltIn, SpecError>(indicator),
    )
    &&& indicator.column() == kind.push('_') + arg
}

proof fn lemma_asks(kind: Seq<char>, arg: Seq<char>)
    requires
        crate::calc::is_kind(kind),
        forall|k: int| 0 <= k < kind.len() ==> kind[k] != ':',
    ensures
        crate::calc::spec_meaning(kind.push(':') + arg) == Some(
            crate::calc::indicator_of(kind, arg),
        ),
{
    lemma_colon(kind, arg);
    let token = kind.push(':') + arg;
    assert(token.take(kind.len() as int) =~= kind);
    assert(token.skip(kind.len() as int + 1) =~= arg);
}

proof fn lemma_period(period: usize)
    requires
        period > 0,
    ensures
        crate::calc::period_of(crate::text::decimal(period as nat)) == Ok::<usize, SpecError>(
            period,
        ),
{
    let digits = crate::text::decimal(period as nat);
    crate::text::lemma_decimal_digits(period as nat);
    crate::text::decimal_round_trip(period as nat);
    assert(crate::text::is_digit(digits[0]));
}

/// The specs name their indicators, for every period: `sma:20` is the simple average over twenty bars
/// and makes the column `sma_20`, and so on for each kind.
pub proof fn specs_name_their_indicators(period: usize)
    requires
        period > 0,
    ensures
        ({
            let n = crate::text::decimal(period as nat);
            &&& asks_for("sma"@, n, BuiltIn::Sma(Sma { period }))
            &&& asks_for("ema"@, n, BuiltIn::Ema(Ema { period }))
            &&& asks_for("dema"@, n, BuiltIn::Dema(Dema { period }))
            &&& asks_for("vsma"@, n, BuiltIn::VolumeSma(VolumeSma { period }))
            &&& asks_for("vema"@, n, BuiltIn::VolumeEma(VolumeEma { period }))
            &&& asks_for("vdema"@, n, BuiltIn::VolumeDema(VolumeDema { period }))
            &&& asks_for("rsi"@, n, BuiltIn::Rsi(Rsi { period }))
            &&& asks_for("vol"@, n, BuiltIn::Volatility(Volatility { period }))
        }),
        asks_for("ret"@, "log"@, BuiltIn::Returns(Returns { method: ReturnMethod::Log })),
        asks_for("ret"@, "simple"@, BuiltIn::Returns(Returns { method: ReturnMethod::Simple })),
{
    let n = crate::text::decimal(period as nat);
    lemma_period(period);
    reveal_strlit("sma");
    reveal_strlit("ema");
    reveal_strlit("dema");
    reveal_strlit("vsma");
    reveal_strlit("vema");
    reveal_strlit("vdema");
    reveal_strlit("rsi");
    reveal_strlit("vol");
    reveal_strlit("ret");
    reveal_strlit("log");
    reveal_strlit("simple");
    reveal_strlit("sma_");
    reveal_strlit("ema_");
    reveal_strlit("dema_");
    reveal_strlit("vsma_");
    reveal_strlit("vema_");
    reveal_strlit("vdema_");
    reveal_strlit("rsi_");
    reveal_strlit("vol_");
    reveal_strlit("ret_log");
    reveal_strlit("ret_simple");
    assert("sma"@ != "ret"@ && "ema"@ != "ret"@ && "rsi"@ != "ret"@ && "vol"@ != "ret"@) by {
        assert("ret"@[0] == 'r' && "ret"@[1] == 'e');
        assert("sma"@[0] == 's' && "ema"@[0] == 'e' && "rsi"@[1] == 's' && "vol"@[0] == 'v');
    }
    assert("sma"@ != "ema"@ && "sma"@ != "rsi"@ && "sma"@ != "vol"@) by {
        assert("sma"@[0] == 's' && "ema"@[0] == 'e' && "rsi"@[0] == 'r' && "vol"@[0] == 'v');
    }
    assert("ema"@ != "rsi"@ && "ema"@ != "vol"@ && "rsi"@ != "vol"@) by {
        assert("ema"@[0] == 'e' && "rsi"@[0] == 'r' && "vol"@[0] == 'v');
    }
    assert("dema"@ != "vsma"@ && "dema"@ != "vema"@ && "vsma"@ != "vema"@) by {
        assert("dema"@[0] == 'd' && "vsma"@[0] == 'v' && "vsma"@[1] == 's' && "vema"@[1] == 'e');
    }
    assert("sma"@.len() == 3 && "ema"@.len() == 3 && "dema"@.len() == 4 && "vsma"@.len() == 4
        && "vema"@.len() == 4 && "vdema"@.len() == 5 && "rsi"@.len() == 3 && "vol"@.len() == 3
        && "ret"@.len() == 3 && "log"@.len() == 3 && "simple"@.len() == 6);
    lemma_asks("sma"@, n);
    lemma_asks("ema"@, n);
    lemma_asks("dema"@, n);
    lemma_asks("vsma"@, n);
    lemma_asks("vema"@, n);
    lemma_asks("vdema"@, n);
    lemma_asks("rsi"@, n);
    lemma_asks("vol"@, n);
    lemma_asks("ret"@, "log"@);
    lemma_asks("ret"@, "simple"@);
    assert("sma_"@ =~= "sma"@.push('_'));
    assert("ema_"@ =~= "ema"@.push('_'));
    assert("dema_"@ =~= "dema"@.push('_'));
    assert("vsma_"@ =~= "vsma"@.push('_'));
    assert("vema_"@ =~= "vema"@.push('_'));
    assert("vdema_"@ =~= "vdema"@.push('_'));
    assert("rsi_"@ =~= "rsi"@.push('_'));
    assert("vol_"@ =~= "vol"@.push('_'));
    assert("ret_log"@ =~= "ret"@.push('_') + "log"@);
    assert("ret_simple"@ =~= "ret"@.push('_') + "simple"@);
}

/// Averages of prices and the strength index show four decimals, averages of volumes none, returns
/// and volatilities eight.
pub proof fn columns_have_their_decimals(indicator: BuiltIn)
    ensures
        indicator.precision() == match indicator {
            BuiltIn::VolumeSma(_) | BuiltIn::VolumeEma(_) | BuiltIn::VolumeDema(_) => 0,
            BuiltIn::Returns(_) | BuiltIn::Volatility(_) => 8int,
            _ => 4,
        },
{
}

/// A spec without a period, or with zero for one, is refused, whatever the kind; so is a return by
/// any other method than the two.
pub proof fn bad_specs_are_refused(kind: Seq<char>, arg: Seq<char>)
    requires
        crate::calc::is_kind(kind),
        forall|k: int| 0 <= k < kind.len() ==> kind[k] != ':',
    ensures
        kind != "ret"@ && arg == seq!['0'] ==> crate::calc::spec_meaning(kind.push(':') + arg)
            == Some(Err::<BuiltIn, SpecError>(SpecError::ZeroPeriod)),
        kind != "ret"@ && (exists|k: int| 0 < k < arg.len() && !crate::text::is_digit(arg[k]))
            ==> crate::calc::spec_meaning(kind.push(':') + arg) == Some(
            Err::<BuiltIn, SpecError>(SpecError::NotInteger),
        ),
        kind == "ret"@ && arg != "log"@ && arg != "simple"@ ==> crate::calc::spec_meaning(
            kind.push(':') + arg,
        ) == Some(Err::<BuiltIn, SpecError>(SpecError::BadMethod)),
{
    lemma_asks(kind, arg);
    if arg == seq!['0'] {
        reveal_with_fuel(crate::text::decimal_value, 3);
        assert(arg.drop_last() =~= Seq::<char>::empty());
        assert(crate::text::is_digit(arg[0]));
    }
    if exists|k: int| 0 < k < arg.len() && !crate::text::is_digit(arg[k]) {
        let k = choose|k: int| 0 < k < arg.len() && !crate::text::is_digit(arg[k]);
        if arg[0] == '+' {
            assert(arg.drop_first()[k - 1] == arg[k]);
        }
    }
}

} // verus!
