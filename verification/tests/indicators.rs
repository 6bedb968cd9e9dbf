use mdfwob::calc::{
    parse_period, parse_spec, parse_streaming_spec, summarize, Average, BuiltIn, Calc, Cell, Dema,
    DemaStep, Ema, EmaStep, OuterStep, ReturnMethod, ReturnPair, Returns, Rsi, RsiStep, Sma, SpecError,
    Volatility, VolumeEma, VolumeSma,
};
use mdfwob::model::{Bar, Vwap};

/// Bars at whole prices, in price units.
fn bars_from_closes(closes: &[u32]) -> Vec<Bar> {
    closes
        .iter()
        .enumerate()
        .map(|(i, &c)| Bar {
            time: i as u32 * 60,
            open: c,
            high: c,
            low: c,
            close: c,
            volume: 0,
            vwap: Vwap::Price(c),
            trades: 0,
        })
        .collect()
}

fn mean(average: Option<Average>) -> Option<f64> {
    average.map(|a| a.sum as f64 / a.count as f64 / 10_000.0)
}

#[test]
fn sma_matches_manual() {
    let bars = bars_from_closes(&[10_000, 20_000, 30_000, 40_000]);
    let out: Vec<Option<f64>> = Sma { period: 2 }.compute(&bars).into_iter().map(mean).collect();
    assert_eq!(out, vec![None, Some(1.5), Some(2.5), Some(3.5)]);
}

#[test]
fn returns_first_is_none() {
    let bars = bars_from_closes(&[100_000, 110_000]);
    let out = Returns { method: ReturnMethod::Simple }.compute(&bars);
    assert_eq!(out[0], None);
    let pair = out[1].unwrap();
    let value = (pair.cur as f64 - pair.prev as f64) / pair.prev as f64;
    assert!((value - 0.1).abs() < 1e-9);
}

#[test]
fn rsi_all_gains_is_100() {
    let bars = bars_from_closes(&[10_000, 20_000, 30_000, 40_000, 50_000]);
    let out = Rsi { period: 2 }.compute(&bars);
    assert_eq!(out[0], RsiStep::Warming);
    assert_eq!(out[1], RsiStep::Warming);
    // Without a loss the index is 100.
    match out[2] {
        RsiStep::Seed { gains, losses, count } => {
            assert_eq!((gains, losses, count), (20_000, 0, 2));
        }
        other => panic!("expected the first value, got {other:?}"),
    }
}

#[test]
fn volume_moving_averages_run_on_volume() {
    let bars: Vec<Bar> = [10i64, 20, 30, 40]
        .into_iter()
        .enumerate()
        .map(|(i, v)| Bar {
            time: i as u32 * 60,
            open: 10_000,
            high: 10_000,
            low: 10_000,
            close: 10_000,
            volume: v,
            vwap: Vwap::Price(10_000),
            trades: 0,
        })
        .collect();
    let sma = VolumeSma { period: 2 };
    assert_eq!(sma.name(), "vsma_2");
    assert_eq!(BuiltIn::VolumeSma(sma).decimals(), 0);
    let out: Vec<Option<f64>> = sma
        .compute(&bars)
        .into_iter()
        .map(|a| a.map(|a| a.sum as f64 / a.count as f64))
        .collect();
    assert_eq!(out, vec![None, Some(15.0), Some(25.0), Some(35.0)]);
    // EMA of volume warms up to the 2-bar SMA at index 1, then tracks.
    let ema = VolumeEma { period: 2 };
    assert_eq!(ema.name(), "vema_2");
    let out = ema.compute(&bars);
    assert_eq!(out[0], EmaStep::Warming);
    match out[1] {
        EmaStep::Seed(a) => assert_eq!(a.sum as f64 / a.count as f64, 15.0),
        other => panic!("expected the seed, got {other:?}"),
    }
    assert!(matches!(out[3], EmaStep::Smooth(40)));
}

/// The values of an exponential moving average over its steps.
fn ema_values(steps: &[EmaStep], period: usize) -> Vec<Option<f64>> {
    let alpha = 2.0 / (period as f64 + 1.0);
    let mut last = None;
    steps
        .iter()
        .map(|step| {
            last = match step {
                EmaStep::Warming => None,
                EmaStep::Seed(a) => Some(a.sum as f64 / a.count as f64 / 10_000.0),
                EmaStep::Smooth(v) => {
                    last.map(|e: f64| alpha * (*v as f64 / 10_000.0) + (1.0 - alpha) * e)
                }
            };
            last
        })
        .collect()
}

/// The values of a double exponential moving average over its steps.
fn dema_values(steps: &[DemaStep], period: usize) -> Vec<Option<f64>> {
    let alpha = 2.0 / (period as f64 + 1.0);
    let inner: Vec<EmaStep> = steps.iter().map(|s| s.inner).collect();
    let inner = ema_values(&inner, period);
    let mut gathered: Vec<f64> = Vec::new();
    let mut last = None;
    steps
        .iter()
        .zip(inner)
        .map(|(step, e)| {
            match step.outer {
                OuterStep::Idle => {}
                OuterStep::Gather => gathered.push(e.unwrap()),
                OuterStep::Seed => {
                    gathered.push(e.unwrap());
                    last = Some(gathered.iter().sum::<f64>() / gathered.len() as f64);
                }
                OuterStep::Smooth => {
                    last = last.map(|o: f64| alpha * e.unwrap() + (1.0 - alpha) * o);
                }
            }
            last.map(|o| 2.0 * e.unwrap() - o)
        })
        .collect()
}

#[test]
fn dema_reduces_lag_versus_ema() {
    // On a steady ramp, DEMA tracks closer to the latest value than EMA (less lag).
    let closes: Vec<u32> = (0..30).map(|i| 1_000_000 + 10_000 * i).collect();
    let bars = bars_from_closes(&closes);
    assert_eq!(Dema { period: 5 }.name(), "dema_5");
    let ema = ema_values(&Ema { period: 5 }.compute(&bars), 5);
    let dema = dema_values(&Dema { period: 5 }.compute(&bars), 5);
    let last = bars.len() - 1;
    let price = bars[last].close as f64 / 10_000.0;
    let ema_lag = price - ema[last].unwrap();
    let dema_lag = price - dema[last].unwrap();
    assert!(
        dema_lag.abs() < ema_lag.abs(),
        "expected DEMA to lag less: dema_lag={dema_lag}, ema_lag={ema_lag}"
    );
    // Warm-up: DEMA needs 2*(N-1) bars before its first value.
    assert!(dema[2 * (5 - 1) - 1].is_none());
    assert!(dema[2 * (5 - 1)].is_some());
}

#[test]
fn parse_spec_classifies() {
    assert!(parse_spec("sma:20").unwrap().is_ok());
    assert!(parse_spec("dema:20").unwrap().is_ok());
    assert!(parse_spec("vsma:20").unwrap().is_ok());
    assert!(parse_spec("vema:20").unwrap().is_ok());
    assert!(parse_spec("vdema:20").unwrap().is_ok());
    assert!(parse_spec("ret:log").unwrap().is_ok());
    assert!(parse_spec("vol:0").unwrap().is_err());
    assert!(parse_spec("csv").is_none());
    // A Windows-style path with a drive-letter colon must not be a spec.
    assert!(parse_spec("C:/data/AAPL.fwob").is_none());
    assert!(parse_spec(r"C:\data\AAPL.fwob").is_none());
}

#[test]
fn each_bad_spec_is_told_apart() {
    assert_eq!(parse_spec("sma:x").unwrap().unwrap_err(), SpecError::NotInteger);
    assert_eq!(parse_spec("sma:0").unwrap().unwrap_err(), SpecError::ZeroPeriod);
    assert_eq!(parse_spec("ret:cubic").unwrap().unwrap_err(), SpecError::BadMethod);
    assert_eq!(parse_period("20"), Ok(20));
}

#[test]
fn summaries_cover_every_return() {
    let bars = bars_from_closes(&[1_000_000, 1_010_000, 1_000_000, 1_020_000]);
    let series = summarize(&bars, ReturnMethod::Log).unwrap();
    assert_eq!(series.pairs.len(), 3);
    assert_eq!(series.pairs[2], ReturnPair { prev: 1_000_000, cur: 1_020_000 });
    assert!(summarize(&bars[..1], ReturnMethod::Log).is_none());
}

/// A non-trivial price/volume path with trend, reversals, and flats, for equivalence tests.
fn synthetic_bars(n: usize) -> Vec<Bar> {
    (0..n)
        .map(|i| {
            let x = i as f64;
            let c = 100.0 + 10.0 * (x * 0.15).sin() + 0.05 * x - 3.0 * (x * 0.4).cos();
            let c = (c * 10_000.0) as u32;
            Bar {
                time: i as u32 * 60,
                open: c,
                high: c,
                low: c,
                close: c,
                volume: 1000 + (i as i64 * 37) % 500,
                vwap: Vwap::Price(c),
                trades: 1,
            }
        })
        .collect()
}

/// Every streaming indicator must be identical to its batch counterpart, so row-by-row `calc` output
/// matches the buffered path exactly.
#[test]
fn streaming_matches_batch() {
    let bars = synthetic_bars(200);
    let specs = [
        "sma:5",
        "ema:5",
        "dema:4",
        "vsma:3",
        "vema:3",
        "vdema:3",
        "rsi:14",
        "vol:10",
        "ret:log",
        "ret:simple",
    ];
    for spec in specs {
        let batch = parse_spec(spec).unwrap().unwrap();
        let mut stream = parse_streaming_spec(spec).unwrap().unwrap();
        assert_eq!(batch.name(), stream.name(), "{spec}: name");
        assert_eq!(batch.decimals(), stream.decimals(), "{spec}: decimals");
        let batch_values = batch.compute(&bars);
        let online: Vec<Cell> = bars.iter().map(|b| stream.update(b)).collect();
        assert_eq!(batch_values.len(), online.len(), "{spec}: length");
        for (i, (b, o)) in batch_values.iter().zip(&online).enumerate() {
            assert_eq!(format!("{b:?}"), format!("{o:?}"), "{spec}[{i}]");
        }
    }
}

#[test]
fn a_table_has_one_column_per_indicator() {
    let bars = bars_from_closes(&[10_000, 20_000, 30_000]);
    let out = Calc::new(&bars)
        .with(BuiltIn::Sma(Sma { period: 2 }))
        .with(BuiltIn::Volatility(Volatility { period: 2 }))
        .run();
    assert_eq!(out.columns.len(), 2);
    assert_eq!(out.columns[0].name, "sma_2");
    assert_eq!(out.columns[0].decimals, 4);
    assert_eq!(out.columns[1].name, "vol_2");
    assert_eq!(out.columns[1].decimals, 8);
    match &out.columns[1].values[2] {
        Cell::Volatility(Some(window)) => assert_eq!(window, &vec![10_000, 20_000, 30_000]),
        other => panic!("expected a window, got {other:?}"),
    }
    assert!(matches!(out.columns[1].values[1], Cell::Volatility(None)));
}
