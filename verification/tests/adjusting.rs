use mdfwob::adjust::{
    adjust_bars, detect_splits, factors, ActionKind, ActionSpec, ActionTable, Adjuster, AdjustmentMode,
    CorporateAction, Number, Ratio, RowProblem, Scale, Step,
};
use mdfwob::civil::Zone;
use mdfwob::model::{Bar, Vwap};

const DAY: u32 = 86_400;

/// A bar at one price, given in whole price units.
fn bar(time: u32, close: u32, volume: i64) -> Bar {
    Bar {
        time,
        open: close,
        high: close,
        low: close,
        close,
        volume,
        vwap: Vwap::Price(close),
        trades: 1,
    }
}

fn ratio(num: u64, den: u64) -> Ratio {
    Ratio { num, den }
}

fn split(time: u32, num: u64, den: u64) -> CorporateAction {
    CorporateAction { time, kind: ActionKind::Split { ratio: ratio(num, den) } }
}

/// A bar's close after some steps.
fn close_of(bar: &Bar, steps: &[Step]) -> f64 {
    let factor = steps.iter().fold(1.0, |product, step| {
        let (num, den, _, _) = factors(*step);
        product * (num as f64 / den as f64)
    });
    f64::from(bar.close) / 10_000.0 * factor
}

/// A bar's volume in current shares.
fn volume_of(bar: &Bar, scale: Scale) -> i64 {
    (bar.volume as f64 * (scale.num as f64 / scale.den as f64)).round() as i64
}

fn adjusted(bars: &[Bar], actions: &[CorporateAction], mode: AdjustmentMode) -> Vec<(f64, i64)> {
    let adjustment = adjust_bars(bars, actions, mode);
    bars.iter()
        .enumerate()
        .map(|(i, bar)| {
            let scale = adjustment.scale(i).unwrap();
            let steps = &adjustment.steps[..adjustment.counts[i]];
            (close_of(bar, steps), volume_of(bar, scale))
        })
        .collect()
}

#[test]
fn a_split_makes_the_series_continuous() {
    // 100, 100, then a 4-for-1: 25, 25. Back-adjusted, every bar should read 25.
    let bars = vec![
        bar(DAY, 1_000_000, 400),
        bar(2 * DAY, 1_000_000, 400),
        bar(3 * DAY, 250_000, 1600),
        bar(4 * DAY, 250_000, 1600),
    ];
    for (close, volume) in adjusted(&bars, &[split(3 * DAY, 4, 1)], AdjustmentMode::SplitOnly) {
        assert!((close - 25.0).abs() < 1e-9, "close {}", close);
        assert_eq!(volume, 1600, "volume is scaled the other way");
    }
}

#[test]
fn the_ex_date_bar_is_left_alone() {
    let bars = vec![bar(DAY, 1_000_000, 100), bar(2 * DAY, 250_000, 400)];
    let out = adjusted(&bars, &[split(2 * DAY, 4, 1)], AdjustmentMode::SplitOnly);
    assert!((out[1].0 - 25.0).abs() < 1e-9, "already post-split");
    assert!((out[0].0 - 25.0).abs() < 1e-9, "pre-split scaled down");
}

#[test]
fn consecutive_splits_compose() {
    // 4-for-1 then 5-for-1 => everything before both is divided by 20.
    let bars = vec![
        bar(DAY, 2_000_000, 10),
        bar(2 * DAY, 500_000, 40),
        bar(3 * DAY, 100_000, 200),
    ];
    let actions = [split(2 * DAY, 4, 1), split(3 * DAY, 5, 1)];
    let out = adjusted(&bars, &actions, AdjustmentMode::SplitOnly);
    assert!((out[0].0 - 10.0).abs() < 1e-9, "200/20");
    assert!((out[1].0 - 10.0).abs() < 1e-9, "50/5");
    assert!((out[2].0 - 10.0).abs() < 1e-9);
    assert_eq!(out[0].1, 200);
}

#[test]
fn a_reverse_split_scales_prices_up() {
    let bars = vec![bar(DAY, 10_000, 1000), bar(2 * DAY, 100_000, 100)];
    let out = adjusted(&bars, &[split(2 * DAY, 1, 10)], AdjustmentMode::SplitOnly);
    assert!((out[0].0 - 10.0).abs() < 1e-9);
    assert_eq!(out[0].1, 100);
}

#[test]
fn dividends_apply_only_in_total_return_mode() {
    let actions = [CorporateAction {
        time: 2 * DAY,
        kind: ActionKind::CashDividend { amount: ratio(1, 1) },
    }];
    let bars = vec![bar(DAY, 1_000_000, 10), bar(2 * DAY, 990_000, 10)];

    let split_only = adjusted(&bars, &actions, AdjustmentMode::SplitOnly);
    assert!((split_only[0].0 - 100.0).abs() < 1e-9, "untouched");

    let total = adjusted(&bars, &actions, AdjustmentMode::TotalReturn);
    // factor = (100 - 1)/100 = 0.99
    assert!((total[0].0 - 99.0).abs() < 1e-9, "{}", total[0].0);
    assert_eq!(total[0].1, 10, "dividends do not touch volume");
}

#[test]
fn raw_mode_changes_nothing() {
    let bars = vec![bar(DAY, 1_000_000, 10), bar(2 * DAY, 250_000, 40)];
    let out = adjusted(&bars, &[split(2 * DAY, 4, 1)], AdjustmentMode::Raw);
    assert_eq!(out[0].0, 100.0);
    assert_eq!(out[0].1, 10);
}

#[test]
fn detect_splits_finds_forward_and_reverse_and_ignores_ordinary_moves() {
    let bars = vec![
        bar(DAY, 1_000_000, 10),
        bar(2 * DAY, 250_000, 40), // 4-for-1
        bar(3 * DAY, 200_000, 40), // -20%, an ordinary drop
        bar(4 * DAY, 2_000_000, 4), // 1-for-10 reverse
        bar(5 * DAY, 1_500_000, 4), // -25%, ordinary
    ];
    let found = detect_splits(&bars);
    assert_eq!(found.len(), 2, "{found:?}");
    match found[0].kind {
        ActionKind::Split { ratio } => assert_eq!(ratio.num, 4 * ratio.den),
        other => panic!("expected a split, got {other:?}"),
    }
    assert_eq!(found[1].time, 4 * DAY);
    match found[1].kind {
        ActionKind::Split { ratio } => assert_eq!(10 * ratio.num, ratio.den),
        other => panic!("expected a split, got {other:?}"),
    }
}

#[test]
fn a_crash_short_of_the_threshold_is_not_called_a_split() {
    // META fell 26% in a single session in Feb 2022; that must not read as a split.
    let bars = vec![bar(DAY, 3_230_000, 10), bar(2 * DAY, 2_377_600, 10)];
    assert!(detect_splits(&bars).is_empty());
}

fn whole(n: u64) -> Option<Number> {
    Some(Number { negative: false, num: n, den: 1 })
}

fn spec(date: &str, split: Option<Number>, dividend: Option<Number>) -> ActionSpec {
    ActionSpec { date: date.into(), split, dividend }
}

fn table(symbol: &str, rows: Vec<ActionSpec>) -> ActionTable {
    ActionTable::new().insert(symbol.into(), rows)
}

#[test]
fn a_table_is_looked_up_without_case() {
    let t = table("AAPL", vec![spec("2020-08-31", whole(4), None)]);
    assert!(!t.is_empty());
    assert_eq!(t.symbols(), vec!["AAPL".to_owned()]);
    let actions = t.resolve("aapl", &Zone::utc()).unwrap();
    assert_eq!(actions.len(), 1);
    assert_eq!(actions[0].kind, ActionKind::Split { ratio: ratio(4, 1) });
    assert_eq!(actions[0].time, 1_598_832_000);
}

#[test]
fn a_symbol_with_no_actions_resolves_to_nothing() {
    let t = table("AAPL", vec![spec("2020-08-31", whole(4), None)]);
    assert!(t.resolve("MSFT", &Zone::utc()).unwrap().is_empty());
}

#[test]
fn actions_are_returned_in_chronological_order() {
    let t = table(
        "X",
        vec![spec("2022-07-18", whole(20), None), spec("2020-08-31", whole(4), None)],
    );
    let actions = t.resolve("X", &Zone::utc()).unwrap();
    assert!(actions[0].time < actions[1].time);
}

#[test]
fn a_malformed_row_is_rejected_rather_than_guessed_at() {
    let both = table("X", vec![spec("2020-01-02", whole(4), whole(1))]);
    assert_eq!(both.resolve("X", &Zone::utc()).unwrap_err().problem, RowProblem::Both);

    let neither = table("X", vec![spec("2020-01-02", None, None)]);
    assert_eq!(neither.resolve("X", &Zone::utc()).unwrap_err().problem, RowProblem::Neither);

    let bad_date = table("X", vec![spec("not-a-date", whole(2), None)]);
    assert_eq!(bad_date.resolve("X", &Zone::utc()).unwrap_err().problem, RowProblem::BadDate);

    let bad_ratio = table("X", vec![spec("2020-01-02", whole(0), None)]);
    assert_eq!(bad_ratio.resolve("X", &Zone::utc()).unwrap_err().problem, RowProblem::BadRatio);

    let no_split = table("X", vec![spec("2020-01-02", whole(1), None)]);
    assert_eq!(no_split.resolve("X", &Zone::utc()).unwrap_err().problem, RowProblem::BadRatio);

    let bad_amount = table("X", vec![spec("2020-01-02", None, whole(0))]);
    assert_eq!(bad_amount.resolve("X", &Zone::utc()).unwrap_err().problem, RowProblem::BadAmount);

    let too_early = table("X", vec![spec("1960-01-02", whole(2), None)]);
    assert_eq!(too_early.resolve("X", &Zone::utc()).unwrap_err().problem, RowProblem::OutOfRange);
}

/// The streaming adjuster must agree with the buffered one bar for bar; otherwise the CLI and
/// a materialized-series consumer would quietly disagree about the same data.
#[test]
fn streaming_matches_the_buffered_adjustment() {
    let actions = [split(3 * DAY, 4, 1), split(6 * DAY, 5, 1)];
    let series: Vec<Bar> = (1..=8u32)
        .map(|i| bar(i * DAY, 1_000_000 + 10_000 * i, 100 * i as i64))
        .collect();

    let buffered = adjusted(&series, &actions, AdjustmentMode::SplitOnly);

    let mut adj = Adjuster::streaming(&actions, AdjustmentMode::SplitOnly).unwrap();
    let mut streamed = Vec::new();
    for b in &series {
        let count = adj.apply(b);
        let scale = adj.scale(count).unwrap();
        streamed.push((close_of(b, &adj.steps()[..count]), volume_of(b, scale)));
    }

    for (i, (a, b)) in buffered.iter().zip(&streamed).enumerate() {
        assert_eq!(a.0.to_bits(), b.0.to_bits(), "close at {i}");
        assert_eq!(a.1, b.1, "volume at {i}");
    }
    // Sanity: the first bar really is divided by 20.
    assert!((streamed[0].0 - 101.0 / 20.0).abs() < 1e-9);
}

#[test]
fn a_streaming_adjuster_needs_no_market_data_for_splits() {
    let actions = [split(2 * DAY, 4, 1)];
    let mut adj = Adjuster::streaming(&actions, AdjustmentMode::SplitOnly).unwrap();
    assert!(!adj.is_identity());

    let before = bar(DAY, 1_000_000, 100);
    let on_ex = bar(2 * DAY, 250_000, 400);
    let count = adj.apply(&before);
    let first = adj.scale(count).unwrap();
    assert!((close_of(&before, &adj.steps()[..count]) - 25.0).abs() < 1e-9, "pre-split scaled down");
    assert_eq!(volume_of(&before, first), 400);
    let count = adj.apply(&on_ex);
    let second = adj.scale(count).unwrap();
    assert!((close_of(&on_ex, &adj.steps()[..count]) - 25.0).abs() < 1e-9, "ex-date bar untouched");
    assert_eq!(volume_of(&on_ex, second), 400);
}

#[test]
fn raw_streams_as_the_identity_and_total_return_is_refused() {
    let actions = [CorporateAction {
        time: DAY,
        kind: ActionKind::CashDividend { amount: ratio(1, 1) },
    }];
    assert!(Adjuster::streaming(&actions, AdjustmentMode::Raw)
        .unwrap()
        .is_identity());
    // Total-return needs the pre-ex close, which a forward pass cannot have.
    assert!(Adjuster::streaming(&actions, AdjustmentMode::TotalReturn).is_err());
}

#[test]
fn mode_tokens_parse() {
    assert_eq!(AdjustmentMode::from_token("raw"), Some(AdjustmentMode::Raw));
    assert_eq!(
        AdjustmentMode::from_token("split-only"),
        Some(AdjustmentMode::SplitOnly)
    );
    assert_eq!(
        AdjustmentMode::from_token("total-return"),
        Some(AdjustmentMode::TotalReturn)
    );
    assert_eq!(AdjustmentMode::from_token("AAPL"), None, "not a mode token");
    assert_eq!(AdjustmentMode::default(), AdjustmentMode::SplitOnly);
}

fn dividend(time: u32, num: u64, den: u64) -> CorporateAction {
    CorporateAction { time, kind: ActionKind::CashDividend { amount: ratio(num, den) } }
}

#[test]
fn any_number_of_dividends_is_reinvested() {
    let bars = vec![bar(DAY, 1_500_000, 100)];
    let actions: Vec<CorporateAction> = (2..82).map(|day| dividend(day * DAY, 22, 100)).collect();
    let out = adjusted(&bars, &actions, AdjustmentMode::TotalReturn);
    let expected = 150.0 * (1.0 - 0.22 / 150.0f64).powi(80);
    assert!((out[0].0 - expected).abs() < 1e-9, "close {}", out[0].0);
    assert_eq!(out[0].1, 100, "dividends do not touch volume");
}

#[test]
fn a_dividend_of_nothing_changes_nothing() {
    let out = adjusted(&[bar(DAY, 1_500_000, 100)], &[dividend(2 * DAY, 0, 1)], AdjustmentMode::TotalReturn);
    assert_eq!(out, vec![(150.0, 100)]);
}

#[test]
fn an_adjuster_without_splits_is_the_identity() {
    assert!(Adjuster::splits(&[dividend(DAY, 1, 1)]).is_identity());
    assert!(Adjuster::splits(&[split(DAY, 3, 3)]).is_identity());
    assert!(!Adjuster::splits(&[dividend(DAY, 1, 1), split(2 * DAY, 2, 1)]).is_identity());
}

#[test]
fn a_volume_scale_too_long_to_write_is_missing() {
    let actions: Vec<CorporateAction> =
        (2..5).map(|day| split(day * DAY, u64::MAX, u64::MAX - 1)).collect();
    let adjustment = adjust_bars(&[bar(DAY, 10_000, 7)], &actions, AdjustmentMode::SplitOnly);
    assert_eq!(adjustment.scale(0), None);
    assert_eq!(adjustment.counts, vec![3]);
}

#[test]
fn a_table_keeps_its_symbols_in_order_and_once() {
    let row = |n: u64| vec![spec("2020-08-31", whole(n), None)];
    let t = ActionTable::new()
        .insert("MSFT".into(), row(2))
        .insert("AAPL".into(), row(3))
        .insert("GOOGL".into(), row(20))
        .insert("AAPL".into(), row(4));
    assert_eq!(t.symbols(), vec!["AAPL".to_owned(), "GOOGL".into(), "MSFT".into()]);
    assert_eq!(t.rows("aapl").unwrap()[0].split, whole(4));
    assert!(t.rows("X").is_none());
    assert!(ActionTable::new().is_empty());
}

#[test]
fn a_ratio_that_double_precision_takes_for_one_is_no_split() {
    let den = 10_000_000_000_000_000_000u64;
    let problem = |num: u64| {
        let ratio = Some(Number { negative: false, num, den });
        table("X", vec![spec("2020-01-02", ratio, None)]).resolve("X", &Zone::utc()).err()
    };
    let double = |num: u64| format!("{}.{:019}", num / den, num % den).parse::<f64>().unwrap();
    // The double just below one is 1.11e-16 away; the next is as far off as the smallest gap above.
    for num in [den - 1_600, den - 1_000, den, den + 1_100] {
        assert_eq!(problem(num).map(|e| e.problem), Some(RowProblem::BadRatio), "{num}");
        assert!((double(num) - 1.0).abs() < f64::EPSILON);
    }
    for num in [den - 1_700, den + 1_200] {
        assert_eq!(problem(num), None, "{num}");
        assert!((double(num) - 1.0).abs() >= f64::EPSILON);
    }
}
