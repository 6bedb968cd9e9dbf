use mdfwob::bounds::{
    looks_like_bound, parse_bounds, parse_epoch_seconds, parse_range_token, parse_time_bound,
    BoundError,
};
use mdfwob::civil::Zone;
use mdfwob::commands::{
    check_failures, check_plot, listing_sessions, output_target, plan_bars, plan_calc, plan_ls,
    plan_plot, plan_stat, shows_summary, CommandError, Flags, PlotRefusal, Target,
};
use mdfwob::download::{
    commit_due, may_retry, plan_download, resume_at, Config, DownloadArgs, DownloadError,
};
use mdfwob::fwob_options::{
    parse_page_size_token, parse_tokens, validate_zstd_level, CodecArg, EncodingArg, FwobOptions,
    PagePacking, TargetFormat, TokenError,
};
use mdfwob::grouping::{group_by_symbol, sort_bars};
use mdfwob::interval::IntervalError;
use mdfwob::ls::LsFormat;
use mdfwob::model::{Bar, InputKind, Vwap};
use mdfwob::output::{AnalysisFormat, FrameFormat};
use mdfwob::plot::{chart_encoding, layout_series, ChartEncoding, DEFAULT_HEIGHT, DEFAULT_WIDTH};
use mdfwob::provider::ProviderKind;
use mdfwob::session::{Session, SessionError};
use mdfwob::settings::{
    analysis_output_dir, fmt_session_len, kind_label, resolve_files, resolve_interval,
    resolve_session, symbol_file, warn_uneven_interval, AnalysisConfig, IntervalSetting,
};
use mdfwob::summary::{
    is_return_column, mean_decimals, quantile_position, summary_base, summary_block, ColumnKind,
    SummaryCollector, SummaryColumn,
};
use mdfwob::tokens::{
    classify_calc, classify_ls, classify_paths_format, classify_with_interval, split_config_target,
    GrammarError,
};

fn ny() -> Zone {
    Zone::get("America/New_York").unwrap()
}

fn epoch(rfc3339: &str) -> u32 {
    rfc3339.parse::<jiff::Timestamp>().unwrap().as_second() as u32
}

fn words(tokens: &[&str]) -> Vec<String> {
    tokens.iter().map(|t| (*t).to_owned()).collect()
}

fn no_flags() -> Flags {
    Flags { start: None, end: None, use_rth: false, session: None, tz: None }
}

// ---- bounds ----

#[test]
fn bare_dates_and_times_use_the_exchange_timezone() {
    let tz = ny();
    // Bare date -> exchange-tz midnight (winter ET = UTC-5).
    assert_eq!(
        parse_time_bound("2026-01-01", false, &tz).unwrap(),
        epoch("2026-01-01T05:00:00Z")
    );
    // Bare end date is inclusive of the whole local day (next ET midnight minus one second).
    assert_eq!(
        parse_time_bound("2026-01-01", true, &tz).unwrap(),
        epoch("2026-01-02T05:00:00Z") - 1
    );
    // Bare local date-time -> interpreted in the exchange tz.
    assert_eq!(
        parse_time_bound("2026-01-01T09:30:00", false, &tz).unwrap(),
        epoch("2026-01-01T14:30:00Z")
    );
    // An explicit Z / offset is absolute, regardless of the exchange tz.
    assert_eq!(
        parse_time_bound("2026-01-01T05:00:00Z", false, &tz).unwrap(),
        epoch("2026-01-01T05:00:00Z")
    );
    assert_eq!(
        parse_time_bound("2026-01-01T00:00:00-05:00", false, &tz).unwrap(),
        epoch("2026-01-01T05:00:00Z")
    );
}

#[test]
fn bare_epoch_bounds_accept_optional_commas() {
    let tz = ny();
    let plain = parse_time_bound("1778078433", false, &tz).unwrap();
    assert_eq!(plain, 1_778_078_433);
    // Thousands separators are accepted and yield the same exact key.
    assert_eq!(
        parse_time_bound("1,778,078,433", false, &tz).unwrap(),
        plain
    );
    assert_eq!(plain, epoch("2026-05-06T14:40:33Z"));
    // An epoch is exact: the `is_end` flag does not expand it like a bare date.
    assert_eq!(parse_time_bound("1778078433", true, &tz).unwrap(), plain);
}

#[test]
fn each_bad_bound_is_told_apart() {
    let tz = ny();
    assert_eq!(parse_time_bound("soon", false, &tz), Err(BoundError::Invalid));
    assert_eq!(
        parse_time_bound("99999999999", false, &tz),
        Err(BoundError::OutOfRange)
    );
    assert_eq!(
        parse_time_bound("1900-01-01", false, &tz),
        Err(BoundError::OutOfRange)
    );
    assert_eq!(
        parse_time_bound("9999-12-31", true, &tz),
        Err(BoundError::NotLocal)
    );
    assert_eq!(parse_epoch_seconds(""), None);
    assert_eq!(parse_epoch_seconds(",,"), None);
    assert_eq!(parse_epoch_seconds("-5"), None);
    assert_eq!(
        parse_bounds(Some("soon"), Some("later"), &tz),
        Err(BoundError::Invalid)
    );
    assert_eq!(
        parse_bounds(None, Some("1970-01-01"), &Zone::utc()),
        Ok((None, Some(86_399)))
    );
    assert!(looks_like_bound("2024-01-01T12:00:00"));
    assert!(!looks_like_bound("AAPL"));
}

#[test]
fn range_token_parses_either_side_and_ignores_paths() {
    assert_eq!(
        parse_range_token("2024-01-01T12:00:00Z..2026-01-01"),
        Some((
            Some("2024-01-01T12:00:00Z".to_owned()),
            Some("2026-01-01".to_owned())
        ))
    );
    assert_eq!(
        parse_range_token("..2026-01-01"),
        Some((None, Some("2026-01-01".to_owned())))
    );
    assert_eq!(
        parse_range_token("2024-01-01.."),
        Some((Some("2024-01-01".to_owned()), None))
    );
    // Epoch-second ranges, with and without thousands separators.
    assert_eq!(
        parse_range_token("1778078433..1778086276"),
        Some((Some("1778078433".to_owned()), Some("1778086276".to_owned())))
    );
    assert_eq!(
        parse_range_token("1,778,078,433..1,778,086,276"),
        Some((
            Some("1,778,078,433".to_owned()),
            Some("1,778,086,276".to_owned())
        ))
    );
    assert_eq!(
        parse_range_token("1778078433.."),
        Some((Some("1778078433".to_owned()), None))
    );
    // Not range-shaped: a relative path, a plain symbol, or a bare `..`.
    assert_eq!(parse_range_token(r"..\AAPL.fwob"), None);
    assert_eq!(parse_range_token("../data/AAPL.fwob"), None);
    assert_eq!(parse_range_token("AAPL"), None);
    assert_eq!(parse_range_token(".."), None);
}

// ---- tokens ----

#[test]
fn tokens_come_in_any_order() {
    let one = classify_calc(&words(&["AAPL", "5m", "sma:20", "rth", "csv", "fill"])).unwrap();
    let other = classify_calc(&words(&["fill", "csv", "rth", "AAPL", "sma:20", "5m"])).unwrap();
    for t in [one, other] {
        assert_eq!(t.paths, words(&["AAPL"]));
        assert_eq!(t.interval.unwrap().label(), "5m");
        assert_eq!(t.specs, words(&["sma:20"]));
        assert_eq!(t.format, AnalysisFormat::Frame(FrameFormat::Csv));
        assert!(t.use_rth && t.fill);
        assert_eq!((t.start, t.end), (None, None));
    }
}

#[test]
fn each_bad_token_list_is_told_apart() {
    assert_eq!(
        classify_calc(&words(&["..2024-01-01", "2020-01-01.."])).unwrap_err(),
        GrammarError::ManyRanges
    );
    assert_eq!(
        classify_with_interval(&words(&["5m", "1h"])).unwrap_err(),
        GrammarError::ManyIntervals
    );
    assert_eq!(
        classify_paths_format(&words(&["csv", "md"])).unwrap_err(),
        GrammarError::ManyFormats
    );
    assert_eq!(
        classify_with_interval(&words(&["0m"])).unwrap_err(),
        GrammarError::Interval(IntervalError::Zero)
    );
    assert!(matches!(
        classify_calc(&words(&["sma:0"])).unwrap_err(),
        GrammarError::Spec(_)
    ));
    assert_eq!(
        classify_ls(&words(&["csv", "table"])).unwrap_err(),
        GrammarError::ManyFormats
    );
}

#[test]
fn each_command_has_its_own_grammar() {
    // `stat` knows neither intervals nor `fill`: they are symbols to it.
    let t = classify_paths_format(&words(&["5m", "fill", "rth", "..2026-01-01"])).unwrap();
    assert_eq!(t.paths, words(&["5m", "fill"]));
    assert!(t.use_rth);
    assert_eq!(t.end.as_deref(), Some("2026-01-01"));
    // `bars` knows no specs.
    let t = classify_with_interval(&words(&["sma:20", "fwob"])).unwrap();
    assert_eq!(t.paths, words(&["sma:20"]));
    assert_eq!(t.format, AnalysisFormat::Fwob);
    let (paths, format) = classify_ls(&words(&["data", "jsonl"])).unwrap();
    assert_eq!((paths, format), (words(&["data"]), LsFormat::JsonLines));
}

#[test]
fn the_config_comes_first() {
    assert_eq!(
        split_config_target(words(&["My.TOML", "AAPL"])).unwrap(),
        (Some("My.TOML".to_owned()), words(&["AAPL"]))
    );
    assert_eq!(
        split_config_target(words(&["AAPL"])).unwrap(),
        (None, words(&["AAPL"]))
    );
    assert_eq!(split_config_target(Vec::new()).unwrap(), (None, Vec::new()));
    assert!(split_config_target(words(&["AAPL", "my.toml"])).is_err());
}

// ---- settings ----

#[test]
fn interval_defaults_to_one_day() {
    assert_eq!(resolve_interval(None, None).unwrap().label(), "1d");
    // A config value still wins over the default.
    assert_eq!(resolve_interval(None, Some("5m")).unwrap().label(), "5m");
}

#[test]
fn a_bad_config_interval_is_refused() {
    assert_eq!(
        resolve_interval(None, Some("soon")).unwrap_err(),
        IntervalSetting::NotInterval
    );
    assert_eq!(
        resolve_interval(None, Some("0d")).unwrap_err(),
        IntervalSetting::Bad(IntervalError::Zero)
    );
}

#[test]
fn overrides_win_over_the_config() {
    let mut config = AnalysisConfig::default();
    let rth = config.session(true).unwrap();
    assert_eq!(rth.length_seconds(), 23_400);
    assert_eq!(config.session(false).unwrap().length_seconds(), 57_600);
    config.rth.hours = "  ".to_owned();
    assert_eq!(config.session(true).unwrap().length_seconds(), 23_400);
    let short = resolve_session(&config, true, Some("10:00-11:00"), Some("UTC")).unwrap();
    assert_eq!(short.length_seconds(), 3_600);
    assert_eq!(short.time_zone().name(), "UTC");
    assert_eq!(
        resolve_session(&config, true, None, Some("Nowhere")).unwrap_err(),
        SessionError::UnknownZone
    );
    assert_eq!(analysis_output_dir(&config), ".");
    assert_eq!(kind_label(InputKind::Tick), "tick");
    assert_eq!(kind_label(InputKind::Bar), "bar");
}

#[test]
fn inputs_fall_back_to_the_config() {
    let mut config = AnalysisConfig::default();
    config.symbols = words(&["AAPL"]);
    config.output_dir = Some("data".to_owned());
    assert_eq!(
        resolve_files(&Vec::new(), &config),
        (words(&["AAPL"]), "data".to_owned())
    );
    assert_eq!(
        resolve_files(&words(&["MSFT"]), &config),
        (words(&["MSFT"]), "data".to_owned())
    );
    assert_eq!(symbol_file("data", "AAPL"), "data/AAPL.fwob");
}

#[test]
fn uneven_intervals_are_warned_about() {
    let session = Session::new("America/New_York", "09:30-16:00").unwrap();
    let hourly = resolve_interval(None, Some("1h")).unwrap();
    let warning = warn_uneven_interval(hourly, &session, true).unwrap();
    assert!(warning.contains("interval 1h"), "{warning}");
    assert!(warning.contains("RTH session (6h30m)"), "{warning}");
    let half = resolve_interval(None, Some("30m")).unwrap();
    assert_eq!(warn_uneven_interval(half, &session, true), None);
    let daily = resolve_interval(None, None).unwrap();
    assert_eq!(warn_uneven_interval(daily, &session, true), None);
    assert_eq!(fmt_session_len(23_400), "6h30m");
    assert_eq!(fmt_session_len(57_600), "16h");
    assert_eq!(fmt_session_len(1_800), "30m");
}

// ---- plans ----

#[test]
fn a_flag_wins_over_a_range_token() {
    let config = AnalysisConfig::default();
    let mut flags = no_flags();
    flags.tz = Some("UTC".to_owned());
    flags.start = Some("1970-01-03".to_owned());
    let plan = plan_bars(
        &flags,
        &words(&["AAPL", "1970-01-02..1970-01-05", "5m"]),
        &config,
    )
    .unwrap();
    assert_eq!(plan.scope.start, Some(2 * 86_400));
    assert_eq!(plan.scope.end, Some(5 * 86_400 - 1));
    assert_eq!(plan.making.interval.label(), "5m");
    assert!(plan.making.warning.is_none());
    assert_eq!(plan.inputs, words(&["AAPL"]));
    assert_eq!(plan.dir, ".");
    assert!(plan.scope.query().session.is_none());
}

#[test]
fn either_way_turns_the_regular_hours_on() {
    let config = AnalysisConfig::default();
    let by_token = plan_stat(&no_flags(), &words(&["rth"]), &config).unwrap();
    assert!(by_token.scope.use_rth);
    assert!(by_token.scope.query().session.is_some());
    let mut flags = no_flags();
    flags.use_rth = true;
    let by_flag = plan_stat(&flags, &words(&[]), &config).unwrap();
    assert!(by_flag.scope.use_rth);
    assert_eq!(by_flag.format, FrameFormat::Table);
}

#[test]
fn each_refused_command_is_told_apart() {
    let config = AnalysisConfig::default();
    assert_eq!(
        plan_stat(&no_flags(), &words(&["fwob"]), &config).unwrap_err(),
        CommandError::StatToFile
    );
    assert_eq!(
        plan_calc(&no_flags(), &words(&["AAPL"]), &config).unwrap_err(),
        CommandError::NoSpecs
    );
    assert_eq!(
        plan_plot(&no_flags(), false, &words(&["AAPL", "csv"]), &config).unwrap_err(),
        CommandError::PlotFormat
    );
    let mut flags = no_flags();
    flags.tz = Some("Nowhere".to_owned());
    assert_eq!(
        plan_bars(&flags, &words(&[]), &config).unwrap_err(),
        CommandError::Session(SessionError::UnknownZone)
    );
    let mut flags = no_flags();
    flags.end = Some("soon".to_owned());
    assert_eq!(
        plan_bars(&flags, &words(&[]), &config).unwrap_err(),
        CommandError::Bound(BoundError::Invalid)
    );
    let mut config = AnalysisConfig::default();
    config.bars.interval = Some("soon".to_owned());
    assert_eq!(
        plan_bars(&no_flags(), &words(&[]), &config).unwrap_err(),
        CommandError::Interval(IntervalSetting::NotInterval)
    );
    assert_eq!(
        plan_bars(&no_flags(), &words(&["csv", "csv"]), &config).unwrap_err(),
        CommandError::Grammar(GrammarError::ManyFormats)
    );
}

#[test]
fn calc_plans_carry_their_columns() {
    let config = AnalysisConfig::default();
    let plan = plan_calc(
        &no_flags(),
        &words(&["AAPL", "sma:20", "ret:log", "md"]),
        &config,
    )
    .unwrap();
    assert_eq!(plan.making.interval.label(), "1d");
    let names: Vec<&str> = plan.columns.iter().map(|c| c.name.as_str()).collect();
    assert_eq!(names, ["sma_20", "ret_log"]);
    assert_eq!(plan.columns[1].decimals, 8);
    assert_eq!(plan.indicators.len(), 2);
    assert!(shows_summary(true, FrameFormat::Markdown));
    assert!(!shows_summary(true, FrameFormat::Csv));
    assert!(!shows_summary(false, FrameFormat::Table));
}

#[test]
fn files_need_a_directory() {
    let mut config = AnalysisConfig::default();
    assert!(output_target(AnalysisFormat::Fwob, &None, &config).is_err());
    config.output_dir = Some("data".to_owned());
    assert!(matches!(
        output_target(AnalysisFormat::Fwob, &None, &config),
        Ok(Target::Files(dir)) if dir == "data"
    ));
    assert!(matches!(
        output_target(AnalysisFormat::Fwob, &Some("out".to_owned()), &config),
        Ok(Target::Files(dir)) if dir == "out"
    ));
    assert!(matches!(
        output_target(AnalysisFormat::Frame(FrameFormat::Csv), &None, &config),
        Ok(Target::Rows(FrameFormat::Csv))
    ));
}

#[test]
fn plots_are_laid_out_by_kind() {
    let config = AnalysisConfig::default();
    let plan = plan_plot(
        &no_flags(),
        false,
        &words(&["AAPL", "rsi:14", "sma:50", "vsma:20"]),
        &config,
    )
    .unwrap();
    let layout = plan.layout;
    assert_eq!(layout.overlays.len(), 1);
    assert_eq!(layout.panels.len(), 1);
    assert_eq!(layout.volume_overlays.len(), 1);
    assert!(layout.volume, "an average of the volume brings its panel");
    assert_eq!(layout.title("AAPL", "1d"), "AAPL  1d   sma_50 rsi_14 vsma_20");

    let plain = plan_plot(&no_flags(), false, &words(&["AAPL", "volume"]), &config).unwrap();
    assert_eq!(plain.inputs, words(&["AAPL"]));
    assert!(plain.layout.volume);
    assert_eq!(plain.layout.title("AAPL", "1d"), "AAPL  1d   sma_20 vol");

    assert!(layout_series(&words(&["sma:0"]), false).is_err());
    assert_eq!((DEFAULT_WIDTH, DEFAULT_HEIGHT), (1_920, 1_080));
    assert_eq!(chart_encoding(Some("SIXEL")), ChartEncoding::Sixel);
    assert_eq!(chart_encoding(Some("six")), ChartEncoding::Sixel);
    assert_eq!(chart_encoding(Some("png")), ChartEncoding::Png);
    assert_eq!(chart_encoding(None), ChartEncoding::Png);
}

#[test]
fn plots_need_symbols() {
    assert_eq!(check_plot(0, false), Err(PlotRefusal::Nothing));
    assert_eq!(check_plot(2, true), Err(PlotRefusal::ManySymbols(2)));
    assert_eq!(check_plot(2, false), Ok(()));
    assert_eq!(check_plot(1, true), Ok(()));
}

#[test]
fn listings_default_to_the_current_directory() {
    let config = AnalysisConfig::default();
    let plan = plan_ls(&None, &None, &words(&["csv"]), &config).unwrap();
    assert_eq!(plan.inputs, words(&["."]));
    assert_eq!(plan.format, LsFormat::Csv);
    let sessions = listing_sessions(&None, &Some("UTC".to_owned()), &config).unwrap();
    assert_eq!(sessions.display.length_seconds(), 57_600);
    assert_eq!(sessions.rth.length_seconds(), 23_400);
    assert_eq!(sessions.display.time_zone().name(), "UTC");
    assert_eq!(check_failures(0, 3).unwrap_err().failures, 3);
    assert!(check_failures(1, 3).is_ok());
    assert!(check_failures(0, 0).is_ok());
}

// ---- grouping ----

#[test]
fn files_are_grouped_by_symbol() {
    let groups = group_by_symbol(&words(&["MSFT", "AAPL", "MSFT", "AAP"]));
    let found: Vec<(&str, Vec<usize>)> = groups
        .iter()
        .map(|g| (g.symbol.as_str(), g.members.clone()))
        .collect();
    assert_eq!(found, vec![("AAP", vec![3]), ("AAPL", vec![1]), ("MSFT", vec![0, 2])]);
}

#[test]
fn merged_bars_ascend_and_keep_their_order() {
    let bar = |time: u32, trades: u64| Bar {
        time,
        open: 1,
        high: 1,
        low: 1,
        close: 1,
        volume: 0,
        vwap: Vwap::Undefined,
        trades,
    };
    let sorted = sort_bars(&vec![bar(5, 1), bar(3, 2), bar(5, 3), bar(1, 4)]);
    let found: Vec<(u32, u64)> = sorted.iter().map(|b| (b.time, b.trades)).collect();
    assert_eq!(found, vec![(1, 4), (3, 2), (5, 1), (5, 3)]);
}

// ---- summaries ----

#[test]
fn return_columns_are_told_by_name() {
    assert!(is_return_column("ret_log"));
    assert!(is_return_column("ret_simple"));
    assert!(!is_return_column("sma_20"));
}

#[test]
fn the_price_path_is_followed() {
    let columns = [
        SummaryColumn { name: "sma_3".into(), decimals: 4 },
        SummaryColumn { name: "ret_log".into(), decimals: 8 },
        SummaryColumn { name: "vol_2".into(), decimals: 8 },
    ];
    let mut c = SummaryCollector::new(&columns);
    assert!(c.price().is_none());
    for (i, close) in [1_000_000u32, 1_300_000, 900_000, 1_100_000].into_iter().enumerate() {
        c.push_row(i as u32 * 86_400, close);
    }
    assert_eq!(c.bars(), 4);
    let path = c.price().unwrap();
    assert_eq!((path.first_close, path.last_close), (1_000_000, 1_100_000));
    assert_eq!((path.high, path.low), (1_300_000, 900_000));
    assert_eq!(path.span_seconds(), 3 * 86_400);
    assert_eq!(c.column(0), Some(ColumnKind::Basic));
    assert_eq!(c.column(1), Some(ColumnKind::Return));
    assert_eq!(c.column(3), None);
    assert_eq!(c.regime(&[true, true, true]), Some(2));
    assert_eq!(c.regime(&[true, true, false]), None);
    assert_eq!(c.regime(&[true]), None);
    assert_eq!(summary_base("AAPL", true), "AAPL.summary");
    assert_eq!(summary_base("AAPL", false), "summary");
    assert_eq!(summary_block("summary", "sma_3"), "summary.sma_3");
    assert_eq!(mean_decimals(0), 2);
    assert_eq!(mean_decimals(8), 8);
}

#[test]
fn quartiles_interpolate() {
    let sorted = [1.0, 2.0, 3.0, 4.0];
    let quantile = |quarters: usize| {
        let (low, high, rest) = quantile_position(sorted.len(), quarters);
        sorted[low] + (sorted[high] - sorted[low]) * (rest as f64 / 4.0)
    };
    assert!((quantile(2) - 2.5f64).abs() < 1e-12);
    assert!((quantile(1) - 1.75f64).abs() < 1e-12);
    assert_eq!(quantile_position(1, 3), (0, 0, 0));
    assert_eq!(quantile_position(5, 4), (4, 4, 0));
}

// ---- downloads ----

#[test]
fn separates_symbols_from_fwob_tokens() {
    let parsed = parse_tokens(&[
        "AAPL".into(),
        "v2".into(),
        "1MiB".into(),
        "columnar-delta".into(),
        "zstd".into(),
    ])
    .unwrap();
    assert_eq!(parsed.symbols, ["AAPL"]);
    assert_eq!(parsed.options.page_size, 1024 * 1024);
    assert_eq!(parsed.options.encoding, EncodingArg::ColumnarDelta);
    assert_eq!(parsed.options.codec, CodecArg::Zstd);
}

#[test]
fn smallest_prefers_encoding_then_codec() {
    let parsed = parse_tokens(&["AAPL".into(), "smallest".into(), "zstd".into()]).unwrap();
    assert_eq!(parsed.options.encoding, EncodingArg::Smallest);
    assert_eq!(parsed.options.codec, CodecArg::Zstd);

    let parsed =
        parse_tokens(&["AAPL".into(), "columnar-basic".into(), "smallest".into()]).unwrap();
    assert_eq!(parsed.options.encoding, EncodingArg::ColumnarBasic);
    assert_eq!(parsed.options.codec, CodecArg::Smallest);
}

#[test]
fn parses_v1_format_token() {
    let parsed = parse_tokens(&["AAPL".into(), "v1".into()]).unwrap();
    assert_eq!(parsed.options.format, TargetFormat::V1);
    assert!(parsed.options.explicit_format);
}

#[test]
fn format_is_not_explicit_without_a_format_token() {
    let parsed = parse_tokens(&["AAPL".into()]).unwrap();
    assert_eq!(parsed.options.format, TargetFormat::V2);
    assert!(!parsed.options.explicit_format);
    assert!(!parsed.options.explicit_v2_options);
}

#[test]
fn v2_tuning_tokens_are_tracked_as_explicit() {
    for token in [
        "1MiB",
        "zstd",
        "columnar-delta",
        "compress-partial-page",
        "tight-fit",
    ] {
        let parsed = parse_tokens(&["AAPL".into(), token.into()]).unwrap();
        assert!(parsed.options.explicit_v2_options, "token {token}");
    }
}

#[test]
fn tokens_are_case_sensitive() {
    let parsed =
        parse_tokens(&["AAPL".into(), "V2".into(), "ZSTD".into(), "1MIB".into()]).unwrap();

    assert_eq!(parsed.symbols, ["AAPL", "V2", "ZSTD", "1MIB"]);
    assert_eq!(parsed.options.format, TargetFormat::V2);
    assert_eq!(parsed.options.codec, CodecArg::Zstd);
}

#[test]
fn provider_token_is_case_sensitive_and_does_not_steal_ibkr_symbol() {
    let parsed = parse_tokens(&["databento".into(), "IBKR".into(), "AAPL".into()]).unwrap();
    assert_eq!(parsed.provider, Some(ProviderKind::Databento));
    assert_eq!(parsed.symbols, ["IBKR", "AAPL"]);
}

#[test]
fn writer_defaults_are_those_of_the_format() {
    let options = FwobOptions::default();
    assert_eq!(options.page_size, 512 * 1024);
    assert_eq!(options.zstd_level, 6);
    assert_eq!(options.page_packing, PagePacking::EstimateShrink);
    let writer = options.v2_writer_options("AAPL").unwrap();
    assert_eq!(writer.title, "AAPL");
    assert_eq!(writer.page_size, 512 * 1024);
    assert!(validate_zstd_level(0).is_err());
    assert!(validate_zstd_level(22).is_ok());
    assert!(parse_page_size_token("512B").unwrap().is_err());
    assert!(parse_page_size_token("AAPL").is_none());
    assert!(matches!(
        parse_tokens(&["ibkr".into(), "polygon".into()]).unwrap_err(),
        TokenError::ProviderRepeated
    ));
}

fn download_args() -> DownloadArgs {
    DownloadArgs {
        output: None,
        host: None,
        port: None,
        client_id: None,
        reconnect_timeout_seconds: None,
        stall_timeout_seconds: None,
        primary_exchange: None,
        start: None,
        end: None,
        timezone: None,
        rth: false,
        all_hours: false,
        zstd_level: None,
        parallelism: None,
        request_interval_ms: None,
        retry_interval_ms: None,
        commit_interval_seconds: None,
    }
}

#[test]
fn flags_override_the_download_config() {
    let mut args = download_args();
    args.port = Some(7_497);
    args.rth = true;
    args.request_interval_ms = Some(500);
    args.commit_interval_seconds = Some(-1);
    args.zstd_level = Some(9);
    args.primary_exchange = Some("NASDAQ".to_owned());
    let parsed = parse_tokens(&words(&["databento", "AAPL"])).unwrap();
    let plan = plan_download(args, parsed, false, Config::default()).unwrap();
    assert_eq!(plan.config.ibkr.port, 7_497);
    assert_eq!(plan.config.ibkr.host, "127.0.0.1");
    assert!(plan.config.download.use_rth);
    assert_eq!(plan.config.download.request_interval_ms, 500);
    assert_eq!(plan.config.download.retry_interval_ms, 10_000);
    assert_eq!(plan.config.download.commit_interval_seconds, -1);
    assert_eq!(plan.config.download.provider, ProviderKind::Databento);
    assert_eq!(plan.fwob.zstd_level, 9);
    assert!(plan.fwob.explicit_v2_options);
    assert_eq!(plan.config.stocks.len(), 1);
    assert_eq!(plan.config.stocks[0].symbols, words(&["AAPL"]));
    assert_eq!(plan.config.stocks[0].currency, "USD");
    assert_eq!(plan.config.stocks[0].exchange, "SMART");
    assert_eq!(plan.config.stocks[0].primary_exchange.as_deref(), Some("NASDAQ"));
    assert!(plan.only.is_none());
}

#[test]
fn symbols_choose_among_a_config() {
    let parsed = parse_tokens(&words(&["AAPL"])).unwrap();
    let plan = plan_download(download_args(), parsed, true, Config::default()).unwrap();
    assert!(plan.config.stocks.is_empty());
    assert_eq!(plan.only, Some(words(&["AAPL"])));
    let parsed = parse_tokens(&words(&[])).unwrap();
    let plan = plan_download(download_args(), parsed, true, Config::default()).unwrap();
    assert_eq!(plan.only, None);
}

#[test]
fn each_refused_download_is_told_apart() {
    let refused = |args: DownloadArgs, tokens: &[&str]| {
        let parsed = parse_tokens(&words(tokens)).unwrap();
        plan_download(args, parsed, false, Config::default()).unwrap_err()
    };
    let mut both = download_args();
    both.rth = true;
    both.all_hours = true;
    assert_eq!(refused(both, &["AAPL"]), DownloadError::BothHours);
    let mut none = download_args();
    none.parallelism = Some(0);
    assert_eq!(refused(none, &["AAPL"]), DownloadError::NoParallelism);
    let mut level = download_args();
    level.zstd_level = Some(23);
    assert_eq!(refused(level, &["AAPL"]), DownloadError::BadZstdLevel);
    assert_eq!(refused(download_args(), &["v2"]), DownloadError::SymbolsRequired);
}

#[test]
fn retries_last_as_long_as_their_budget() {
    assert!(may_retry(-1, u64::MAX));
    assert!(!may_retry(0, 0));
    assert!(may_retry(30, 29));
    assert!(!may_retry(30, 30));
}

#[test]
fn commits_come_no_more_often_than_their_interval() {
    assert!(!commit_due(-1, u64::MAX));
    assert!(commit_due(0, 0));
    assert!(!commit_due(60, 59));
    assert!(commit_due(60, 60));
}

#[test]
fn a_download_resumes_after_the_last_stored_second() {
    assert_eq!(resume_at(1_704_205_800), Some(1_704_205_801));
    assert_eq!(resume_at(u32::MAX), None);
}

#[test]
fn a_narrowed_download_takes_only_the_named_symbols() {
    let parsed = parse_tokens(&words(&["AAPL"])).unwrap();
    let plan = plan_download(download_args(), parsed, true, Config::default()).unwrap();
    assert!(plan.takes("AAPL"));
    assert!(!plan.takes("MSFT"));
    let parsed = parse_tokens(&[]).unwrap();
    let plan = plan_download(download_args(), parsed, true, Config::default()).unwrap();
    assert!(plan.takes("MSFT"));
}
