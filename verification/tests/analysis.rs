use mdfwob::civil::Zone;
use mdfwob::inspect::{
    classify_hours, detect_bar_granularity, field_semantic_label, field_type_label, preview_bars,
    preview_rows, preview_ticks, sample_windows, FieldSemantic, FieldType, TimestampUnit,
    FRAME_PREVIEW_COUNT,
};
use mdfwob::interval::{Granularity, Interval, IntervalError, IntervalUnit};
use mdfwob::ls::{file_symbol, key_epoch, ls_file, write_ls, BoundaryKey, FileFacts, LsFormat, LsRow};
use mdfwob::model::{Bar, InputKind, Tick, Vwap};
use mdfwob::normalize_symbol;
use mdfwob::output::{
    bar_rows, comma_i64, comma_u64, csv_field, fmt_dt, fmt_price, fmt_vwap, format_epoch_tz,
    guard_symbol_count, opt_time, row_frame, AnalysisFormat, BarSeries, FrameBatch, FrameFormat,
    Table, FLUSH_BYTES,
};
use mdfwob::session::{Session, SessionError};
use mdfwob::stat::{compute_stat, write_stat, StatAccumulator, StatOutput};

const DAY: u32 = 86_400;

fn day(n: u32) -> u32 {
    1_600_000_000 + n * DAY
}

fn tick(time: u32, price: u32, size: i32) -> Tick {
    Tick { time, price, size }
}

fn zone(name: &str) -> Zone {
    Zone::get(name).unwrap()
}

// ---- intervals ----

#[test]
fn parses_all_units() {
    let cases = [
        ("30s", 30, IntervalUnit::Second),
        ("5m", 5, IntervalUnit::Minute),
        ("1h", 1, IntervalUnit::Hour),
        ("1d", 1, IntervalUnit::Day),
        ("2w", 2, IntervalUnit::Week),
        ("3mo", 3, IntervalUnit::Month),
        ("1y", 1, IntervalUnit::Year),
    ];
    for (token, count, unit) in cases {
        let interval = Interval::parse(token).unwrap().unwrap();
        assert_eq!(interval.count(), count, "{token}");
        assert_eq!(interval.unit(), unit, "{token}");
        assert_eq!(interval.label(), token, "{token}");
    }
}

#[test]
fn granularity_splits_sub_day_from_calendar() {
    assert_eq!(
        Interval::parse("5m").unwrap().unwrap().granularity(),
        Granularity::SubDay(300)
    );
    assert_eq!(
        Interval::parse("2h").unwrap().unwrap().granularity(),
        Granularity::SubDay(7_200)
    );
    assert_eq!(
        Interval::parse("1d").unwrap().unwrap().granularity(),
        Granularity::Day(1)
    );
    assert_eq!(
        Interval::parse("2w").unwrap().unwrap().granularity(),
        Granularity::Week(2)
    );
    assert_eq!(
        Interval::parse("3mo").unwrap().unwrap().granularity(),
        Granularity::Month(3)
    );
    assert_eq!(
        Interval::parse("1y").unwrap().unwrap().granularity(),
        Granularity::Year(1)
    );
}

#[test]
fn rejects_non_interval_tokens() {
    for token in ["AAPL", "csv", "md", "demo", "m", "mo", "5x", "rth"] {
        assert!(Interval::parse(token).is_none(), "{token} should not parse");
    }
}

#[test]
fn rejects_zero_and_oversized() {
    assert!(Interval::parse("0m").unwrap().is_err());
    assert!(Interval::parse("200000d").unwrap().is_err());
}

#[test]
fn each_bad_count_is_told_apart() {
    assert_eq!(Interval::parse("0m").unwrap().unwrap_err(), IntervalError::Zero);
    assert_eq!(
        Interval::parse("100001d").unwrap().unwrap_err(),
        IntervalError::AboveMaximum
    );
    assert_eq!(
        Interval::parse("99999999999d").unwrap().unwrap_err(),
        IntervalError::TooLarge
    );
    assert!(Interval::parse("100000d").unwrap().is_ok());
    assert_eq!(IntervalError::Zero.message(), "interval must be at least 1");
}

// ---- inspecting ----

#[test]
fn granularity_intraday_and_calendar() {
    assert_eq!(detect_bar_granularity(&[0, 60, 120]).as_deref(), Some("1m"));
    assert_eq!(
        detect_bar_granularity(&[0, 1_800, 3_600]).as_deref(),
        Some("30m")
    );
    assert_eq!(
        detect_bar_granularity(&[0, 3_600, 7_200]).as_deref(),
        Some("1h")
    );
    // Daily with a weekend gap: the minimum positive gap is still ~1 day.
    assert_eq!(
        detect_bar_granularity(&[day(0), day(1), day(4), day(5)]).as_deref(),
        Some("1d")
    );
    assert_eq!(
        detect_bar_granularity(&[day(0), day(7), day(14)]).as_deref(),
        Some("1w")
    );
    assert_eq!(detect_bar_granularity(&[0]), None);
    // Two daily bars in New York over the change to summer time.
    assert_eq!(
        detect_bar_granularity(&[1_710_046_800, 1_710_129_600]).as_deref(),
        Some("1d")
    );
    assert_eq!(detect_bar_granularity(&[0, 79_200]).as_deref(), Some("22h"));
    assert_eq!(detect_bar_granularity(&[0, u32::MAX]).as_deref(), Some("49710d"));
    assert_eq!(detect_bar_granularity(&[5, 5, 3]), None);
}

#[test]
fn hours_classification() {
    let rth = Session::new("America/New_York", "09:30-16:00").unwrap();
    // 2024-01-02: 09:30 ET == 14:30Z; build a few RTH-interior minutes.
    let base = 1_704_205_800; // 09:30 ET
    let rth_times = [base, base + 3_600, base + 6 * 3_600]; // 09:30, 10:30, 15:30
    assert_eq!(classify_hours(&rth_times, &rth), "rth");
    // Add an 08:00 ET pre-market bar (90 min before open).
    let ext_times = [base - 90 * 60, base, base + 3_600];
    assert_eq!(classify_hours(&ext_times, &rth), "extended");
    // All the same time-of-day (daily bars anchored at the open) → indeterminate.
    let daily = [base, base + DAY, base + 2 * DAY];
    assert_eq!(classify_hours(&daily, &rth), "n/a");
}

#[test]
fn semantic_labels() {
    assert_eq!(
        field_type_label(FieldType::UnsignedInteger),
        "unsigned-integer"
    );
    assert_eq!(
        field_semantic_label(FieldSemantic::UnixTimestamp(TimestampUnit::Seconds)),
        "unix-seconds"
    );
    assert_eq!(
        field_semantic_label(FieldSemantic::FixedPoint(4)),
        "fixed-4"
    );
}

#[test]
fn tick_preview_is_aligned_and_tz_aware() {
    let tz = zone("America/New_York");
    let ticks = vec![
        Some(tick(1_704_205_800, 1_002_500, 500)),
        Some(tick(1_704_205_860, 1_005_000, 1_200)),
    ];
    let table = preview_ticks(&ticks, &tz);
    assert!(table.contains("time"), "{table}");
    assert!(table.contains("100.2500"), "{table}");
    // Winter ET offset.
    assert!(table.contains("-05:00"), "{table}");
}

#[test]
fn bar_preview_shows_every_column() {
    let bar = Bar {
        time: 1_704_205_800,
        open: 100_000,
        high: 120_000,
        low: 90_000,
        close: 110_000,
        volume: 300,
        vwap: Vwap::Mass(33_000_000),
        trades: 4,
    };
    let table = preview_bars(&vec![Some(bar), None], &zone("UTC"));
    assert!(table.contains("2024-01-02T14:30:00+00:00"), "{table}");
    assert!(table.contains("11.0000"), "{table}");
    assert!(table.contains("..."), "{table}");
}

#[test]
fn sample_windows_are_non_overlapping_head_and_tail() {
    // Small file: leading window covers everything, no trailing window.
    assert_eq!(sample_windows(5, 1024), (0..5, None));
    // File larger than one window but smaller than two: tail abuts the lead (no overlap, no gap).
    assert_eq!(sample_windows(1500, 1024), (0..1024, Some(1024..1500)));
    // File larger than two windows: head [0,1024) and tail [count-1024, count).
    assert_eq!(sample_windows(5000, 1024), (0..1024, Some(3976..5000)));
    // Exactly one window: no tail.
    assert_eq!(sample_windows(1024, 1024), (0..1024, None));
}

#[test]
fn a_preview_tops_a_short_tail_up_from_the_head() {
    let rows = preview_rows(8, &[0, 1, 2, 3, 4, 5, 6], &[7]);
    let expected = [Some(0), Some(1), Some(2), None, Some(5), Some(6), Some(7)];
    assert_eq!(rows, expected);
}

#[test]
fn preview_rows_head_tail_and_ellipsis() {
    // Small file (<= 2*N): every frame, no ellipsis.
    let all: Vec<u32> = (0..5).collect();
    let rows = preview_rows(5, &all, &[]);
    assert_eq!(rows.len(), 5);
    assert!(rows.iter().all(Option::is_some));

    // Large file: head N + ellipsis + tail N, taken from leading/trailing windows.
    let head: Vec<u32> = (0..10).collect();
    let tail: Vec<u32> = (90..100).collect();
    let rows = preview_rows(100, &head, &tail);
    assert_eq!(rows.len(), FRAME_PREVIEW_COUNT * 2 + 1);
    assert_eq!(rows[0], Some(0));
    assert_eq!(rows[FRAME_PREVIEW_COUNT], None); // ellipsis
    assert_eq!(*rows.last().unwrap(), Some(99));

    // No distinct tail window (file fits in the leading sample): tail taken from head.
    let rows = preview_rows(10, &head, &[]);
    assert_eq!(rows[0], Some(0));
    assert_eq!(rows[FRAME_PREVIEW_COUNT], None);
    assert_eq!(*rows.last().unwrap(), Some(9));
}

#[test]
fn ellipsis_row_renders() {
    let tz = zone("UTC");
    let rows = vec![
        Some(tick(1_704_205_800, 10_000, 1)),
        None,
        Some(tick(1_704_205_860, 20_000, 2)),
    ];
    let table = preview_ticks(&rows, &tz);
    assert!(table.contains("..."), "{table}");
}

// ---- sessions and zones ----

#[test]
fn sessions_need_a_zone_and_hours() {
    assert_eq!(
        Session::new("Nowhere/Land", "09:30-16:00").unwrap_err(),
        SessionError::UnknownZone
    );
    for hours in ["", "09:30", "9:30-16:00", "16:00-09:30", "09:30-24:00", "09:60-16:00"] {
        assert_eq!(
            Session::new("UTC", hours).unwrap_err(),
            SessionError::BadHours,
            "{hours}"
        );
    }
    let session = Session::new("America/New_York", "09:30-16:00").unwrap();
    assert_eq!(session.length_seconds(), 23_400);
    assert_eq!(session.open_epoch(1_704_207_600), Some(1_704_205_800));
    assert!(session.contains(1_704_205_800));
    assert!(!session.contains(1_704_205_800 - 1));
    assert!(!session.contains(1_704_205_800 + 23_400));
}

#[test]
fn zones_follow_the_database() {
    assert!(Zone::get("Nowhere/Land").is_none());
    let ny = zone("America/New_York");
    let date = ny.date_at(1_704_241_800);
    assert_eq!((date.year, date.month, date.day), (2024, 1, 2));
    assert_eq!(ny.minute_at(1_704_205_800), 570);
    assert_eq!(ny.instant(date, 0), Some(1_704_171_600));
    assert_eq!(ny.stamp(1_720_000_000), "2024-07-03T05:46:40-04:00");
    assert_eq!(Zone::utc().stamp_z(0), "1970-01-01T00:00:00Z");
}

// ---- listing ----

fn row() -> LsRow {
    LsRow {
        file: "data/AAPL.fwob".into(),
        symbol: "AAPL".into(),
        kind: "bar",
        format: "fwob-v2".into(),
        frame_count: 2575,
        first: Some(1_704_205_800),
        last: Some(1_704_205_800 + 29 * 86_400),
        granularity: Some("1d".into()),
        hours: "n/a",
        bytes: 103_000,
    }
}

#[test]
fn table_has_headers_and_tz_times() {
    let s = write_ls(&vec![row()], LsFormat::Table, &zone("America/New_York"));
    assert!(s.contains("file"), "{s}");
    assert!(s.contains("granularity"), "{s}");
    assert!(s.contains("AAPL"), "{s}");
    assert!(s.contains("1d"), "{s}");
    assert!(s.contains("2,575"), "{s}"); // comma-grouped in table form
    assert!(s.contains("-05:00"), "{s}"); // tz-aware time
}

#[test]
fn csv_is_ungrouped_and_jsonl_parses() {
    let tz = zone("UTC");
    let s = write_ls(&vec![row()], LsFormat::Csv, &tz);
    assert!(s.contains("2575"), "{s}"); // no commas in csv
    assert!(s.starts_with("file,symbol,kind"), "{s}");

    let line = write_ls(&vec![row()], LsFormat::JsonLines, &tz);
    let value: serde_json::Value = serde_json::from_str(line.trim()).unwrap();
    assert_eq!(value["symbol"], "AAPL");
    assert_eq!(value["kind"], "bar");
    assert_eq!(value["frame_count"], 2575);
}

#[test]
fn json_text_is_escaped() {
    let mut quoted = row();
    quoted.symbol = "A\"B\n".into();
    let line = write_ls(&vec![quoted], LsFormat::JsonLines, &zone("UTC"));
    let value: serde_json::Value = serde_json::from_str(line.trim()).unwrap();
    assert_eq!(value["symbol"], "A\"B\n");
    assert_eq!(
        mdfwob::json::string("a\"\\\n\r\t\u{8}\u{c}\u{1f}\u{7f}é"),
        "\"a\\\"\\\\\\n\\r\\t\\b\\f\\u001f\u{7f}é\""
    );
}

#[test]
fn format_parse() {
    assert_eq!(LsFormat::parse("table"), Some(LsFormat::Table));
    assert_eq!(LsFormat::parse("jsonl"), Some(LsFormat::JsonLines));
    assert_eq!(LsFormat::parse("nope"), None);
}

#[test]
fn a_listing_row_is_made_of_the_header_and_a_sample() {
    let rth = Session::new("America/New_York", "09:30-16:00").unwrap();
    let facts = FileFacts {
        title: String::new(),
        kind: InputKind::Bar,
        format: "fwob-v2".into(),
        frame_count: 3,
        bytes: 99,
        first_key: Some(BoundaryKey::U32(1_704_205_800)),
        last_key: Some(BoundaryKey::I64(1_704_205_920)),
        times: vec![1_704_205_800, 1_704_205_860, 1_704_205_920],
    };
    let row = ls_file("x/AAPL.fwob".into(), Some("AAPL"), &facts, &rth);
    assert_eq!(row.symbol, "AAPL");
    assert_eq!(row.kind, "bar");
    assert_eq!(row.first, Some(1_704_205_800));
    assert_eq!(row.last, Some(1_704_205_920));
    assert_eq!(row.granularity.as_deref(), Some("1m"));
    assert_eq!(row.hours, "rth");
    assert_eq!(key_epoch(BoundaryKey::I64(-1)), None);
    assert_eq!(key_epoch(BoundaryKey::Other), None);
    assert_eq!(file_symbol("", None), "unknown");
    assert_eq!(file_symbol("MSFT", Some("AAPL")), "MSFT");
}

#[test]
fn symbols_are_matched_without_case() {
    assert_eq!(normalize_symbol("  aapl\t"), "AAPL");
    assert_eq!(normalize_symbol("AAPL"), "AAPL");
    assert_eq!(normalize_symbol("brk.b"), "BRK.B");
}

// ---- output ----

#[test]
fn comma_grouping() {
    assert_eq!(comma_u64(0), "0");
    assert_eq!(comma_u64(12), "12");
    assert_eq!(comma_u64(1234), "1,234");
    assert_eq!(comma_u64(1234567), "1,234,567");
    assert_eq!(comma_i64(-12345), "-12,345");
}

#[test]
fn price_formatting() {
    assert_eq!(fmt_price(Some(1_853_000)), "185.3000");
    assert_eq!(fmt_price(Some(12_345_678)), "1,234.5678");
    assert_eq!(fmt_price(None), "-");
}

#[test]
fn average_prices_are_rounded_to_the_unit() {
    assert_eq!(fmt_vwap(Vwap::Mass(10), 3), "0.0003");
    assert_eq!(fmt_vwap(Vwap::Mass(11), 3), "0.0004");
    assert_eq!(fmt_vwap(Vwap::Mass(11), 0), "-");
    assert_eq!(fmt_vwap(Vwap::Undefined, 5), "-");
    assert_eq!(fmt_vwap(Vwap::Price(115_000), 0), "11.5000");
}

/// Trades at 10.0000 and 10.0001 average half-way between two prices: the double nearest to 10.00005
/// lies below it.
#[test]
fn an_average_is_shown_as_its_double_is() {
    assert_eq!(fmt_vwap(Vwap::Mass(200_001), 2), "10.0000");
    for volume in [1_i64, 2, 3, 8, 20, 64, 1_000] {
        for mass in 0..4_000_i128 {
            let average = mass as f64 / (10_000 * volume) as f64;
            assert_eq!(fmt_vwap(Vwap::Mass(mass), volume), format!("{average:.4}"), "{mass} / {volume}");
        }
        for step in 0..500_i128 {
            let mass = 1_234_567 + 1_009 * step;
            let average = mass as f64 / (10_000 * volume) as f64;
            assert_eq!(
                fmt_vwap(Vwap::Mass(mass), volume).replace(',', ""),
                format!("{average:.4}"),
                "{mass} / {volume}"
            );
        }
    }
}

#[test]
fn averages_at_the_ends_of_the_range() {
    let largest = fmt_vwap(Vwap::Mass(100_000_000_000_000_000_000_000_000_000_000_000_000), 1);
    assert_eq!(largest.replace(',', ""), format!("{:.4}", 1e34));
    assert_eq!(fmt_vwap(Vwap::Mass(1), i64::MAX), "0.0000");
    assert_eq!(fmt_vwap(Vwap::Mass(-30_000), 2), "-1.5000");
}

#[test]
fn intraday_labels_read_back() {
    for gap in [1_u32, 59, 60, 61, 300, 1_800, 3_600, 5_400, 7_200, 43_200, 82_799] {
        let label = detect_bar_granularity(&[0, gap, 2 * gap]).unwrap();
        let interval = Interval::parse(&label).unwrap().unwrap();
        assert_eq!(interval.granularity(), Granularity::SubDay(gap), "{label}");
    }
}

#[test]
fn time_is_rfc3339() {
    assert_eq!(fmt_dt(1_522_742_400), "2018-04-03T08:00:00Z");
}

#[test]
fn times_carry_the_zone_offset() {
    assert_eq!(
        format_epoch_tz(1_704_205_800, &zone("America/New_York")),
        "2024-01-02T09:30:00-05:00"
    );
    assert_eq!(opt_time(None, true), "-");
}

#[test]
fn no_trailing_whitespace_in_table() {
    let table = Table {
        headers: vec!["a".into(), "bbbb".into()],
        aligns: vec![false, true],
        rows: vec![vec!["x".into(), "1".into()]],
    };
    for line in table.render_table().lines() {
        assert_eq!(line, line.trim_end());
    }
}

#[test]
fn markdown_and_csv_are_rendered() {
    let table = Table {
        headers: vec!["a".into(), "b".into()],
        aligns: vec![false, true],
        rows: vec![vec!["x,y".into(), "1".into()]],
    };
    let csv = table.render_csv();
    assert!(csv.starts_with("a,b\n"), "{csv}");
    assert!(csv.contains("\"x,y\",1"), "{csv}");
    let markdown = table.render_markdown();
    assert!(markdown.starts_with("| a | b |"), "{markdown}");
    assert_eq!(csv_field("a\"b"), "\"a\"\"b\"");
    assert_eq!(csv_field("plain"), "plain");
}

#[test]
fn frame_formats_parse_back() {
    for token in ["raw", "table", "md", "csv", "jsonl", "hex"] {
        let format = FrameFormat::parse(token).unwrap();
        assert_eq!(format.as_str(), token);
        assert_eq!(
            AnalysisFormat::parse(token),
            Some(AnalysisFormat::Frame(format))
        );
    }
    assert_eq!(AnalysisFormat::parse("fwob"), Some(AnalysisFormat::Fwob));
    assert_eq!(AnalysisFormat::parse("AAPL"), None);
    assert_eq!(
        AnalysisFormat::default(),
        AnalysisFormat::Frame(FrameFormat::Table)
    );
}

#[test]
fn symbol_counts_are_guarded() {
    assert!(guard_symbol_count(false, 1_000_000).is_ok());
    assert!(guard_symbol_count(true, 2).is_ok());
    assert!(guard_symbol_count(true, usize::MAX).is_err());
    assert_eq!(row_frame(false, 3, &vec![1, 2]), vec![1, 2]);
    let framed = row_frame(true, 3, &vec![1, 2]);
    assert_eq!(&framed[framed.len() - 2..], &[1, 2]);
    assert!(framed.len() > 2);
}

#[test]
fn bar_rows_name_their_symbols_when_there_are_several() {
    let bar = Bar {
        time: 5,
        open: 1,
        high: 1,
        low: 1,
        close: 1,
        volume: 1,
        vwap: Vwap::Price(1),
        trades: 1,
    };
    let one = bar_rows(&vec![BarSeries { symbol: "A".into(), bars: vec![bar] }]).unwrap();
    assert!(one.strings.is_empty());
    assert_eq!(one.rows, vec![(0, bar)]);
    let two = bar_rows(&vec![
        BarSeries { symbol: "A".into(), bars: vec![bar] },
        BarSeries { symbol: "B".into(), bars: vec![bar, bar] },
    ])
    .unwrap();
    assert_eq!(two.strings, vec!["A".to_owned(), "B".to_owned()]);
    assert_eq!(two.rows, vec![(0, bar), (1, bar), (1, bar)]);
}

#[test]
fn batches_hold_every_row_once() {
    let mut batch = FrameBatch::new();
    let mut written: Vec<u8> = Vec::new();
    let mut expected: Vec<u8> = Vec::new();
    let row_len = 1_000;
    for i in 0..(FLUSH_BYTES / row_len + 50) {
        let row = vec![(i % 251) as u8; row_len];
        expected.extend_from_slice(&row);
        if let Some(full) = batch.push(&row) {
            written.extend_from_slice(&full);
        }
    }
    assert!(!written.is_empty(), "one batch was full");
    if let Some(rest) = batch.finish() {
        written.extend_from_slice(&rest);
    }
    assert_eq!(written, expected);
}

// ---- statistics ----

#[test]
fn tick_and_bar_stats_agree() {
    // Two 1s ticks in one bucket, one in the next.
    let ticks = [
        tick(100, 100_000, 100),
        tick(100, 120_000, 300),
        tick(160, 110_000, 200),
    ];
    let mut tick_acc = StatAccumulator::new();
    for t in &ticks {
        tick_acc.push_tick(t);
    }
    let tick_row = tick_acc.finish("AAPL".into(), "tick", "fwob-v2".into());

    // The equivalent bars: bucket [100] has 2 trades, vol 400, vwap (10*100+12*300)/400 = 11.5,
    // low 10 high 12; bucket [160] has 1 trade, vol 200, vwap 11, low/high 11.
    let bars = [
        Bar {
            time: 100,
            open: 100_000,
            high: 120_000,
            low: 100_000,
            close: 120_000,
            volume: 400,
            vwap: Vwap::Price(115_000),
            trades: 2,
        },
        Bar {
            time: 160,
            open: 110_000,
            high: 110_000,
            low: 110_000,
            close: 110_000,
            volume: 200,
            vwap: Vwap::Price(110_000),
            trades: 1,
        },
    ];
    let mut bar_acc = StatAccumulator::new();
    for b in &bars {
        bar_acc.push_bar(b);
    }
    let bar_row = bar_acc.finish("AAPL".into(), "bar", "fwob-v2".into());

    assert_eq!(tick_row.trades, bar_row.trades);
    assert_eq!(tick_row.volume, bar_row.volume);
    assert_eq!(tick_row.min, bar_row.min);
    assert_eq!(tick_row.max, bar_row.max);
    assert_eq!(tick_row.vwap, bar_row.vwap);
    assert_eq!(tick_row.first, bar_row.first);
    assert_eq!(tick_row.last, bar_row.last);
    assert_eq!(tick_row.kind, "tick");
    assert_eq!(bar_row.kind, "bar");
    // trades = total underlying ticks either way
    assert_eq!(tick_row.trades, 3);
}

#[test]
fn filled_bars_summarize_as_their_trades_do() {
    let ticks =
        [tick(100, 100_000, 100), tick(110, 120_000, 300), tick(700, 110_000, 200)];
    let from_ticks = compute_stat("X".into(), "fwob-v2".into(), &ticks);
    for fill in [false, true] {
        let interval = mdfwob::interval::Interval::parse("1m").unwrap().unwrap();
        let clock = mdfwob::resample::BarClock::Utc;
        let bars = mdfwob::resample::resample(&ticks, interval, fill, &clock);
        assert_eq!(bars.len(), if fill { 11 } else { 2 });
        let mut totals = StatAccumulator::new();
        for bar in &bars {
            assert!(totals.accepts_bar(bar));
            totals.push_bar(bar);
        }
        let row = totals.finish("X".into(), "bar", "fwob-v2".into());
        assert_eq!((row.min, row.max), (from_ticks.min, from_ticks.max));
        assert_eq!((row.volume, row.trades), (from_ticks.volume, 3));
        assert_eq!(row.vwap, from_ticks.vwap);
    }
}

#[test]
fn stat_rows_are_written_in_every_text_format() {
    let row = compute_stat(
        "AAPL".into(),
        "fwob-v2".into(),
        &[tick(100, 100_000, 100), tick(160, 120_000, 300)],
    );
    assert_eq!(row.min, Some(100_000));
    assert_eq!(row.max, Some(120_000));
    assert_eq!(row.volume, 400);
    let rows = vec![row];
    for format in [FrameFormat::Table, FrameFormat::Markdown, FrameFormat::Csv] {
        match write_stat(&rows, format).unwrap() {
            StatOutput::Text(text) => {
                assert!(text.contains("AAPL"), "{text}");
                assert!(text.contains("11.5000"), "{text}");
            }
            StatOutput::JsonLines => panic!("{format:?} is text"),
        }
    }
    assert!(matches!(
        write_stat(&rows, FrameFormat::JsonLines).unwrap(),
        StatOutput::JsonLines
    ));
    assert!(write_stat(&rows, FrameFormat::Raw).is_err());
    assert!(write_stat(&rows, FrameFormat::Hex).is_err());
    let empty = StatAccumulator::new().finish("X".into(), "tick", "fwob-v1".into());
    assert_eq!((empty.min, empty.max, empty.vwap), (None, None, Vwap::Undefined));
}
