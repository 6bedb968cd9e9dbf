use mdfwob::feed::BarPipeline;
use mdfwob::frames::{
    decode_bar, decode_tick, encode_bar, encode_tick, BAR_FRAME_LEN, TICK_FRAME_LEN,
};
use mdfwob::interval::Interval;
use mdfwob::model::{Bar, InputKind, Tick, Vwap};
use mdfwob::output::{BarSeries, FrameFormat, TooManySymbols};
use mdfwob::render::{
    bar_parts, calc_parts, detect_kind, render_bars, tick_parts, FrameStream, Part, RenderError,
};
use mdfwob::resample::BarClock;
use mdfwob::session::Session;
use mdfwob::summary::SummaryColumn;

fn bar(volume: i64, vwap: Vwap) -> Bar {
    Bar {
        time: 1_704_205_800,
        open: 1_850_000,
        high: 1_852_500,
        low: 1_849_900,
        close: 1_851_000,
        volume,
        vwap,
        trades: 5,
    }
}

fn stored(bar: &Bar) -> Vec<u8> {
    let mut bytes = Vec::new();
    encode_bar(bar, &mut bytes);
    bytes
}

#[test]
fn a_tick_reads_back_as_it_was_written() {
    for size in [0, 100, -100, i32::MAX, i32::MIN] {
        let tick = Tick { time: 1_704_205_800, price: 1_850_025, size };
        let mut bytes = Vec::new();
        encode_tick(&tick, &mut bytes);
        assert_eq!(bytes.len(), TICK_FRAME_LEN);
        assert_eq!(decode_tick(&bytes), Some(tick));
    }
}

#[test]
fn tick_bytes_are_little_endian() {
    let mut bytes = vec![7];
    encode_tick(&Tick { time: 0x0102_0304, price: 10_000, size: -1 }, &mut bytes);
    assert_eq!(bytes, [7, 4, 3, 2, 1, 0x10, 0x27, 0, 0, 255, 255, 255, 255]);
}

#[test]
fn a_bar_reads_back_as_it_was_written() {
    for volume in [500, -500, i64::MAX, i64::MIN] {
        let bar = bar(volume, Vwap::Price(1_850_700));
        let bytes = stored(&bar);
        assert_eq!(bytes.len(), BAR_FRAME_LEN);
        assert_eq!(decode_bar(&bytes), Some(bar));
    }
}

#[test]
fn a_bar_without_an_average_price_reads_back_without_one() {
    let bytes = stored(&bar(0, Vwap::Undefined));
    assert_eq!(decode_bar(&bytes), Some(bar(0, Vwap::Undefined)));
}

#[test]
fn an_exact_average_is_stored_in_whole_units() {
    // 1,850,000 and 1,850,001 traded evenly: half a unit goes up.
    let bytes = stored(&bar(2, Vwap::Mass(3_700_001)));
    assert_eq!(decode_bar(&bytes), Some(bar(2, Vwap::Price(1_850_001))));
}

#[test]
fn frames_of_another_length_are_refused() {
    assert_eq!(decode_tick(&[0; 11]), None);
    assert_eq!(decode_tick(&[0; 13]), None);
    assert_eq!(decode_bar(&[0; 39]), None);
    assert_eq!(decode_bar(&[0; 41]), None);
}

/// Twenty one-minute prints from the open make four five-minute bars.
#[test]
fn stored_ticks_make_bars() {
    let session = Session::new("America/New_York", "09:30-16:00").unwrap();
    let interval = Interval::parse("5m").unwrap().unwrap();
    let clock = BarClock::Session(session);
    let mut pipeline =
        BarPipeline::new(Some(InputKind::Tick), Some(interval), &clock, false).unwrap();
    let mut bars = Vec::new();
    for i in 0..20u32 {
        let mut bytes = Vec::new();
        let tick = Tick { time: 1_704_205_800 + 60 * i, price: 1_850_000 + 1_000 * i, size: 100 };
        encode_tick(&tick, &mut bytes);
        let tick = decode_tick(&bytes).unwrap();
        assert!(pipeline.accepts_tick(&tick));
        bars.extend(pipeline.push_tick(&tick));
    }
    bars.extend(pipeline.finish());
    assert_eq!(bars.len(), 4);
    for (i, bar) in bars.iter().enumerate() {
        assert_eq!(bar.time, 1_704_205_800 + 300 * i as u32);
        assert_eq!(bar.open, 1_850_000 + 5_000 * i as u32);
        assert_eq!(bar.close, bar.open + 4_000);
        assert_eq!(bar.high, bar.close);
        assert_eq!(bar.low, bar.open);
        assert_eq!(bar.volume, 500);
        assert_eq!(bar.trades, 5);
    }
    assert_eq!(bars.iter().map(|b| b.volume).sum::<i64>(), 2_000);
}

// ---- rendering ----

fn one(symbol: &str) -> BarSeries {
    BarSeries { symbol: symbol.to_owned(), bars: vec![bar(500, Vwap::Price(1_850_700))] }
}

fn rendered(series: &Vec<BarSeries>, format: FrameFormat) -> String {
    String::from_utf8(render_bars(series, format).unwrap()).unwrap()
}

#[test]
fn csv_carries_the_stored_integers() {
    assert_eq!(
        rendered(&vec![one("AAPL")], FrameFormat::Csv),
        "time,open,high,low,close,volume,vwap,trades\n\
         1704205800,1850000,1852500,1849900,1851000,500,1850700,5\n"
    );
    assert_eq!(
        rendered(&vec![one("AAPL")], FrameFormat::Raw),
        "1704205800 1850000 1852500 1849900 1851000 500 1850700 5\n"
    );
}

#[test]
fn several_series_share_a_symbol_column() {
    assert_eq!(
        rendered(&vec![one("AAPL"), one("MSFT")], FrameFormat::Csv),
        "Symbol,time,open,high,low,close,volume,vwap,trades\n\
         AAPL,1704205800,1850000,1852500,1849900,1851000,500,1850700,5\n\
         MSFT,1704205800,1850000,1852500,1849900,1851000,500,1850700,5\n"
    );
}

#[test]
fn tables_show_prices_and_instants() {
    let table = rendered(&vec![one("AAPL")], FrameFormat::Table);
    let lines: Vec<&str> = table.lines().collect();
    assert_eq!(lines.len(), 2);
    let cells: Vec<&str> = lines[1].split_whitespace().collect();
    assert_eq!(
        cells,
        ["2024-01-02T14:30:00Z", "185.0000", "185.2500", "184.9900", "185.1000", "500", "185.0700", "5"]
    );
}

#[test]
fn hex_rows_are_the_frame_behind_its_symbol() {
    let series = vec![one("AAPL"), one("MSFT")];
    let text = rendered(&series, FrameFormat::Hex);
    let payload: String =
        stored(&series[0].bars[0]).iter().map(|byte| format!("{byte:02x}")).collect();
    assert_eq!(text, format!("00{payload}\n01{payload}\n"));
}

#[test]
fn too_many_series_cannot_share_a_table() {
    let many: Vec<BarSeries> = (0..257).map(|i| one(&format!("S{i}"))).collect();
    assert_eq!(
        render_bars(&many, FrameFormat::Csv),
        Err(RenderError::Symbols(TooManySymbols { count: 257 }))
    );
    assert_eq!(rendered(&vec![], FrameFormat::Csv), "time,open,high,low,close,volume,vwap,trades\n");
}

fn head(name: &str, decimals: u8) -> SummaryColumn {
    SummaryColumn { name: name.to_owned(), decimals }
}

#[test]
fn absent_values_are_left_out_of_their_row() {
    let parts = calc_parts(&[head("sma_3", 4), head("ret_log", 8)]).unwrap();
    let (stream, header) = FrameStream::new("Calc", parts, vec![], FrameFormat::Csv).unwrap();
    assert_eq!(header, b"time,close,sma_3,ret_log\n");
    let mut payload = Vec::new();
    payload.extend_from_slice(&1_704_205_800u32.to_le_bytes());
    payload.extend_from_slice(&1_851_000u32.to_le_bytes());
    payload.extend_from_slice(&i32::MIN.to_le_bytes());
    payload.extend_from_slice(&(-12_345i32).to_le_bytes());
    assert_eq!(stream.emit(0, &payload).unwrap(), b"1704205800,1851000,,-12345\n");
    assert_eq!(stream.emit(0, &vec![0; 3]), Err(RenderError::Refused));
}

#[test]
fn columns_the_formatter_cannot_show_are_refused() {
    assert!(calc_parts(&[head("sma_3", 9)]).is_none());
    let twice = || Part { name: "time".to_owned(), kind: 1, length: 4, meaning: 1 };
    let refused = FrameStream::new("Calc", vec![twice(), twice()], vec![], FrameFormat::Csv);
    assert!(matches!(refused, Err(RenderError::Refused)));
    assert_eq!(bar_parts().len(), 8);
}

#[test]
fn files_are_told_apart_by_their_columns() {
    assert_eq!(detect_kind("Tick", 0, &tick_parts()), Some(InputKind::Tick));
    assert_eq!(detect_kind("Bar", 0, &bar_parts()), Some(InputKind::Bar));
    assert_eq!(detect_kind("Bar", 0, &tick_parts()), None);
    assert_eq!(detect_kind("Tick", 1, &tick_parts()), None);
    let mut plain = tick_parts();
    plain[1].meaning = 0;
    assert_eq!(detect_kind("Tick", 0, &plain), Some(InputKind::Tick));
    plain[2].length = 8;
    assert_eq!(detect_kind("Tick", 0, &plain), None);
}

#[test]
fn what_is_too_long_to_align_is_refused() {
    let named = |length: usize| {
        let mut parts = calc_parts(&[]).unwrap();
        parts[1].name = "x".repeat(length);
        parts
    };
    let opened = |length: usize, format: FrameFormat| {
        FrameStream::new("Calc", named(length), vec![], format).is_ok()
    };
    assert!(opened(65_535, FrameFormat::Table));
    assert!(!opened(65_536, FrameFormat::Table));
    assert!(opened(65_536, FrameFormat::Csv), "only a table is aligned");

    let series = |length: usize| {
        let symbols = ["A".to_owned(), "b".repeat(length)];
        symbols.map(|symbol| BarSeries { symbol, bars: vec![] }).into_iter().collect::<Vec<_>>()
    };
    assert!(render_bars(&series(65_535), FrameFormat::Table).is_ok());
    assert_eq!(render_bars(&series(65_536), FrameFormat::Table), Err(RenderError::Refused));
    assert!(render_bars(&series(65_536), FrameFormat::JsonLines).is_ok());
}
