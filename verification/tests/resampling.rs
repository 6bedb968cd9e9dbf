use mdfwob::civil::{CivilDate, Zone};
use mdfwob::interval::Interval;
use mdfwob::model::{Bar, Tick, Vwap};
use mdfwob::resample::{resample, BarClock, BarResampler, Resampler};
use mdfwob::session::Session;

fn tick(time: u32, price: u32, size: i32) -> Tick {
    Tick { time, price, size }
}

fn every(token: &str) -> Interval {
    Interval::parse(token).unwrap().unwrap()
}

/// UTC epoch of a New York wall-clock instant.
fn ny(year: i16, month: i8, day: i8, hour: u32, minute: u32) -> u32 {
    Zone::get("America/New_York")
        .unwrap()
        .instant(CivilDate { year, month, day }, hour * 60 + minute)
        .unwrap()
}

#[test]
fn aggregates_ohlcv_within_buckets() {
    let ticks = vec![
        tick(0, 100_000, 100),
        tick(30, 120_000, 50),
        tick(59, 110_000, 25),
        tick(60, 115_000, 200),
    ];
    let bars = resample(&ticks, every("1m"), false, &BarClock::Utc);
    assert_eq!(bars.len(), 2);
    let first = bars[0];
    assert_eq!(first.time, 0);
    assert_eq!(first.open, 100_000);
    assert_eq!(first.high, 120_000);
    assert_eq!(first.low, 100_000);
    assert_eq!(first.close, 110_000);
    assert_eq!(first.volume, 175);
    assert_eq!(first.trades, 3);
    // vwap = (10*100 + 12*50 + 11*25) / 175
    assert_eq!(first.vwap, Vwap::Mass((1_000 + 600 + 275) * 10_000));
}

#[test]
fn bar_resampler_aggregates_bars_to_coarser_interval() {
    let input = vec![
        Bar {
            time: 0,
            open: 100_000,
            high: 110_000,
            low: 90_000,
            close: 105_000,
            volume: 100,
            vwap: Vwap::Price(102_000),
            trades: 5,
        },
        Bar {
            time: 30,
            open: 105_000,
            high: 120_000,
            low: 100_000,
            close: 115_000,
            volume: 200,
            vwap: Vwap::Price(110_000),
            trades: 8,
        },
        Bar {
            time: 90,
            open: 115_000,
            high: 116_000,
            low: 110_000,
            close: 112_000,
            volume: 50,
            vwap: Vwap::Price(113_000),
            trades: 2,
        },
    ];
    let mut out = Vec::new();
    let mut r = BarResampler::new(every("1m"), BarClock::Utc);
    for bar in &input {
        assert!(r.accepts(bar));
        out.extend(r.push(bar));
    }
    out.extend(r.finish());
    // Bucket [0,60) merges the first two bars; bucket [60,120) holds the third.
    assert_eq!(out.len(), 2);
    assert_eq!(out[0].time, 0);
    assert_eq!(out[0].open, 100_000); // first bar's open
    assert_eq!(out[0].high, 120_000); // max high
    assert_eq!(out[0].low, 90_000); // min low
    assert_eq!(out[0].close, 115_000); // last bar's close
    assert_eq!(out[0].volume, 300);
    assert_eq!(out[0].trades, 13);
    // vwap rebuilt from price mass: (10.2*100 + 11.0*200) / 300.
    assert_eq!(out[0].vwap, Vwap::Mass(102_000 * 100 + 110_000 * 200));
    assert_eq!(out[1].time, 60);
    assert_eq!(out[1].trades, 2);
    assert_eq!(out[1].vwap, Vwap::Mass(113_000 * 50));
}

#[test]
fn fill_inserts_flat_bars_for_empty_buckets() {
    // Buckets 0 and 180 are present; 60 and 120 are empty.
    let ticks = vec![tick(0, 100_000, 100), tick(180, 130_000, 100)];
    let bars = resample(&ticks, every("1m"), true, &BarClock::Utc);
    assert_eq!(bars.len(), 4);
    assert_eq!(bars[1].time, 60);
    assert_eq!(bars[1].close, 100_000);
    assert_eq!(bars[1].volume, 0);
    assert_eq!(bars[1].trades, 0);
    assert_eq!(bars[3].time, 180);
    assert_eq!(bars[3].close, 130_000);
}

#[test]
fn daily_bars_bucket_by_exchange_local_date() {
    let clock = BarClock::for_timezone("America/New_York").unwrap();

    // 2024-01-02 15:00:00Z == 10:00 ET on Jan 2 (winter, UTC-5).
    let jan2_morning = 1_704_207_600u32;
    // 2024-01-03 00:30:00Z == 19:30 ET on Jan 2 -> still Jan 2's trading day.
    let jan2_after_hours = 1_704_241_800u32;
    // 2024-01-03 15:00:00Z == 10:00 ET on Jan 3 -> next trading day.
    let jan3_morning = 1_704_294_000u32;

    let ticks = vec![
        tick(jan2_morning, 100_000, 100),
        tick(jan2_after_hours, 110_000, 100),
        tick(jan3_morning, 120_000, 100),
    ];
    let bars = resample(&ticks, every("1d"), false, &clock);

    // The 00:30Z tick must NOT start a new (Jan 3 UTC) bar; it belongs to Jan 2 ET.
    assert_eq!(bars.len(), 2);
    // Bar 0 spans Jan 2 ET (midnight ET = 2024-01-02 05:00:00Z = 1_704_171_600).
    assert_eq!(bars[0].time, 1_704_171_600);
    assert_eq!(bars[0].trades, 2);
    assert_eq!(bars[0].close, 110_000);
    // Bar 1 starts at Jan 3 ET midnight (2024-01-03 05:00:00Z = 1_704_258_000).
    assert_eq!(bars[1].time, 1_704_258_000);
    assert_eq!(bars[1].trades, 1);
}

#[test]
fn sub_day_bars_anchor_to_session_open() {
    let session = Session::new("America/New_York", "09:30-16:00").unwrap();
    let clock = BarClock::Session(session);
    // 2024-01-02 09:30 ET (winter, UTC-5).
    let open = 1_704_205_800u32;
    let ticks = vec![
        tick(open, 100_000, 1),                      // 09:30 -> 09:30 bucket
        tick(open + 30 * 60, 110_000, 1),            // 10:00 -> 09:30 bucket (09:30-10:30)
        tick(open + 2 * 3600 + 15 * 60, 120_000, 1), // 11:45 -> 11:30 bucket
        tick(open + 6 * 3600 + 15 * 60, 130_000, 1), // 15:45 -> 15:30 bucket (partial: closes 16:00)
    ];
    let bars = resample(&ticks, every("1h"), false, &clock);
    assert_eq!(bars.len(), 3);
    assert_eq!(bars[0].time, open); // 09:30, not 09:00
    assert_eq!(bars[0].trades, 2);
    assert_eq!(bars[1].time, open + 2 * 3600); // 11:30
    assert_eq!(bars[2].time, open + 6 * 3600); // 15:30 (session's short last bar)
}

#[test]
fn fill_within_session_does_not_cross_overnight_gap() {
    let session = Session::new("America/New_York", "09:30-16:00").unwrap();
    let clock = BarClock::Session(session);
    let day0 = 1_704_205_800u32; // 2024-01-02 09:30 ET
    let day1 = day0 + 86_400; // 2024-01-03 09:30 ET (no DST change between)
    let ticks = vec![
        tick(day0, 100_000, 1),            // 09:30 day0
        tick(day0 + 3 * 3600, 110_000, 1), // 12:30 day0
        tick(day1, 120_000, 1),            // 09:30 day1
    ];
    let bars = resample(&ticks, every("1h"), true, &clock);
    // Day0 fills 10:30/11:30 (between real bars) and 13:30/14:30/15:30 (tail up to the 16:00
    // close), then day1 starts fresh at 09:30 with NO overnight fill in between.
    let times: Vec<u32> = bars.iter().map(|b| b.time).collect();
    assert_eq!(
        times,
        vec![
            day0,
            day0 + 3600,
            day0 + 2 * 3600,
            day0 + 3 * 3600,
            day0 + 4 * 3600,
            day0 + 5 * 3600,
            day0 + 6 * 3600,
            day1,
        ]
    );
    assert_eq!(bars[1].volume, 0); // filled
    assert_eq!(bars[1].close, 100_000);
    assert_eq!(bars[3].volume, 1); // real 12:30
    assert_eq!(bars[6].volume, 0); // filled tail (15:30)
    assert_eq!(bars[7].volume, 1); // real 09:30 day1
}

#[test]
fn utc_clock_keeps_daily_bars_on_utc_midnight() {
    let ticks = vec![
        tick(1_704_207_600, 100_000, 100),
        tick(1_704_241_800, 110_000, 100),
    ];
    // With the UTC clock, the 00:30Z tick falls into the next UTC day.
    let bars = resample(&ticks, every("1d"), false, &BarClock::Utc);
    assert_eq!(bars.len(), 2);
}

#[test]
fn weekly_bars_group_by_calendar_week() {
    let clock = BarClock::for_timezone("America/New_York").unwrap();
    // Tue 2024-01-09 and Thu 2024-01-11 share an ISO week (Mon 2024-01-08);
    // Mon 2024-01-15 starts the next week.
    let ticks = vec![
        tick(ny(2024, 1, 9, 12, 0), 10_000, 1),
        tick(ny(2024, 1, 11, 12, 0), 10_000, 1),
        tick(ny(2024, 1, 15, 12, 0), 10_000, 1),
    ];
    let bars = resample(&ticks, every("1w"), false, &clock);
    assert_eq!(bars.len(), 2);
    assert_eq!(bars[0].trades, 2);
    assert_eq!(bars[0].time, ny(2024, 1, 8, 0, 0)); // Monday midnight ET
    assert_eq!(bars[1].time, ny(2024, 1, 15, 0, 0));
}

#[test]
fn monthly_bars_group_by_calendar_month() {
    let clock = BarClock::for_timezone("America/New_York").unwrap();
    let ticks = vec![
        tick(ny(2024, 1, 15, 12, 0), 10_000, 1),
        tick(ny(2024, 1, 31, 20, 0), 10_000, 1), // late after-hours, still January
        tick(ny(2024, 2, 1, 10, 0), 10_000, 1),
    ];
    let bars = resample(&ticks, every("1mo"), false, &clock);
    assert_eq!(bars.len(), 2);
    assert_eq!(bars[0].trades, 2);
    assert_eq!(bars[0].time, ny(2024, 1, 1, 0, 0));
    assert_eq!(bars[1].time, ny(2024, 2, 1, 0, 0));
}

#[test]
fn yearly_bars_group_by_calendar_year() {
    let clock = BarClock::for_timezone("America/New_York").unwrap();
    let ticks = vec![
        tick(ny(2024, 3, 1, 12, 0), 10_000, 1),
        tick(ny(2024, 12, 31, 18, 0), 10_000, 1),
        tick(ny(2025, 1, 2, 10, 0), 10_000, 1),
    ];
    let bars = resample(&ticks, every("1y"), false, &clock);
    assert_eq!(bars.len(), 2);
    assert_eq!(bars[0].trades, 2);
    assert_eq!(bars[0].time, ny(2024, 1, 1, 0, 0));
    assert_eq!(bars[1].time, ny(2025, 1, 1, 0, 0));
}

#[test]
fn monthly_fill_steps_calendar_months() {
    let clock = BarClock::for_timezone("America/New_York").unwrap();
    // January and April present; February and March must be filled.
    let ticks = vec![
        tick(ny(2024, 1, 10, 12, 0), 100_000, 1),
        tick(ny(2024, 4, 10, 12, 0), 130_000, 1),
    ];
    let bars = resample(&ticks, every("1mo"), true, &clock);
    assert_eq!(bars.len(), 4);
    assert_eq!(bars[1].time, ny(2024, 2, 1, 0, 0));
    assert_eq!(bars[2].time, ny(2024, 3, 1, 0, 0));
    assert_eq!(bars[1].volume, 0);
    assert_eq!(bars[3].time, ny(2024, 4, 1, 0, 0));
}

#[test]
fn an_unknown_zone_makes_no_clock() {
    assert!(BarClock::for_timezone("Nowhere/Land").is_err());
}

#[test]
fn resampling_in_two_stages_is_resampling_at_once() {
    let ticks: Vec<Tick> = (0..500u32)
        .map(|i| tick(i * 7, 100_000 + (i * 37) % 900, 1 + (i % 5) as i32))
        .collect();
    let at_once = resample(&ticks, every("5m"), false, &BarClock::Utc);
    let fine = resample(&ticks, every("1m"), false, &BarClock::Utc);
    let mut out = Vec::new();
    let mut r = BarResampler::new(every("5m"), BarClock::Utc);
    for bar in &fine {
        out.extend(r.push(bar));
    }
    out.extend(r.finish());
    assert_eq!(out, at_once);
}

#[test]
fn resampling_conserves_volume_and_trades() {
    let ticks: Vec<Tick> = (0..100u32).map(|i| tick(i * 45, 100_000, 3)).collect();
    let bars = resample(&ticks, every("10m"), true, &BarClock::Utc);
    assert_eq!(bars.iter().map(|b| b.volume).sum::<i64>(), 300);
    assert_eq!(bars.iter().map(|b| b.trades).sum::<u64>(), 100);
}

#[test]
fn pushing_gives_the_bars_of_the_whole() {
    let ticks: Vec<Tick> = (0..50u32).map(|i| tick(i * 45, 100_000 + i, 3)).collect();
    let mut r = Resampler::new(every("2m"), BarClock::Utc);
    let mut out = Vec::new();
    for t in &ticks {
        assert!(r.accepts(t));
        out.extend(r.push(t));
    }
    out.extend(r.finish());
    assert_eq!(out, resample(&ticks, every("2m"), false, &BarClock::Utc));
}

#[test]
fn buckets_hold_their_instants() {
    let clock = BarClock::Utc;
    for time in [0u32, 59, 60, 3_601, 1_704_205_800, u32::MAX] {
        let start = clock.bucket_start(every("1m"), time);
        assert!(start <= time && time - start < 60, "{time}");
        assert_eq!(clock.bucket_start(every("1m"), start), start);
    }
}
