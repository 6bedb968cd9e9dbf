use mdfwob::civil::Zone;
use mdfwob::feed::{
    request_bars, resolve_sidecar, session_row_filter, sidecar_beside, sources_kind, stale_message, BarPipeline,
    BarRequest, MixedSources, PipelineError, SidecarChoice, SidecarKeys, TickQuery,
};
use mdfwob::interval::Interval;
use mdfwob::model::{Bar, InputKind, Tick};
use mdfwob::resample::BarClock;
use mdfwob::session::Session;
use mdfwob::sidecar::{refresh_sidecar, sidecar_name, sidecar_path, SidecarWrite};

fn every(token: &str) -> Interval {
    Interval::parse(token).unwrap().unwrap()
}

/// Ticks every `step` seconds from `start`, priced by their time.
fn ticks(start: u32, count: u32, step: u32) -> Vec<Tick> {
    (0..count)
        .map(|i| {
            let time = start + i * step;
            Tick { time, price: 1_000_000 + 10_000 * (time / step), size: 10 }
        })
        .collect()
}

fn collect(files: &[Vec<Tick>], fill: bool) -> Vec<Bar> {
    let mut pipeline =
        BarPipeline::new(Some(InputKind::Tick), Some(every("1h")), &BarClock::Utc, fill).unwrap();
    let mut out = Vec::new();
    for file in files {
        for tick in file {
            assert!(pipeline.accepts_tick(tick));
            out.extend(pipeline.push_tick(tick));
        }
    }
    out.extend(pipeline.finish());
    out
}

/// The property a per-file loop gets wrong: a bucket spanning a file boundary must close once,
/// with the OHLC and trade count of the whole hour.
#[test]
fn a_bucket_spanning_two_files_closes_once() {
    // Hour 0 split across two files: 0..1800 and 1800..3600.
    let split = collect(&[ticks(0, 3, 600), ticks(1800, 3, 600)], false);
    assert_eq!(split.len(), 1, "one hour, not two: {split:?}");
    assert_eq!(split[0].trades, 6, "every tick counted once");
    assert_eq!(split[0].volume, 60);

    // Identical to reading the same ticks from a single file.
    let whole = collect(&[ticks(0, 6, 600)], false);
    assert_eq!(whole.len(), 1);
    assert_eq!(split, whole);
}

/// A bar comes out with the first trade of a later bucket, and the last one at the end.
#[test]
fn bars_come_out_as_their_buckets_close() {
    let mut pipeline =
        BarPipeline::new(Some(InputKind::Tick), Some(every("1h")), &BarClock::Utc, false).unwrap();
    let out: Vec<Vec<u32>> = ticks(0, 5, 1_800)
        .iter()
        .map(|tick| pipeline.push_tick(tick).iter().map(|bar| bar.time).collect())
        .collect();
    assert_eq!(out, [vec![], vec![], vec![0], vec![], vec![3_600]]);
    let last: Vec<u32> = pipeline.finish().iter().map(|bar| bar.time).collect();
    assert_eq!(last, [7_200]);
}

#[test]
fn mixing_tick_and_bar_sources_is_refused() {
    assert_eq!(
        sources_kind(&[InputKind::Tick, InputKind::Bar]),
        Err(MixedSources { index: 1 })
    );
    assert_eq!(
        sources_kind(&[InputKind::Bar, InputKind::Bar]),
        Ok(Some(InputKind::Bar))
    );
    assert_eq!(sources_kind(&[]), Ok(None));
}

#[test]
fn only_ticks_are_filtered_by_session() {
    let session = Session::new("America/New_York", "09:30-16:00").unwrap();
    assert!(session_row_filter(&[InputKind::Tick], true, &session).unwrap().is_some());
    assert!(session_row_filter(&[InputKind::Bar], true, &session).unwrap().is_none());
    assert!(session_row_filter(&[InputKind::Tick], false, &session).unwrap().is_none());
    assert!(session_row_filter(&[InputKind::Tick, InputKind::Bar], true, &session).is_err());
}

#[test]
fn queries_are_inclusive() {
    let query = TickQuery { start: Some(10), end: Some(20), session: None };
    assert!(!query.admits(9) && query.admits(10) && query.admits(20) && !query.admits(21));
    let session = Session::new("UTC", "09:30-16:00").unwrap();
    let query = TickQuery { start: None, end: None, session: Some(session) };
    assert!(query.admits(10 * 3_600) && !query.admits(0));
    assert!(query.without_session().admits(0));
}

#[test]
fn a_request_settles_its_scans() {
    let session = Session::new("America/New_York", "09:30-16:00").unwrap();
    let paths = vec!["T.fwob".to_owned()];
    let request = BarRequest::new(&paths, Some(every("1d")), &session)
        .use_rth(true)
        .window(Some(5), Some(9))
        .prefer_sidecar(true);
    let plan = request_bars(&request, &[InputKind::Tick]).unwrap();
    assert!(plan.seek_sidecar);
    assert_eq!((plan.query.start, plan.query.end), (Some(5), Some(9)));
    assert!(plan.query.session.is_some(), "ticks are filtered");
    // The session does not follow the query onto a sidecar: its bars were made under it.
    assert!(plan.sidecar_query.session.is_none());
    assert_eq!((plan.sidecar_query.start, plan.sidecar_query.end), (Some(5), Some(9)));

    let bars = request_bars(&request, &[InputKind::Bar]).unwrap();
    assert!(bars.query.session.is_none(), "bars are not");
    assert!(request_bars(&request, &[InputKind::Bar, InputKind::Tick]).is_err());
}

#[test]
fn forward_fill_bypasses_the_sidecar_since_the_name_cannot_express_it() {
    let session = Session::new("UTC", "00:00-23:59").unwrap();
    let paths = vec!["S.fwob".to_owned()];
    let request = BarRequest::new(&paths, Some(every("1h")), &session)
        .fill(true)
        .prefer_sidecar(true);
    assert!(!request_bars(&request, &[InputKind::Tick]).unwrap().seek_sidecar);
    assert_eq!(collect(&[ticks(0, 6, 600)], true).len(), 1);
}

/// Decides on the sidecar of the symbol `S` beside one tick file in `data`.
fn choice(keys: Option<SidecarKeys>, interval: Interval, use_rth: bool, clock: &BarClock) -> SidecarChoice {
    resolve_sidecar(&[InputKind::Tick], Some("data"), "S", interval, use_rth, keys, clock)
}

#[test]
fn a_stale_sidecar_is_refused_rather_than_silently_truncating() {
    // Stored bars end in hour 0; the source goes on for two more hours.
    let keys = SidecarKeys { bars_last: Some(0), tick_last: Some(17 * 600) };
    let path = "data/S.1h.rth.bars.fwob".to_owned();
    assert_eq!(
        choice(Some(keys), every("1h"), true, &BarClock::Utc),
        SidecarChoice::Stale { path: path.clone(), bars_last: 0, tick_last: 17 * 600 }
    );
    let text = stale_message("a", "b", every("1h"), true, &Zone::utc(), 0, 17 * 600);
    assert!(text.contains("stale"), "{text}");
    assert!(text.contains("mdfwob sync"), "should say how to fix it");

    // Current: the source has not left the stored bucket.
    let keys = SidecarKeys { bars_last: Some(0), tick_last: Some(3_000) };
    assert_eq!(
        choice(Some(keys), every("1h"), true, &BarClock::Utc),
        SidecarChoice::Sidecar { path }
    );
    // Absent, or not beside one tick file.
    assert_eq!(choice(None, every("1h"), true, &BarClock::Utc), SidecarChoice::Source);
    for kinds in [vec![InputKind::Bar], vec![InputKind::Tick, InputKind::Tick], vec![]] {
        assert_eq!(sidecar_beside(&kinds, Some("data"), "S", every("1h"), true), None);
    }
    assert_eq!(sidecar_beside(&[InputKind::Tick], None, "S", every("1h"), true), None);
}

/// Regular hours change the bars, so a request of all hours is never served a file of regular ones.
#[test]
fn the_hours_select_the_sidecar() {
    let beside = |use_rth: bool| {
        sidecar_beside(&[InputKind::Tick], Some("data"), "S", every("1d"), use_rth).unwrap()
    };
    assert_eq!(beside(false), "data/S.1d.bars.fwob");
    assert_eq!(beside(true), "data/S.1d.rth.bars.fwob");
}

#[test]
fn ticks_need_an_interval() {
    assert!(matches!(
        BarPipeline::new(Some(InputKind::Tick), None, &BarClock::Utc, false),
        Err(PipelineError::IntervalRequired)
    ));
    assert!(matches!(
        BarPipeline::new(Some(InputKind::Tick), Some(every("100000y")), &BarClock::Utc, false),
        Err(PipelineError::IntervalTooLong)
    ));
    // Bars pass straight through without one.
    let bars = collect(&[ticks(0, 30, 600)], false);
    let mut pipeline =
        BarPipeline::new(Some(InputKind::Bar), None, &BarClock::Utc, false).unwrap();
    let mut out = Vec::new();
    for bar in &bars {
        assert!(pipeline.accepts_bar(bar));
        out.extend(pipeline.push_bar(bar));
    }
    out.extend(pipeline.finish());
    assert_eq!(out, bars);
}

// ---- sidecars ----

fn all() -> TickQuery {
    TickQuery { start: None, end: None, session: None }
}

/// The bars that one refresh reads out of the source.
fn scanned(source: &[Tick], query: &TickQuery) -> Vec<Bar> {
    let taken: Vec<Tick> = source.iter().copied().filter(|t| query.admits(t.time)).collect();
    collect(&[taken], false)
}

/// Refreshes a stored series from a source; whether it was rebuilt, and how many were appended.
fn refresh(stored: &mut Option<Vec<Bar>>, source: &[Tick]) -> (bool, usize) {
    let resume = stored.as_ref().and_then(|bars| bars.last().map(|b| b.time));
    let plan = refresh_sidecar(resume, all());
    if let Some(trim) = plan.trim {
        stored.as_mut().unwrap().retain(|b| b.time < trim);
    }
    let left = stored.as_ref().map_or(0, |bars| bars.len() as u64);
    let left_last = stored.as_ref().and_then(|bars| bars.last().map(|b| b.time));
    let (write, bars) = plan.finish(&scanned(source, &plan.scan));
    match write {
        SidecarWrite::Create => *stored = Some(bars.clone()),
        SidecarWrite::Append => stored.as_mut().unwrap().extend(bars.iter().copied()),
        SidecarWrite::Leave => {}
    }
    let file = stored.as_ref().unwrap();
    let (total, last_time) = (file.len() as u64, file.last().map(|b| b.time));
    let outcome = plan.outcome("S".into(), "S.1h.bars.fwob".into(), left, left_last, &bars);
    assert_eq!((outcome.symbol.as_str(), outcome.path.as_str()), ("S", "S.1h.bars.fwob"));
    assert_eq!((outcome.total, outcome.last_time), (total, last_time));
    (outcome.rebuilt, outcome.appended as usize)
}

#[test]
fn a_missing_sidecar_is_built_in_full() {
    // 10 hours of ticks, one every 10 minutes.
    let mut stored = None;
    let (rebuilt, appended) = refresh(&mut stored, &ticks(0, 60, 600));
    assert!(rebuilt);
    assert_eq!(stored.unwrap().len(), 10, "ten hourly buckets");
    assert_eq!(appended, 10);
}

#[test]
fn refreshing_an_up_to_date_sidecar_reproduces_the_same_series() {
    let source = ticks(0, 60, 600);
    let mut stored = None;
    refresh(&mut stored, &source);
    let first = stored.clone();
    let (rebuilt, _) = refresh(&mut stored, &source);
    assert!(!rebuilt);
    assert_eq!(first, stored, "refresh must not duplicate bars");
}

#[test]
fn an_incremental_refresh_matches_a_full_rebuild() {
    // Materialize from a truncated source, then grow the source and refresh.
    let mut stored = None;
    refresh(&mut stored, &ticks(0, 30, 600));
    let (rebuilt, _) = refresh(&mut stored, &ticks(0, 60, 600));
    assert!(!rebuilt, "should have resumed, not rebuilt");

    // Ground truth: one full pass over the grown source.
    let mut full = None;
    refresh(&mut full, &ticks(0, 60, 600));
    assert_eq!(stored, full);
}

/// The case a naive "append after the last bar" implementation gets wrong: the stored final
/// bar covered a bucket that was still filling.
#[test]
fn a_partial_trailing_bar_is_rebuilt_not_kept() {
    // First pass sees only the first half of the final hour.
    let mut stored = None;
    refresh(&mut stored, &ticks(0, 4, 600)); // 0..1800s, all inside hour 0
    let before = stored.clone().unwrap();
    assert_eq!(before.len(), 1);

    // The hour completes; the stored bar must be replaced, not preserved.
    refresh(&mut stored, &ticks(0, 6, 600)); // 0..3000s, still hour 0 but more ticks
    let after = stored.unwrap();
    assert_eq!(after.len(), 1, "still one bucket, not two");
    assert_ne!(after[0].close, before[0].close, "the partial bar should have been re-derived");
    assert_eq!(after[0].volume, 60, "six ticks of size 10");
}

#[test]
fn an_empty_source_still_makes_a_file() {
    let plan = refresh_sidecar(None, all());
    let (write, bars) = plan.finish(&Vec::new());
    assert!(matches!(write, SidecarWrite::Create));
    assert!(bars.is_empty());
}

#[test]
fn sidecars_are_named_by_symbol_and_interval() {
    for use_rth in [false, true] {
        let name = sidecar_name("AAPL", every("1h"), use_rth);
        assert!(name.contains("AAPL") && name.contains("1h"), "{name}");
        let path = sidecar_path("data", "AAPL", every("1h"), use_rth);
        assert!(path.starts_with("data/") && path.ends_with(&name), "{path}");
    }
}

fn piped(kind: InputKind, token: &str, clock: &BarClock, fill: bool, input: &Input) -> Vec<Bar> {
    let mut pipeline = BarPipeline::new(Some(kind), Some(every(token)), clock, fill).unwrap();
    let mut out = Vec::new();
    match input {
        Input::Ticks(ticks) => {
            for tick in ticks {
                assert!(pipeline.accepts_tick(tick));
                out.extend(pipeline.push_tick(tick));
            }
        }
        Input::Bars(bars) => {
            for bar in bars {
                assert!(pipeline.accepts_bar(bar));
                out.extend(pipeline.push_bar(bar));
            }
        }
    }
    out.extend(pipeline.finish());
    out
}

enum Input {
    Ticks(Vec<Tick>),
    Bars(Vec<Bar>),
}

/// Two session days of trades, every 40 seconds for an hour each.
fn two_days() -> Vec<Tick> {
    let first = 1_704_205_800;
    let mut all = ticks(first, 90, 40);
    all.extend(ticks(first + 86_400, 90, 40));
    all
}

#[test]
fn session_bars_may_be_made_in_stages() {
    let clock = BarClock::Session(Session::new("America/New_York", "09:30-16:00").unwrap());
    let minutes = piped(InputKind::Tick, "1m", &clock, false, &Input::Ticks(two_days()));
    let staged = piped(InputKind::Bar, "7m", &clock, false, &Input::Bars(minutes));
    let direct = piped(InputKind::Tick, "7m", &clock, false, &Input::Ticks(two_days()));
    assert_eq!(staged, direct);
    assert_eq!(direct.len(), 18);
}

#[test]
fn refreshing_a_filled_session_sidecar_is_rebuilding_it() {
    let clock = BarClock::Session(Session::new("America/New_York", "09:30-16:00").unwrap());
    // Trades every five minutes, so that most one-minute intervals are empty.
    let first = 1_704_205_800;
    let mut all = ticks(first, 12, 300);
    all.extend(ticks(first + 86_400, 12, 300));
    let whole = piped(InputKind::Tick, "1m", &clock, true, &Input::Ticks(all.clone()));
    for n in [1, 5, 12, 13, 20, 24] {
        let mut stored =
            piped(InputKind::Tick, "1m", &clock, true, &Input::Ticks(all[..n].to_vec()));
        let query = TickQuery { start: None, end: None, session: None };
        let plan = refresh_sidecar(stored.last().map(|bar| bar.time), query);
        stored.retain(|bar| Some(bar.time) != plan.trim);
        let scanned: Vec<Tick> =
            all.iter().copied().filter(|tick| plan.scan.admits(tick.time)).collect();
        let fresh = piped(InputKind::Tick, "1m", &clock, true, &Input::Ticks(scanned));
        let (write, kept) = plan.finish(&fresh);
        assert_eq!(write, SidecarWrite::Append);
        stored.extend(kept);
        assert_eq!(stored, whole);
    }
}

/// What an archive holds of a symbol: ticks, and bars beside them.
struct Archive {
    ticks: Vec<Tick>,
    sidecar: Option<Vec<Bar>>,
}

/// Answers a request from ticks, or from the sidecar beside them where there is a current one.
fn asked(request: &BarRequest<'_>, archive: &Archive) -> Vec<Bar> {
    let plan = request_bars(request, &[InputKind::Tick]).unwrap();
    let interval = request.interval.unwrap();
    if let (true, Some(bars)) = (plan.seek_sidecar, &archive.sidecar) {
        let keys = SidecarKeys {
            bars_last: bars.last().map(|bar| bar.time),
            tick_last: archive.ticks.last().map(|tick| tick.time),
        };
        let choice = choice(Some(keys), interval, request.use_rth, &plan.clock);
        assert!(matches!(choice, SidecarChoice::Sidecar { .. }));
        let scan: Vec<Bar> =
            bars.iter().copied().filter(|bar| plan.sidecar_query.admits(bar.time)).collect();
        return piped(InputKind::Bar, &interval.label(), &plan.clock, request.fill, &Input::Bars(scan));
    }
    let scan: Vec<Tick> =
        archive.ticks.iter().copied().filter(|tick| plan.query.admits(tick.time)).collect();
    piped(InputKind::Tick, &interval.label(), &plan.clock, request.fill, &Input::Ticks(scan))
}

/// 09:30 in New York on a day of March 2024, before the clocks change.
fn open(day: u32) -> u32 {
    1_709_562_600 + (day - 4) * 86_400
}

/// Three trading days of half-hourly in-session ticks.
fn three_days() -> Vec<Tick> {
    let times = [4, 5, 6].into_iter().flat_map(|day| (0..12).map(move |i| open(day) + i * 1_800));
    times
        .enumerate()
        .map(|(i, time)| Tick { time, price: 1_000_000 + 10_000 * i as u32, size: 10 })
        .collect()
}

#[test]
fn a_sidecar_is_substituted_transparently() {
    let source = ticks(0, 60, 600);
    let from_ticks = piped(InputKind::Tick, "1h", &BarClock::Utc, false, &Input::Ticks(source.clone()));
    let mut stored = None;
    refresh(&mut stored, &source);
    let keys = SidecarKeys {
        bars_last: stored.as_ref().unwrap().last().map(|bar| bar.time),
        tick_last: source.last().map(|tick| tick.time),
    };
    let choice = choice(Some(keys), every("1h"), true, &BarClock::Utc);
    assert!(matches!(choice, SidecarChoice::Sidecar { .. }));
    let via_sidecar =
        piped(InputKind::Bar, "1h", &BarClock::Utc, false, &Input::Bars(stored.unwrap()));
    assert_eq!(from_ticks.len(), 10);
    assert_eq!(from_ticks, via_sidecar);
}

#[test]
fn a_session_row_filter_does_not_follow_the_query_onto_a_daily_sidecar() {
    let session = Session::new("America/New_York", "09:30-16:00").unwrap();
    let clock = BarClock::Session(session.copy());
    let paths = vec!["T.fwob".to_owned()];
    let daily = piped(InputKind::Tick, "1d", &clock, false, &Input::Ticks(three_days()));
    let archive = Archive { ticks: three_days(), sidecar: Some(daily) };
    let request = |prefer: bool, end: u32| {
        BarRequest::new(&paths, Some(every("1d")), &session)
            .window(Some(open(4) - 34_200), Some(end))
            .prefer_sidecar(prefer)
    };
    let from_ticks = asked(&request(false, open(7)), &archive);
    assert_eq!(from_ticks.len(), 3, "three trading days");
    let via_sidecar = asked(&request(true, open(7)), &archive);
    assert_eq!(from_ticks, via_sidecar);

    // The window still has to be honoured through the sidecar path.
    let narrowed = BarRequest::new(&paths, Some(every("1d")), &session)
        .window(Some(open(5) - 34_200), Some(open(6)));
    assert_eq!(asked(&narrowed, &archive).len(), 2, "start/end must still apply");
}

#[test]
fn the_same_request_gives_the_same_bars_from_ticks_bars_or_a_sidecar() {
    let session = Session::new("America/New_York", "09:30-16:00").unwrap();
    let clock = BarClock::Session(session.copy());
    let paths = vec!["T.fwob".to_owned()];
    // A trade before the open, which regular hours leave out of every answer.
    let mut all = vec![Tick { time: open(4) - 600, price: 990_000, size: 10 }];
    all.extend(three_days());
    let regular: Vec<Tick> = all.iter().copied().filter(|tick| session.contains(tick.time)).collect();
    let stored = |token: &str| {
        piped(InputKind::Tick, token, &clock, false, &Input::Ticks(regular.clone()))
    };
    let archive = Archive { ticks: all.clone(), sidecar: Some(stored("1d")) };
    let request = |prefer: bool| {
        BarRequest::new(&paths, Some(every("1d")), &session)
            .window(Some(open(4) - 34_200), Some(open(7)))
            .prefer_sidecar(prefer)
    };
    let from_ticks = asked(&request(false), &archive);
    assert_eq!(from_ticks.len(), 3, "three trading days");
    assert_eq!(from_ticks[0].open, 1_000_000);

    // A finer bar file as the source: the same daily answer, resampled again.
    let plan = request_bars(&request(false), &[InputKind::Bar]).unwrap();
    let minutes: Vec<Bar> =
        stored("1m").into_iter().filter(|bar| plan.query.admits(bar.time)).collect();
    let from_minutes = piped(InputKind::Bar, "1d", &plan.clock, false, &Input::Bars(minutes));
    let from_sidecar = asked(&request(true), &archive);
    assert_eq!(from_ticks, from_minutes);
    assert_eq!(from_ticks, from_sidecar);
}

#[test]
fn trades_may_be_resampled_in_stages() {
    let source = ticks(30, 200, 7);
    let minutes = piped(InputKind::Tick, "1m", &BarClock::Utc, false, &Input::Ticks(source.clone()));
    let staged = piped(InputKind::Bar, "5m", &BarClock::Utc, false, &Input::Bars(minutes));
    let direct = piped(InputKind::Tick, "5m", &BarClock::Utc, false, &Input::Ticks(source));
    assert_eq!(staged, direct);
    assert_eq!(direct.len(), 5);
}

#[test]
fn weekly_bars_are_the_same_from_ticks_and_from_daily_bars() {
    let session = Session::new("America/New_York", "09:30-16:00").unwrap();
    let clock = BarClock::Session(session);
    // Ten trading days over the change to summer time on 10 March 2024.
    let mut source = Vec::new();
    for day in [4, 5, 6, 7, 8, 11, 12, 13, 14, 15] {
        let early = if day > 10 { 3_600 } else { 0 };
        source.extend(ticks(open(day) - early, 6, 1_800));
    }
    for stored in ["1m", "1d", "1w"] {
        let bars = piped(InputKind::Tick, stored, &clock, false, &Input::Ticks(source.clone()));
        let staged = piped(InputKind::Bar, "1w", &clock, false, &Input::Bars(bars));
        let direct = piped(InputKind::Tick, "1w", &clock, false, &Input::Ticks(source.clone()));
        assert_eq!(staged, direct, "from {stored}");
        assert_eq!(direct.len(), 2);
    }
}

#[test]
fn filling_steps_by_the_interval_and_leaves_the_traded_bars() {
    let mut source = ticks(0, 2, 60);
    source.extend(ticks(600, 1, 60));
    let bare = piped(InputKind::Tick, "1m", &BarClock::Utc, false, &Input::Ticks(source.clone()));
    let filled = piped(InputKind::Tick, "1m", &BarClock::Utc, true, &Input::Ticks(source));
    let times: Vec<u32> = filled.iter().map(|bar| bar.time).collect();
    assert_eq!(times, (0..=10).map(|i| i * 60).collect::<Vec<u32>>());
    let traded: Vec<Bar> = filled.iter().copied().filter(|bar| bar.trades > 0).collect();
    assert_eq!(traded, bare);
    assert!(filled[2..10].iter().all(|bar| bar.close == bare[1].close && bar.volume == 0));
}
