use mdfwob::ibkr::{
    classify_recovery, epoch_after, is_competing_session_notice, is_connection_loss,
    is_connectivity_restore, stall_timeout, ApiError, ClientSlot, Collector, Event, IbkrFailure,
    IbkrRequestError, Silence, SocketError, Step,
};
use mdfwob::civil::Zone;
use mdfwob::inspect::{FieldSemantic, FieldType, TimestampUnit};
use mdfwob::interval::Interval;
use mdfwob::ls::BoundaryKey;
use mdfwob::mcp::dto::{iso, iso_opt, BarRow, InspectReport, Listing, StatEntry, VerifyReport};
use mdfwob::mcp::root::{
    collect_dir, merge_selection, require_files, root_candidate, single_file, Component, DirEntry,
    Found, Located, Root, RootError,
};
use mdfwob::mcp::server::{
    caption, check_chart, clamp_limit, image_text, push_chart_bar, series, tool_indicators,
    McpServer, Recent, Selection, ToolError, DEFAULT_LIMIT, MAX_LIMIT, MAX_PLOT_BARS,
};
use mdfwob::mcp::McpArgs;
use mdfwob::model::{Bar, InputKind, Tick, Vwap};
use mdfwob::provider::RecoveryAction;
use mdfwob::report::{
    inspect_entries, inspect_frames, verify_entries, Counted, Entry, Frames, Header, SchemaField,
};
use mdfwob::session::{Session, SessionError};
use mdfwob::settings::AnalysisConfig;
use mdfwob::stat::compute_stat;

fn words(tokens: &[&str]) -> Vec<String> {
    tokens.iter().map(|t| (*t).to_owned()).collect()
}

fn ny() -> Zone {
    Zone::get("America/New_York").unwrap()
}

fn bar(time: u32, close: u32) -> Bar {
    Bar {
        time,
        open: close,
        high: close,
        low: close,
        close,
        volume: 10,
        vwap: Vwap::Price(close),
        trades: 1,
    }
}

// ---- the server ----

#[test]
fn limit_is_clamped_into_range() {
    assert_eq!(clamp_limit(None), DEFAULT_LIMIT);
    assert_eq!(clamp_limit(Some(0)), 1);
    assert_eq!(clamp_limit(Some(50)), 50);
    assert_eq!(clamp_limit(Some(usize::MAX)), MAX_LIMIT);
}

#[test]
fn truncation_keeps_the_most_recent_rows() {
    let mut recent = Recent::new(Some(3));
    for i in 0..10u32 {
        assert!(recent.accepts());
        recent = recent.push(i);
    }
    let (rows, total) = recent.finish();
    assert_eq!(rows, vec![7, 8, 9]);
    assert_eq!(total, 10);

    let daily = Interval::parse("1d").unwrap().unwrap();
    let cut = series("AAPL".into(), daily, &ny(), total, rows);
    assert!(cut.truncated);
    assert_eq!((cut.total, cut.returned), (10, 3));
    assert_eq!(cut.interval, "1d");
    assert_eq!(cut.timezone, "America/New_York");
    let hint = cut.hint.unwrap();
    assert!(hint.starts_with("showing the most recent 3 of 10 bars"), "{hint}");

    let whole = series("AAPL".into(), daily, &ny(), 2, vec![1, 2]);
    assert!(!whole.truncated);
    assert!(whole.hint.is_none());
}

fn selection() -> Selection {
    Selection {
        symbols: Vec::new(),
        start: None,
        end: None,
        use_rth: None,
        session: None,
        tz: None,
    }
}

#[test]
fn calls_fall_back_to_the_server() {
    let args = McpArgs {
        root: None,
        config: None,
        session: Some("10:00-11:00".into()),
        tz: Some("UTC".into()),
    };
    let server = McpServer::new(AnalysisConfig::default(), args.session, args.tz);
    let session = server.session_for(true, None, None).unwrap();
    assert_eq!(session.length_seconds(), 3_600);
    assert_eq!(session.time_zone().name(), "UTC");
    let session = server.session_for(true, Some("09:00-11:00"), Some("America/New_York")).unwrap();
    assert_eq!(session.length_seconds(), 7_200);
    assert_eq!(session.time_zone().name(), "America/New_York");

    let mut sel = selection();
    sel.start = Some("1970-01-02".into());
    sel.use_rth = Some(true);
    let pipeline = server.pipeline(&sel, None).unwrap();
    assert_eq!(pipeline.interval.label(), "1d");
    assert_eq!(pipeline.scope.start, Some(86_400));
    assert!(pipeline.scope.query().session.is_some());
}

#[test]
fn each_refused_request_is_told_apart() {
    let server = McpServer::new(AnalysisConfig::default(), None, None);
    let mut sel = selection();
    sel.tz = Some("Nowhere".into());
    assert_eq!(
        server.pipeline(&sel, Some("soon")).unwrap_err(),
        ToolError::Session(SessionError::UnknownZone)
    );
    let mut sel = selection();
    sel.end = Some("soon".into());
    assert_eq!(server.pipeline(&sel, Some("soon")).unwrap_err(), ToolError::UnknownInterval);
    assert!(matches!(server.pipeline(&sel, Some("0d")).unwrap_err(), ToolError::Interval(_)));
    assert!(matches!(server.pipeline(&sel, Some("1d")).unwrap_err(), ToolError::Bound(_)));
    assert!(matches!(server.scope(&sel).unwrap_err(), ToolError::Bound(_)));
    assert_eq!(tool_indicators(&[]).unwrap_err(), ToolError::NoSpecs);
    assert!(matches!(
        tool_indicators(&words(&["sma:20", "nope"])).unwrap_err(),
        ToolError::Spec(e) if e.index == 1 && e.problem.is_none()
    ));
    assert_eq!(tool_indicators(&words(&["sma:20"])).unwrap().len(), 1);
}

#[test]
fn charts_show_one_symbol_and_not_too_many_bars() {
    assert_eq!(check_chart(2).unwrap_err(), ToolError::ManySymbols(2));
    assert_eq!(check_chart(0).unwrap_err(), ToolError::NoSymbol);
    assert!(check_chart(1).is_ok());
    let mut bars = vec![bar(0, 1); MAX_PLOT_BARS - 1];
    assert!(push_chart_bar(&mut bars, bar(1, 1)).is_ok());
    assert_eq!(push_chart_bar(&mut bars, bar(2, 1)).unwrap_err(), ToolError::TooManyBars);
    assert_eq!(bars.len(), MAX_PLOT_BARS);

    let daily = Interval::parse("1d").unwrap().unwrap();
    let shown = vec![bar(1_704_171_600, 1), bar(1_704_258_000, 1)];
    assert_eq!(
        caption("AAPL", &shown, daily, &ny()).unwrap(),
        "AAPL: 2 1d bars from 2024-01-02T00:00:00-05:00 to 2024-01-03T00:00:00-05:00"
    );
    assert!(caption("AAPL", &Vec::new(), daily, &ny()).is_none());
}

#[test]
fn images_are_sent_as_base64() {
    assert_eq!(image_text(&b"Man".to_vec()), "TWFu");
    assert_eq!(image_text(&b"Ma".to_vec()), "TWE=");
    assert_eq!(image_text(&b"M".to_vec()), "TQ==");
    assert_eq!(image_text(&vec![0xfb, 0xff, 0xfe]), "+//+");
    assert_eq!(image_text(&Vec::new()), "");
}

// ---- the wire types ----

#[test]
fn times_are_shown_in_the_zone() {
    assert_eq!(iso(1_704_205_800, &ny()), "2024-01-02T09:30:00-05:00");
    assert_eq!(iso_opt(None, &ny()), None);
    let row = BarRow::new(&bar(1_704_205_800, 5), &ny());
    assert_eq!(row.time, "2024-01-02T09:30:00-05:00");
    assert_eq!(row.close, 5);
    let listing = Listing::new(vec![1, 2]);
    assert_eq!(listing.items, vec![1, 2]);
}

#[test]
fn an_empty_file_has_no_figures() {
    let row = compute_stat("AAPL".into(), "fwob-v2".into(), &[]);
    let entry = StatEntry::new(row, &ny());
    assert_eq!((entry.min, entry.max, entry.vwap), (None, None, Vwap::Undefined));
    assert_eq!(entry.first, None);
    let row = compute_stat(
        "AAPL".into(),
        "fwob-v2".into(),
        &[Tick { time: 1_704_205_800, price: 7, size: 2 }],
    );
    let report = VerifyReport::new("AAPL.fwob".into(), InputKind::Tick, 1, row, &ny());
    assert_eq!(report.status, "ok");
    assert_eq!(report.symbol, "AAPL");
    assert_eq!(report.data.min, Some(7));
}

fn header(frame_count: u64) -> Header {
    Header {
        title: "AAPL".into(),
        stem: Some("file".into()),
        format: "fwob-v2".into(),
        frame_type: "Bar".into(),
        key_field_index: 0,
        frame_count,
        physical_bytes: 321,
        first: Some(BoundaryKey::U32(1_704_205_800)),
        last: Some(BoundaryKey::U32(1_704_205_860)),
        fields: vec![
            SchemaField {
                name: "time".into(),
                field_type: FieldType::UnsignedInteger,
                length: 4,
                offset: 0,
                semantic: FieldSemantic::UnixTimestamp(TimestampUnit::Seconds),
            },
            SchemaField {
                name: "trades".into(),
                field_type: FieldType::UnsignedInteger,
                length: 8,
                offset: 4,
                semantic: FieldSemantic::Plain,
            },
        ],
    }
}

#[test]
fn an_overview_is_listed_line_by_line() {
    let rth = Session::new("America/New_York", "09:30-16:00").unwrap();
    let frames = Frames::Bars(
        vec![bar(1_704_205_800, 1_000_000), bar(1_704_205_860, 1_010_000)],
        Vec::new(),
    );
    let report = inspect_frames(header(2), &frames, &rth, &ny());
    assert_eq!(report.symbol, "AAPL");
    assert_eq!(report.granularity.as_deref(), Some("1m"));
    assert_eq!(report.hours, Some("rth"));
    let entries = inspect_entries(&report, &ny());
    let has = |key: &str, text: &str| {
        entries
            .iter()
            .any(|e| matches!(e, Entry::Text(k, v) if *k == key && v == text))
    };
    assert!(matches!(entries[0], Entry::Section("file")));
    assert!(has("title", "AAPL"));
    assert!(has("kind", "bar"));
    assert!(has("timezone", "America/New_York"));
    assert!(has("first", "2024-01-02T09:30:00-05:00"));
    assert!(has("granularity", "1m"));
    assert!(has("semantic", "unix-seconds"));
    assert!(!has("semantic", "none"));
    assert!(matches!(entries.last().unwrap(), Entry::Multiline("preview", _)));

    let wire = InspectReport::new(&report, "AAPL.fwob".into(), &ny());
    assert_eq!(wire.fields.len(), 2);
    assert_eq!(wire.fields[1].semantic, "none");
    assert_eq!(wire.hours, "rth");

    let empty = inspect_frames(
        header(0),
        &Frames::Ticks(Vec::new(), Vec::new()),
        &rth,
        &ny(),
    );
    assert_eq!(empty.hours, None);
    assert_eq!(empty.granularity, None);
    assert_eq!(InspectReport::new(&empty, "f".into(), &ny()).hours, "n/a");
}

#[test]
fn a_verification_is_listed_line_by_line() {
    let row = compute_stat(
        "AAPL".into(),
        "fwob-v2".into(),
        &[
            Tick { time: 1_704_205_800, price: 100_000, size: 1 },
            Tick { time: 1_704_205_801, price: 120_000, size: 3 },
        ],
    );
    let counted = Counted { frame_count: 2, string_count: 0, file_length: 99 };
    let entries = verify_entries("AAPL", InputKind::Tick, counted, &row, &ny());
    let quotient = |key: &str| {
        entries.iter().find_map(|e| match e {
            Entry::Quotient(k, num, den) if *k == key => Some(*num as f64 / *den as f64),
            _ => None,
        })
    };
    assert_eq!(quotient("min"), Some(10.0));
    assert_eq!(quotient("max"), Some(12.0));
    assert_eq!(quotient("vwap"), Some(11.5));
    assert!(matches!(entries.last().unwrap(), Entry::Number("volume", 4)));
    assert!(matches!(&entries[1], Entry::Text("status", ok) if ok == "ok"));
}

// ---- the sandbox ----

fn path(names: &[&str]) -> Vec<Component> {
    let mut out = vec![Component::RootDir];
    out.extend(names.iter().map(|n| Component::Normal((*n).to_owned())));
    out
}

#[test]
fn rejects_parent_directory_escapes() {
    let root = Root::new(path(&["data"]));
    let escape = [Component::ParentDir, Component::Normal("secrets".into())];
    assert_eq!(root.check_token(false, &escape), Err(RootError::Escapes));
    let prefix = [Component::Prefix("C:".into())];
    assert_eq!(root.check_token(false, &prefix), Err(RootError::Escapes));
    let inside = [Component::CurDir, Component::Normal("AAPL".into())];
    assert_eq!(root.check_token(false, &inside), Ok(()));
}

#[test]
fn rejects_absolute_paths() {
    let root = Root::new(path(&["data"]));
    assert_eq!(root.check_token(true, &path(&["etc", "hosts"])), Err(RootError::Absolute));
}

#[test]
fn resolves_a_bare_symbol_to_a_fwob_file() {
    let root = Root::new(path(&["data"]));
    assert_eq!(root.locate(Found::Nothing, true), Ok(Located::Symbol));
    assert_eq!(root.locate(Found::File, true), Ok(Located::File));
    assert_eq!(root.locate(Found::Directory, true), Ok(Located::Directory));
}

#[test]
fn unknown_symbol_is_an_error() {
    let root = Root::new(path(&["data"]));
    assert_eq!(root.locate(Found::Nothing, false), Err(RootError::Missing));
}

#[test]
fn a_link_out_of_the_root_is_refused() {
    let root = Root::new(path(&["srv", "data"]));
    assert_eq!(root.ensure_contained(&path(&["srv", "data", "AAPL.fwob"])), Ok(()));
    assert_eq!(
        root.ensure_contained(&path(&["srv", "database", "AAPL.fwob"])),
        Err(RootError::Escapes)
    );
    assert_eq!(root.ensure_contained(&path(&["srv"])), Err(RootError::Escapes));
    let inside = || path(&["srv", "data", "AAPL.fwob"]);
    let outside = path(&["etc", "MSFT.fwob"]);
    assert_eq!(root.ensure_all_contained(&vec![inside(), inside()]), Ok(()));
    assert_eq!(root.ensure_all_contained(&vec![inside(), outside]), Err(RootError::Escapes));
    assert_eq!(root.ensure_all_contained(&vec![]), Ok(()));
}

#[test]
fn empty_selection_lists_only_fwob_files_in_the_root() {
    let entry = |name: &str, is_file: bool| DirEntry { name: name.to_owned(), is_file };
    let names = collect_dir(&vec![
        entry("MSFT.fwob", true),
        entry("notes.txt", true),
        entry("AAPL.FWOB", true),
        entry("dir.fwob", false),
        entry(".fwob", true),
        entry("fwob", true),
    ]);
    assert_eq!(names, vec!["AAPL.FWOB", "MSFT.fwob"]);
}

#[test]
fn selections_hold_each_file_once() {
    assert_eq!(merge_selection(&words(&["b", "a", "b", "c", "a"])), words(&["b", "a", "c"]));
    assert_eq!(require_files(0), Err(RootError::Empty));
    assert_eq!(require_files(2), Ok(()));
    assert_eq!(single_file(1), Ok(()));
    assert_eq!(single_file(3), Err(RootError::ManyFiles(3)));
    let mut config = AnalysisConfig::default();
    assert_eq!(root_candidate(&None, &config), ".");
    config.output_dir = Some("data".into());
    assert_eq!(root_candidate(&None, &config), "data");
    assert_eq!(root_candidate(&Some("x".into()), &config), "x");
}

// ---- the gateway ----

#[test]
fn only_connectivity_restore_codes_bump_the_epoch() {
    assert!(is_connectivity_restore(1101));
    assert!(is_connectivity_restore(1102));
    // Loss (1100), socket reset (1300), and farm-status notices must not bump.
    assert!(!is_connectivity_restore(1100));
    assert!(!is_connectivity_restore(1300));
    assert!(!is_connectivity_restore(2104));
    assert_eq!(epoch_after(4, 1101), 5);
    assert_eq!(epoch_after(4, 1100), 4);
    assert_eq!(epoch_after(u64::MAX, 1102), 0);
}

fn failed(failure: IbkrFailure, generation: u64) -> IbkrRequestError {
    IbkrRequestError { failure, generation }
}

#[test]
fn classifies_orphaned_reset_reconnect_and_canceled_failures() {
    let orphaned = failed(IbkrFailure::Orphaned, 3);
    assert_eq!(classify_recovery(&orphaned), Some(RecoveryAction::Retry));

    let reset = failed(IbkrFailure::Api(ApiError::ConnectionReset), 0);
    assert_eq!(classify_recovery(&reset), Some(RecoveryAction::Retry));

    let lost = failed(IbkrFailure::Api(ApiError::ConnectionFailed), 7);
    assert_eq!(
        classify_recovery(&lost),
        Some(RecoveryAction::Reconnect { generation: 7 })
    );

    let shutdown = failed(IbkrFailure::Api(ApiError::Shutdown), 9);
    assert_eq!(
        classify_recovery(&shutdown),
        Some(RecoveryAction::Reconnect { generation: 9 })
    );

    // A stalled request retries on the existing client (no reconnect → no 326 self-collision).
    let stalled = failed(IbkrFailure::Stalled(30), 5);
    assert_eq!(classify_recovery(&stalled), Some(RecoveryAction::Retry));

    // A competing-session notice (10187) is transient: retry from the unchanged cursor.
    assert!(is_competing_session_notice(10187));
    let competing = failed(IbkrFailure::Api(ApiError::Notice(10187)), 2);
    assert_eq!(classify_recovery(&competing), Some(RecoveryAction::Retry));

    // An unrelated notice (e.g. 200 no security definition) stays fatal.
    let no_contract = failed(IbkrFailure::Api(ApiError::Notice(200)), 0);
    assert_eq!(classify_recovery(&no_contract), None);

    // Cancellation is not retryable; the downloader stops cleanly via its own cancel check.
    let canceled = failed(IbkrFailure::Canceled, 0);
    assert_eq!(classify_recovery(&canceled), None);

    // Unrelated errors are not recoverable.
    assert_eq!(classify_recovery(&failed(IbkrFailure::Api(ApiError::Other), 0)), None);
}

#[test]
fn socket_loss_io_errors_reconnect_and_resume() {
    for kind in [
        SocketError::ConnectionAborted,
        SocketError::UnexpectedEof,
        SocketError::ConnectionReset,
        SocketError::BrokenPipe,
        SocketError::NotConnected,
        SocketError::ConnectionRefused,
    ] {
        assert!(is_connection_loss(kind));
        let error = failed(IbkrFailure::Api(ApiError::Socket(kind)), 4);
        assert_eq!(
            classify_recovery(&error),
            Some(RecoveryAction::Reconnect { generation: 4 }),
            "kind {kind:?} should reconnect"
        );
    }

    // A non-connection I/O error is not a transport loss and must stay non-retryable.
    let unrelated = failed(IbkrFailure::Api(ApiError::Socket(SocketError::Other)), 1);
    assert_eq!(classify_recovery(&unrelated), None);
}

#[test]
fn failures_are_said_once() {
    let said = "Trading TWS session is connected from a different IP address";
    let error = failed(IbkrFailure::Api(ApiError::Notice(10187)), 0);
    assert_eq!(error.message(said), said);
    assert_eq!(
        failed(IbkrFailure::Stalled(30), 0).message(said),
        "request stalled with no response from IBKR for 30s"
    );
    assert_eq!(failed(IbkrFailure::Canceled, 0).message(said), "request canceled");
    assert_eq!(
        failed(IbkrFailure::Orphaned, 0).message(said),
        "request orphaned by an IBKR connectivity loss"
    );
}

fn silence(waited_ms: u128, idle_ms: u128) -> Silence {
    Silence { waited_ms, idle_ms, canceled: false, epoch: 7 }
}

#[test]
fn a_request_collects_until_its_stream_ends() {
    let mut collector = Collector::new(2, 7, stall_timeout(60));
    for i in 0..3 {
        collector = match collector.step(Event::Data(i)) {
            Step::Wait(next, true) => next,
            _ => panic!("data is progress"),
        };
    }
    collector = match collector.step(Event::Notice) {
        Step::Wait(next, true) => next,
        _ => panic!("a notice is progress"),
    };
    collector = match collector.step(Event::Silence(silence(1_000, 59_999))) {
        Step::Wait(next, false) => next,
        _ => panic!("a slow request goes on"),
    };
    match collector.step(Event::Silence(silence(499, 0))) {
        Step::Done(data) => assert_eq!(data, vec![0, 1, 2]),
        _ => panic!("a short wait ends the request"),
    }
}

#[test]
fn each_failed_request_is_told_apart() {
    let fail = |event: Event<u32>| match Collector::new(2, 7, stall_timeout(60)).step(event) {
        Step::Failed(error) => error,
        _ => panic!("the request fails"),
    };
    assert_eq!(
        fail(Event::Failed(ApiError::Shutdown)),
        failed(IbkrFailure::Api(ApiError::Shutdown), 2)
    );
    assert_eq!(
        fail(Event::Silence(Silence { canceled: true, ..silence(1_000, 0) })),
        failed(IbkrFailure::Canceled, 2)
    );
    assert_eq!(
        fail(Event::Silence(Silence { epoch: 8, ..silence(1_000, 0) })),
        failed(IbkrFailure::Orphaned, 2)
    );
    assert_eq!(
        fail(Event::Silence(silence(1_000, 60_000))),
        failed(IbkrFailure::Stalled(60), 2)
    );
    // Without stall detection it waits on.
    let patient: Collector<u32> = Collector::new(2, 7, stall_timeout(0));
    assert!(matches!(
        patient.step(Event::Silence(silence(1_000, u128::MAX))),
        Step::Wait(_, false)
    ));
}

#[test]
fn one_generation_is_replaced_once() {
    let mut slot = ClientSlot::new(0usize);
    let mut connects = 0;
    for _ in 0..8 {
        if slot.needs_replacement(0) {
            connects += 1;
            slot = slot.replace_if_generation(0, 1);
        }
    }
    let (client, generation) = slot.snapshot();
    assert_eq!(*client, 1);
    assert_eq!(generation, 1);
    assert_eq!(connects, 1);
    // A late attempt on the old generation leaves the client.
    let slot = slot.replace_if_generation(0, 9);
    assert_eq!(slot.snapshot(), (&1, 1));
}

/// A zone is found in any case and shown as the database spells it.
#[test]
fn zones_are_shown_by_their_identifier() {
    assert_eq!(mdfwob::civil::Zone::get("america/NEW_YORK").unwrap().name(), "America/New_York");
    assert_eq!(mdfwob::civil::Zone::get("utc").unwrap().name(), "UTC");
    assert_eq!(mdfwob::civil::Zone::utc().name(), "UTC");
}
