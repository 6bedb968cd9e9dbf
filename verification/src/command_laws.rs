//! What a command line comes to: its words, the settings in force, and how a download goes on.
use vstd::prelude::*;

use crate::calc::BuiltIn;
use crate::commands::{CommandError, Flags, ScopeModel};
use crate::download::{
    DownloadArgs, DownloadConfig, DownloadError, DownloadPlan, IbkrConfig, StockContractConfig,
};
use crate::fwob_options::FwobOptions;
use crate::ibkr::{ApiError, IbkrFailure, IbkrRequestError, Silence, SocketError};
use crate::interval::{Granularity, IntervalUnit};
use crate::ls::LsFormat;
use crate::output::{AnalysisFormat, FrameFormat};
use crate::provider::{ProviderKind, RecoveryAction};
use crate::session::{SessionError, SessionModel};
use crate::settings::{AnalysisConfig, IntervalSetting, SessionConfig};
use crate::tokens::{Grammar, GrammarError, Reading, Word};

verus! {

// ---- words -------------------------------------------------------------------------------

/// The words that have a meaning of their own: `rth` everywhere, `fill` wherever bars are made.
pub proof fn flags_are_words(grammar: Grammar)
    ensures
        crate::tokens::word(grammar, "rth"@) is Rth,
        grammar != Grammar::Stat ==> crate::tokens::word(grammar, "fill"@) is Fill,
        !(crate::tokens::word(Grammar::Stat, "fill"@) is Fill),
{
    reveal_strlit("rth");
    reveal_strlit("fill");
    assert("rth"@.len() != "fill"@.len());
}

/// A word that is no flag is a range if it reads as one; else an interval, where bars are made; else
/// an indicator, where there are any; else a format; and if it is none of these, a path.
pub proof fn words_mean_what_they_read_as(grammar: Grammar, token: Seq<char>)
    requires
        token != "rth"@,
        token != "fill"@,
    ensures
        ({
            let word = crate::tokens::word(grammar, token);
            let range = crate::bounds::range_named(token);
            let interval = crate::interval::token_meaning(token);
            let spec = crate::calc::spec_meaning(token);
            let format = AnalysisFormat::named(token);
            let bars = grammar == Grammar::Bars || grammar == Grammar::Calc;
            let (start, end) = range->0;
            &&& range is Some ==> word == Word::Range(start, end)
            &&& range is None && bars && interval is Some ==> word == Word::Interval(interval->0)
            &&& range is None && interval is None && grammar == Grammar::Calc && spec is Some
                ==> word == Word::Spec(spec->0)
            &&& range is None && interval is None && spec is None && format is Some ==> word
                == Word::Format(format->0)
            &&& range is None && interval is None && spec is None && format is None ==> word is Path
            &&& grammar == Grammar::Stat && range is None && format is None ==> word is Path
            &&& grammar == Grammar::Stat ==> !(word is Interval) && !(word is Spec)
            &&& grammar == Grammar::Bars ==> !(word is Spec)
        }),
{
}

/// Each word adds what it says to a reading and leaves the rest of it alone; a second range, interval
/// or format, and a bad interval or indicator, are refused.
pub proof fn words_add_what_they_say(reading: Reading, word: Word, token: Seq<char>)
    ensures
        match reading.with(word, token) {
            Err(e) => match word {
                Word::Range(_, _) => reading.range is Some && e == GrammarError::ManyRanges,
                Word::Interval(Ok(_)) => reading.interval is Some && e
                    == GrammarError::ManyIntervals,
                Word::Interval(Err(x)) => e == GrammarError::Interval(x),
                Word::Spec(Err(x)) => e == GrammarError::Spec(x),
                Word::Format(_) => reading.format is Some && e == GrammarError::ManyFormats,
                _ => false,
            },
            Ok(next) => {
                &&& next.use_rth == (reading.use_rth || word is Rth)
                &&& next.fill == (reading.fill || word is Fill)
                &&& if word is Path {
                    next.paths == reading.paths.push(token)
                } else {
                    next.paths == reading.paths
                }
                &&& if word is Spec {
                    next.specs == reading.specs.push(token)
                } else {
                    next.specs == reading.specs
                }
                &&& match word {
                    Word::Range(start, end) => reading.range is None && next.start() == start
                        && next.end() == end,
                    _ => next.range == reading.range,
                }
                &&& match word {
                    Word::Interval(interval) => reading.interval is None && interval is Ok
                        && next.interval == Some(interval->Ok_0),
                    _ => next.interval == reading.interval,
                }
                &&& match word {
                    Word::Format(format) => reading.format is None && next.format_or_table()
                        == format,
                    _ => next.format == reading.format,
                }
            },
        },
{
}

/// Words are taken one after another from a reading of nothing: no path, no range, a table.
pub proof fn readings_start_from_nothing(grammar: Grammar, tokens: Seq<Seq<char>>, token: Seq<char>)
    ensures
        ({
            let nothing = crate::tokens::read(grammar, Seq::empty());
            &&& nothing is Ok
            &&& nothing->Ok_0.paths.len() == 0
            &&& nothing->Ok_0.specs.len() == 0
            &&& nothing->Ok_0.interval is None
            &&& nothing->Ok_0.start() is None
            &&& nothing->Ok_0.end() is None
            &&& !nothing->Ok_0.use_rth
            &&& !nothing->Ok_0.fill
            &&& nothing->Ok_0.format_or_table() == AnalysisFormat::Frame(FrameFormat::Table)
        }),
        match crate::tokens::read(grammar, tokens) {
            Err(e) => crate::tokens::read(grammar, tokens.push(token)) == Err::<
                Reading,
                GrammarError,
            >(e),
            Ok(reading) => crate::tokens::read(grammar, tokens.push(token)) == reading.with(
                crate::tokens::word(grammar, token),
                token,
            ),
        },
{
    assert(tokens.push(token).drop_last() =~= tokens);
}

/// The names of the output formats.
pub proof fn formats_by_name(value: Seq<char>)
    ensures
        AnalysisFormat::named("fwob"@) == Some(AnalysisFormat::Fwob),
        FrameFormat::Raw.token() == "raw"@,
        FrameFormat::Table.token() == "table"@,
        FrameFormat::Markdown.token() == "md"@,
        FrameFormat::Csv.token() == "csv"@,
        FrameFormat::JsonLines.token() == "jsonl"@,
        FrameFormat::Hex.token() == "hex"@,
        LsFormat::named(value) == Some(LsFormat::Table) <==> value == "table"@,
        LsFormat::named(value) == Some(LsFormat::Markdown) <==> value == "md"@,
        LsFormat::named(value) == Some(LsFormat::Csv) <==> value == "csv"@,
        LsFormat::named(value) == Some(LsFormat::JsonLines) <==> value == "jsonl"@,
{
    reveal_strlit("table");
    reveal_strlit("md");
    reveal_strlit("csv");
    reveal_strlit("jsonl");
    assert("table"@[0] == 't' && "md"@[0] == 'm' && "csv"@[0] == 'c' && "jsonl"@[0] == 'j');
}

/// A listing takes at most one format; every other word is a path, in order.
pub proof fn listings_take_one_format(tokens: Seq<Seq<char>>, token: Seq<char>)
    ensures
        crate::tokens::ls_reading(Seq::empty()) == Some((Seq::<Seq<char>>::empty(), None::<LsFormat>)),
        crate::tokens::ls_reading(tokens) is None ==> crate::tokens::ls_reading(tokens.push(token))
            is None,
        crate::tokens::ls_reading(tokens) is Some ==> ({
            let (paths, format) = crate::tokens::ls_reading(tokens)->0;
            let next = crate::tokens::ls_reading(tokens.push(token));
            let named = LsFormat::named(token);
            &&& named is None ==> next == Some((paths.push(token), format))
            &&& named is Some && format is None ==> next == Some((paths, named))
            &&& named is Some && format is Some ==> next is None
        }),
{
    assert(tokens.push(token).drop_last() =~= tokens);
}

/// Asking for volume takes that word out and leaves the others as they are.
pub proof fn volume_is_taken_out(tokens: Seq<Seq<char>>)
    ensures
        crate::tokens::without_volume(tokens) == tokens.filter(|t: Seq<char>| t != "volume"@),
    decreases tokens.len(),
{
    reveal(Seq::filter);
    if tokens.len() > 0 {
        volume_is_taken_out(tokens.drop_last());
    } else {
        assert(tokens.filter(|t: Seq<char>| t != "volume"@) =~= tokens);
    }
}

/// Lower case changes the letters A to Z and nothing else.
pub proof fn lower_case_changes_letters_only(text: Seq<char>, i: int)
    requires
        0 <= i < text.len(),
    ensures
        crate::tokens::lower_text(text).len() == text.len(),
        65 <= text[i] as int <= 90 ==> crate::tokens::lower_text(text)[i] as int == text[i] as int
            + 32,
        !(65 <= text[i] as int <= 90) ==> crate::tokens::lower_text(text)[i] == text[i],
{
}

/// A config is a word that ends in `.toml`, in any case.
pub proof fn configs_end_in_toml(stem: Seq<char>)
    ensures
        crate::tokens::names_config(stem + ".toml"@),
        crate::tokens::names_config(stem + ".TOML"@),
{
    reveal_strlit(".toml");
    reveal_strlit(".TOML");
    let a = crate::tokens::lower_text(stem + ".toml"@);
    let b = crate::tokens::lower_text(stem + ".TOML"@);
    assert(a.skip(a.len() - 5) =~= ".toml"@);
    assert(b.skip(b.len() - 5) =~= ".toml"@);
}

// ---- settings ----------------------------------------------------------------------------

/// Whether a session is in a zone with certain hours.
pub open spec fn in_zone_with_hours(
    session: Result<SessionModel, SessionError>,
    zone: Seq<char>,
    hours: Seq<char>,
) -> bool {
    if !crate::civil::zone_known(zone) {
        session == Err::<SessionModel, SessionError>(SessionError::UnknownZone)
    } else if crate::session::hours_of(hours) is None {
        session == Err::<SessionModel, SessionError>(SessionError::BadHours)
    } else {
        &&& session is Ok
        &&& session->Ok_0.zone == zone
        &&& Some((session->Ok_0.open, session->Ok_0.close)) == crate::session::hours_of(hours)
    }
}

/// The settings of the regular hours apply where those are asked for, and of the extended hours
/// elsewhere. A flag wins over the settings; without either, regular hours are from half past nine to
/// four, and extended ones from four to eight.
pub proof fn sessions_come_from_flags_then_settings(
    flags: Flags,
    config: AnalysisConfig,
    use_rth: bool,
)
    ensures
        ({
            let base: SessionConfig = if use_rth {
                config.rth
            } else {
                config.extended
            };
            let zone = if flags.tz is Some {
                flags.tz->0@
            } else {
                base.tz@
            };
            let hours = if flags.session is Some {
                flags.session->0@
            } else if !crate::settings::blank(base.hours@) {
                base.hours@
            } else if use_rth {
                "09:30-16:00"@
            } else {
                "04:00-20:00"@
            };
            in_zone_with_hours(
                crate::commands::session_in_force(flags, config, use_rth),
                zone,
                hours,
            )
        }),
{
}

/// A text is blank where it holds nothing but white space.
pub proof fn blank_texts_hold_white_space(text: Seq<char>)
    ensures
        crate::settings::blank(text) <==> crate::text::end_trimmed(text).len() == 0,
{
    crate::table_laws::trimming_takes_only_white_space(text);
    let kept = crate::text::end_trimmed(text);
    if crate::settings::blank(text) && kept.len() > 0 {
        assert(crate::text::is_space(text[kept.len() - 1]));
        assert(kept[kept.len() - 1] == text[kept.len() - 1]);
    }
}

/// A command reads regular hours where the flag or the word for them is given. Its window is that of
/// the flags, and of the words on a side that has no flag, read in the session's zone.
pub proof fn scopes_come_from_flags_then_words(
    flags: Flags,
    config: AnalysisConfig,
    reading: Reading,
    scope: ScopeModel,
)
    requires
        crate::commands::scope_in_force(flags, config, reading) == Ok::<ScopeModel, CommandError>(
            scope,
        ),
    ensures
        scope.use_rth <==> flags.use_rth || reading.use_rth,
        crate::commands::session_in_force(flags, config, flags.use_rth || reading.use_rth) == Ok::<
            SessionModel,
            SessionError,
        >(scope.session),
        ({
            let start = if flags.start is Some {
                Some(flags.start->0@)
            } else {
                reading.start()
            };
            let end = if flags.end is Some {
                Some(flags.end->0@)
            } else {
                reading.end()
            };
            &&& scope.start is Some <==> start is Some
            &&& scope.end is Some <==> end is Some
            &&& start is Some ==> crate::bounds::bound_named(start->0, false, scope.session.zone)
                == Ok::<u32, crate::bounds::BoundError>(scope.start->0)
            &&& end is Some ==> crate::bounds::bound_named(end->0, true, scope.session.zone) == Ok::<
                u32,
                crate::bounds::BoundError,
            >(scope.end->0)
        }),
{
}

/// An interval on the command line wins over the one in the settings; without either it is one day.
pub proof fn intervals_default_to_a_day(
    token: Option<(nat, IntervalUnit)>,
    config: Option<Seq<char>>,
)
    ensures
        ({
            let r = crate::settings::interval_in_force(token, config);
            &&& token is Some ==> r is Ok && r->Ok_0 == token->0
            &&& token is None && config is None ==> r is Ok && r->Ok_0 == (1nat, IntervalUnit::Day)
            &&& token is None && config is Some ==> match crate::interval::token_meaning(config->0) {
                None => r is Err && r->Err_0 == IntervalSetting::NotInterval,
                Some(Err(e)) => r is Err && r->Err_0 == IntervalSetting::Bad(e),
                Some(Ok(interval)) => r is Ok && r->Ok_0 == interval,
            }
        }),
{
}

/// Symbols of the settings are read where the command line names nothing.
pub proof fn inputs_default_to_the_settings(paths: Seq<Seq<char>>, symbols: Seq<Seq<char>>)
    ensures
        paths.len() > 0 ==> crate::settings::inputs_in_force(paths, symbols) == paths,
        paths.len() == 0 ==> crate::settings::inputs_in_force(paths, symbols) == symbols,
{
    if paths.len() == 0 && symbols.len() == 0 {
        assert(paths =~= symbols);
    }
}

/// An interval divides a session unevenly where it is shorter than a day and the session's seconds
/// leave a rest; intervals of days and more never do.
pub proof fn uneven_intervals_leave_a_rest(
    secs: u32,
    granularity: Granularity,
    session: SessionModel,
    bars: int,
)
    requires
        secs > 0,
    ensures
        crate::settings::uneven(Granularity::SubDay(secs), session) ==> 60 * (session.close
            - session.open) != secs * bars,
        60 * (session.close - session.open) == secs * bars ==> !crate::settings::uneven(
            Granularity::SubDay(secs),
            session,
        ),
        !(granularity is SubDay) ==> !crate::settings::uneven(granularity, session),
{
    let length = (session.close - session.open) * 60;
    if length == secs * bars {
        assert(secs * bars == bars * secs) by (nonlinear_arith);
        vstd::arithmetic::div_mod::lemma_mod_multiples_basic(bars, secs as int);
    }
}

/// A session that does not come out even says so: the seconds leave a rest.
pub proof fn a_rest_is_uneven(secs: u32, session: SessionModel, bars: int, rest: int)
    requires
        0 < rest < secs,
        60 * (session.close - session.open) == secs * bars + rest,
    ensures
        crate::settings::uneven(Granularity::SubDay(secs), session),
{
    let length = (session.close - session.open) * 60;
    assert(secs * bars == bars * secs) by (nonlinear_arith);
    vstd::arithmetic::div_mod::lemma_fundamental_div_mod_converse(length, secs as int, bars, rest);
}

/// A session's length is written in hours and minutes, and neither where it is none.
pub proof fn lengths_are_in_hours_and_minutes(hours: int, minutes: int)
    requires
        0 <= hours,
        0 <= minutes < 60,
    ensures
        ({
            let text = crate::settings::session_length_text(3_600 * hours + 60 * minutes);
            let h = crate::text::decimal(hours as nat).push('h');
            let m = crate::text::decimal(minutes as nat).push('m');
            &&& hours == 0 ==> text == m
            &&& hours > 0 && minutes == 0 ==> text == h
            &&& hours > 0 && minutes > 0 ==> text == h + m
        }),
{
    let text = crate::settings::session_length_text(3_600 * hours + 60 * minutes);
    let h = crate::text::decimal(hours as nat).push('h');
    let m = crate::text::decimal(minutes as nat).push('m');
    assert(hours == 0 ==> text =~= m);
    assert(hours > 0 && minutes == 0 ==> text =~= h);
    assert(hours > 0 && minutes > 0 ==> text =~= h + m);
}

// ---- downloads ---------------------------------------------------------------------------

/// A value on the command line wins over the configured one.
pub proof fn given_values_win<T>(given: T, configured: T, other: Option<T>)
    ensures
        crate::download::given_or(Some(given), configured) == given,
        crate::download::given_or(None, configured) == configured,
        crate::download::given_or_else(Some(given), other) == Some(given),
        crate::download::given_or_else(None, other) == other,
{
}

/// A download keeps the configured value of everything that the command line leaves out.
pub proof fn downloads_keep_their_settings(
    r: DownloadConfig,
    args: DownloadArgs,
    provider: Option<ProviderKind>,
    config: DownloadConfig,
)
    requires
        crate::download::downloads(r, args, provider, config),
    ensures
        r.output_dir == (if args.output is Some {
            args.output->0
        } else {
            config.output_dir
        }),
        r.provider == (if provider is Some {
            provider->0
        } else {
            config.provider
        }),
        r.start == (if args.start is Some {
            args.start
        } else {
            config.start
        }),
        r.end == (if args.end is Some {
            args.end
        } else {
            config.end
        }),
        args.rth ==> r.use_rth,
        !args.rth && args.all_hours ==> !r.use_rth,
        !args.rth && !args.all_hours ==> r.use_rth == config.use_rth,
        r.parallelism == (if args.parallelism is Some {
            args.parallelism->0
        } else {
            config.parallelism
        }),
        r.request_interval_ms == (if args.request_interval_ms is Some {
            args.request_interval_ms->0
        } else {
            config.request_interval_ms
        }),
        r.retry_interval_ms == (if args.retry_interval_ms is Some {
            args.retry_interval_ms->0
        } else {
            config.retry_interval_ms
        }),
        r.commit_interval_seconds == (if args.commit_interval_seconds is Some {
            args.commit_interval_seconds->0
        } else {
            config.commit_interval_seconds
        }),
        r.timezone == (if args.timezone is Some {
            args.timezone->0
        } else {
            config.timezone
        }),
{
}

/// A download connects to what the command line names, and to what is configured elsewhere.
pub proof fn downloads_connect_as_told(r: IbkrConfig, args: DownloadArgs, config: IbkrConfig)
    requires
        crate::download::connects(r, args, config),
    ensures
        r.host == (if args.host is Some {
            args.host->0
        } else {
            config.host
        }),
        r.port == (if args.port is Some {
            args.port->0
        } else {
            config.port
        }),
        r.client_id == (if args.client_id is Some {
            args.client_id->0
        } else {
            config.client_id
        }),
        r.reconnect_timeout_seconds == (if args.reconnect_timeout_seconds is Some {
            args.reconnect_timeout_seconds->0
        } else {
            config.reconnect_timeout_seconds
        }),
        r.stall_timeout_seconds == (if args.stall_timeout_seconds is Some {
            args.stall_timeout_seconds->0
        } else {
            config.stall_timeout_seconds
        }),
{
}

/// Both kinds of hours at once, no parallelism, a compression level outside 1 to 22, and nothing to
/// download are refused, in that order; nothing else is.
pub proof fn bad_downloads_are_refused(args: DownloadArgs, symbols: nat, from_config: bool)
    ensures
        ({
            let r = crate::download::refusal(args, symbols, from_config);
            let both = args.rth && args.all_hours;
            let idle = args.parallelism == Some(0usize);
            let level = args.zstd_level is Some && (args.zstd_level->0 < 1 || args.zstd_level->0
                > 22);
            let nothing = !from_config && symbols == 0;
            &&& r is None <==> !both && !idle && !level && !nothing
            &&& both ==> r == Some(DownloadError::BothHours)
            &&& !both && idle ==> r == Some(DownloadError::NoParallelism)
            &&& !both && !idle && level ==> r == Some(DownloadError::BadZstdLevel)
            &&& !both && !idle && !level && nothing ==> r == Some(DownloadError::SymbolsRequired)
        }),
{
}

/// Symbols on the command line are stocks of their own without a config, traded in dollars; with one
/// they choose among its stocks, and without any of them all are taken.
pub proof fn symbols_choose_what_is_taken(
    plan: DownloadPlan,
    args: DownloadArgs,
    symbols: Vec<String>,
    from_config: bool,
    stocks: Seq<StockContractConfig>,
    symbol: Seq<char>,
)
    requires
        crate::download::selects(plan, args, symbols, from_config, stocks),
    ensures
        crate::download::taken(plan.only, symbol) <==> !from_config || symbols@.len() == 0
            || crate::text::texts(symbols@).contains(symbol),
        from_config ==> plan.config.stocks@ == stocks,
        !from_config ==> {
            &&& plan.config.stocks@.len() == stocks.len() + 1
            &&& plan.config.stocks@[stocks.len() as int].symbols == symbols
            &&& plan.config.stocks@[stocks.len() as int].currency@ == "USD"@
            &&& plan.config.stocks@[stocks.len() as int].exchange@ == "SMART"@
            &&& plan.config.stocks@[stocks.len() as int].primary_exchange == args.primary_exchange
        },
{
    let names = crate::text::texts(symbols@);
    if from_config && symbols@.len() > 0 {
        if crate::download::named(symbols@, symbol) {
            let i = choose|i: int| 0 <= i < symbols@.len() && (#[trigger] symbols@[i])@ == symbol;
            assert(names[i] == symbol);
        }
        if names.contains(symbol) {
            let i = choose|i: int| 0 <= i < names.len() && names[i] == symbol;
            assert(symbols@[i]@ == symbol);
        }
    }
}

/// A compression level on the command line is written with, and counts as a choice of the writer's
/// options; it changes nothing else.
pub proof fn levels_tune_the_writer(level: i32, options: FwobOptions)
    ensures
        crate::download::writer_options(None, options) == options,
        crate::download::writer_options(Some(level), options).zstd_level == level,
        crate::download::writer_options(Some(level), options).explicit_v2_options,
        (FwobOptions {
            zstd_level: options.zstd_level,
            explicit_v2_options: options.explicit_v2_options,
            ..crate::download::writer_options(Some(level), options)
        }) == options,
{
}

/// The names of the providers.
pub proof fn providers_by_name(value: Seq<char>)
    ensures
        ProviderKind::named(value) == Some(ProviderKind::Ibkr) <==> value == "ibkr"@,
        ProviderKind::named(value) == Some(ProviderKind::Databento) <==> value == "databento"@,
        ProviderKind::named(value) == Some(ProviderKind::Polygon) <==> value == "polygon"@,
        ProviderKind::named(value) == Some(ProviderKind::ThetaData) <==> value == "thetadata"@,
        ProviderKind::named(value) is Some ==> ProviderKind::named(value)->0.token() == value,
{
    reveal_strlit("ibkr");
    reveal_strlit("databento");
    reveal_strlit("polygon");
    reveal_strlit("thetadata");
    assert("ibkr"@[0] == 'i' && "databento"@[0] == 'd' && "polygon"@[0] == 'p' && "thetadata"@[0]
        == 't');
}

// ---- requests ----------------------------------------------------------------------------

/// A request that was dropped or stalled, or met a reset or a competing session, is issued again; one
/// whose connection is gone is issued once the client has been rebuilt; a canceled one, and any other
/// failure, is given up.
pub proof fn failures_are_recovered_by_kind(error: IbkrRequestError)
    ensures
        ({
            let r = crate::ibkr::recovery(error);
            let again = error.failure is Orphaned || error.failure is Stalled || error.failure
                == IbkrFailure::Api(ApiError::ConnectionReset) || error.failure == IbkrFailure::Api(
                ApiError::Notice(10_187),
            );
            let gone = error.failure == IbkrFailure::Api(ApiError::ConnectionFailed)
                || error.failure == IbkrFailure::Api(ApiError::Shutdown) || (error.failure is Api
                && error.failure->Api_0 is Socket && error.failure->Api_0->Socket_0
                != SocketError::Other);
            &&& r == Some(RecoveryAction::Retry) <==> again
            &&& r == Some(RecoveryAction::Reconnect { generation: error.generation }) <==> gone
            &&& r is None <==> !again && !gone
        }),
{
}

/// What silence means: a wait that ends early ends the request; a canceled request fails as such, one
/// across a loss of connectivity as dropped, and one without a message for the stall window, where
/// there is one, as stalled. Otherwise it goes on.
pub proof fn silence_is_judged_in_order(silence: Silence, start_epoch: u64, stall: Option<u64>)
    ensures
        ({
            let r = crate::ibkr::silence_means(silence, start_epoch, stall);
            let over = silence.waited_ms < 500;
            let lost = silence.epoch != start_epoch;
            let idle = stall is Some && silence.idle_ms >= 1_000 * stall->0;
            &&& over <==> r is Some && r->0 is Ok
            &&& !over && silence.canceled ==> r is Some && r->0 is Err && r->0->Err_0
                == IbkrFailure::Canceled
            &&& !over && !silence.canceled && lost ==> r is Some && r->0 is Err && r->0->Err_0
                == IbkrFailure::Orphaned
            &&& !over && !silence.canceled && !lost && idle ==> r is Some && r->0 is Err
                && r->0->Err_0 == IbkrFailure::Stalled(stall->0)
            &&& !over && !silence.canceled && !lost && !idle ==> r is None
        }),
{
}

/// A client is replaced only by whoever saw the one in place, and a replaced one is another.
pub proof fn replacing_needs_the_current_generation(generation: u64, observed: u64)
    ensures
        crate::ibkr::generation_after(generation, observed) == generation <==> observed
            != generation,
        observed == generation && generation < u64::MAX ==> crate::ibkr::generation_after(
            generation,
            observed,
        ) == generation + 1,
{
}

/// Connectivity is restored by the notices 1101 and 1102 alone.
pub proof fn restores_are_two_notices(code: int)
    ensures
        crate::ibkr::restores(code) <==> code == 1_101 || code == 1_102,
{
}

} // verus!
