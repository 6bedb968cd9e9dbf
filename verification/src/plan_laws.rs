//! What commands plan and helpers decide, call by call.
use vstd::prelude::*;

use crate::calc::BuiltIn;
use crate::commands::{
    AllFailed, BarsPlan, CalcPlan, CommandError, Flags, LsPlan, OutputRequired, PlotPlan,
    PlotRefusal, Scope, StatPlan, Target,
};
use crate::download::{Config, DownloadArgs, DownloadError, DownloadPlan};
use crate::feed::{BarPipeline, BarRequest, Making, MixedSources, PipelineError, TickQuery};
use crate::fwob_options::{
    BadZstdLevel, Codec, CodecArg, Encoding, EncodingArg, FwobOptions, ParsedTokens, TokenError,
    V2WriterOptions,
};
use crate::grouping::Group;
use crate::ibkr::ClientSlot;
use crate::interval::{Interval, IntervalError};
use crate::ls::LsFormat;
use crate::mcp::root::{Component, Found, Located, Root, RootError};
use crate::mcp::server::{McpServer, Pipeline, Selection, ToolError};
use crate::model::{Bar, InputKind, Tick};
use crate::output::{AnalysisFormat, BarRows, BarSeries, FrameFormat, TooManySymbols};
use crate::plot::BadSpec;
use crate::render::Part;
use crate::resample::BarClock;
use crate::session::Session;
use crate::settings::AnalysisConfig;
use crate::stat::{StatAccumulator, UnsupportedFormat};
use crate::summary::{PricePath, SummaryCollector};
use crate::tokens::{BarsTokens, CalcTokens, Grammar, GrammarError, MisplacedConfig, StatTokens};

verus! {

// ---- commands ----------------------------------------------------------------------------

/// Where symbols are looked up: the configured directory, or the current one.
pub open spec fn looked_up_in(dir: Seq<char>, config: AnalysisConfig) -> bool {
    dir == if config.output_dir is Some {
        config.output_dir->0@
    } else {
        "."@
    }
}

/// What a command reads: the paths it names, or else the configured symbols.
pub open spec fn reads(inputs: Seq<String>, paths: Seq<Seq<char>>, config: AnalysisConfig) -> bool {
    crate::text::texts(inputs) == if paths.len() > 0 {
        paths
    } else {
        crate::text::texts(config.symbols@)
    }
}

/// A summary reads what its words and flags name, in their window and hours, and goes out in a text
/// format; a bad word, a file format, a bad session and a bad bound are refused.
pub proof fn summaries_are_planned(
    flags: &Flags,
    tokens: &[String],
    config: &AnalysisConfig,
    r: Result<StatPlan, CommandError>,
)
    requires
        call_ensures(crate::commands::plan_stat, (flags, tokens, config), r),
    ensures
        ({
            let read = crate::tokens::read(Grammar::Stat, crate::text::texts(tokens@));
            let scope = crate::commands::scope_in_force(*flags, *config, read->Ok_0);
            &&& read is Err ==> r is Err && r->Err_0 == CommandError::Grammar(read->Err_0)
            &&& read is Ok && read->Ok_0.format_or_table() == AnalysisFormat::Fwob ==> r is Err
                && r->Err_0 == CommandError::StatToFile
            &&& r is Ok ==> {
                &&& read is Ok
                &&& scope is Ok
                &&& r->Ok_0.scope@ == scope->Ok_0
                &&& read->Ok_0.format_or_table() == AnalysisFormat::Frame(r->Ok_0.format)
                &&& reads(r->Ok_0.inputs@, read->Ok_0.paths, *config)
                &&& looked_up_in(r->Ok_0.dir@, *config)
            }
            &&& read is Ok && read->Ok_0.format_or_table() != AnalysisFormat::Fwob && scope is Ok
                ==> r is Ok
            &&& read is Ok && read->Ok_0.format_or_table() != AnalysisFormat::Fwob && scope is Err
                ==> r is Err && r->Err_0 == scope->Err_0
        }),
{
    if r is Ok {
        let paths = crate::tokens::read(
            Grammar::Stat,
            crate::text::texts(tokens@),
        )->Ok_0.paths;
        crate::command_laws::inputs_default_to_the_settings(
            paths,
            crate::text::texts(config.symbols@),
        );
    }
}

/// Bars are made at the interval named, or configured, or of one day; filled where the word or the
/// setting says so; from the inputs, in the window and the hours of the words and flags.
pub proof fn bars_are_planned(
    flags: &Flags,
    tokens: &[String],
    config: &AnalysisConfig,
    r: Result<BarsPlan, CommandError>,
)
    requires
        call_ensures(crate::commands::plan_bars, (flags, tokens, config), r),
    ensures
        ({
            let read = crate::tokens::read(Grammar::Bars, crate::text::texts(tokens@));
            let scope = crate::commands::scope_in_force(*flags, *config, read->Ok_0);
            let interval = crate::settings::interval_in_force(
                read->Ok_0.interval,
                crate::commands::opt_text(config.bars.interval),
            );
            &&& read is Err ==> r is Err && r->Err_0 == CommandError::Grammar(read->Err_0)
            &&& read is Ok ==> (r is Ok <==> scope is Ok && interval is Ok)
            &&& read is Ok && interval is Err ==> r->Err_0 == CommandError::Interval(
                interval->Err_0,
            )
            &&& r is Ok ==> {
                let plan = r->Ok_0;
                &&& plan.scope@ == scope->Ok_0
                &&& (plan.making.interval.units(), plan.making.interval.kind()) == interval->Ok_0
                &&& plan.making.fill <==> read->Ok_0.fill || config.bars.fill
                &&& plan.format == read->Ok_0.format_or_table()
                &&& reads(plan.inputs@, read->Ok_0.paths, *config)
                &&& looked_up_in(plan.dir@, *config)
            }
        }),
{
    if r is Ok {
        let paths = crate::tokens::read(
            Grammar::Bars,
            crate::text::texts(tokens@),
        )->Ok_0.paths;
        crate::command_laws::inputs_default_to_the_settings(
            paths,
            crate::text::texts(config.symbols@),
        );
    }
}

/// Indicators are computed over bars at the interval of their own settings, in the order named, each
/// with a column of its own; at least one has to be named.
pub proof fn indicators_are_planned(
    flags: &Flags,
    tokens: &[String],
    config: &AnalysisConfig,
    r: Result<CalcPlan, CommandError>,
    i: int,
)
    requires
        call_ensures(crate::commands::plan_calc, (flags, tokens, config), r),
    ensures
        ({
            let read = crate::tokens::read(Grammar::Calc, crate::text::texts(tokens@));
            let scope = crate::commands::scope_in_force(*flags, *config, read->Ok_0);
            let interval = crate::settings::interval_in_force(
                read->Ok_0.interval,
                crate::commands::opt_text(config.calc.interval),
            );
            &&& read is Err ==> r is Err && r->Err_0 == CommandError::Grammar(read->Err_0)
            &&& read is Ok && read->Ok_0.specs.len() == 0 ==> r is Err && r->Err_0
                == CommandError::NoSpecs
            &&& read is Ok && read->Ok_0.specs.len() > 0 ==> (r is Ok <==> scope is Ok && interval
                is Ok)
            &&& r is Ok ==> {
                let plan = r->Ok_0;
                &&& plan.scope@ == scope->Ok_0
                &&& (plan.making.interval.units(), plan.making.interval.kind()) == interval->Ok_0
                &&& plan.making.fill <==> read->Ok_0.fill || config.calc.fill
                &&& plan.format == read->Ok_0.format_or_table()
                &&& reads(plan.inputs@, read->Ok_0.paths, *config)
                &&& looked_up_in(plan.dir@, *config)
                &&& plan.indicators@.len() == read->Ok_0.specs.len()
                &&& plan.columns@.len() == plan.indicators@.len()
                &&& 0 <= i < plan.columns@.len() ==> plan.columns@[i].name@
                    == plan.indicators@[i].column() && plan.columns@[i].decimals
                    == plan.indicators@[i].precision() && crate::calc::spec_meaning(
                    read->Ok_0.specs[i],
                ) == Some(Ok::<BuiltIn, crate::calc::SpecError>(plan.indicators@[i]))
            }
        }),
{
    if r is Ok {
        let read = crate::tokens::read(Grammar::Calc, crate::text::texts(tokens@))->Ok_0;
        crate::command_laws::inputs_default_to_the_settings(
            read.paths,
            crate::text::texts(config.symbols@),
        );
        lemma_specs(read.specs, r->Ok_0.indicators@, i);
        let plan = r->Ok_0;
        if 0 <= i < plan.columns@.len() {
            assert(plan.columns@[i].name@ == plan.indicators@[i].column());
        }
    }
}

proof fn lemma_specs(specs: Seq<Seq<char>>, indicators: Seq<BuiltIn>, i: int)
    requires
        crate::plot::indicators_named(specs) == Ok::<Seq<BuiltIn>, BadSpec>(indicators),
    ensures
        indicators.len() == specs.len(),
        0 <= i < specs.len() ==> crate::calc::spec_meaning(specs[i]) == Some(
            Ok::<BuiltIn, crate::calc::SpecError>(indicators[i]),
        ),
    decreases specs.len(),
{
    if specs.len() > 0 {
        let init = specs.drop_last();
        let before = crate::plot::indicators_named(init)->Ok_0;
        lemma_specs(init, before, i);
        if 0 <= i < init.len() {
            assert(init[i] == specs[i]);
        }
    }
}

/// A chart takes no output format, draws what its words ask for, and shows volume where the flag, the
/// word or an average of volume asks for it.
pub proof fn charts_are_planned(
    flags: &Flags,
    volume: bool,
    tokens: &[String],
    config: &AnalysisConfig,
    r: Result<PlotPlan, CommandError>,
)
    requires
        call_ensures(crate::commands::plan_plot, (flags, volume, tokens, config), r),
    ensures
        ({
            let words = crate::text::texts(tokens@).filter(|t: Seq<char>| t != "volume"@);
            let read = crate::tokens::read(Grammar::Calc, words);
            let scope = crate::commands::scope_in_force(*flags, *config, read->Ok_0);
            let interval = crate::settings::interval_in_force(
                read->Ok_0.interval,
                crate::commands::opt_text(config.bars.interval),
            );
            &&& read is Err ==> r is Err && r->Err_0 == CommandError::Grammar(read->Err_0)
            &&& read is Ok && read->Ok_0.format_or_table() != AnalysisFormat::Frame(
                FrameFormat::Table,
            ) ==> r is Err && r->Err_0 == CommandError::PlotFormat
            &&& r is Ok ==> {
                let plan = r->Ok_0;
                &&& scope is Ok && plan.scope@ == scope->Ok_0
                &&& interval is Ok && (
                plan.making.interval.units(),
                plan.making.interval.kind(),
            ) == interval->Ok_0
                &&& plan.making.fill <==> read->Ok_0.fill || config.bars.fill
                &&& plan.layout.volume <==> volume || crate::text::texts(tokens@).contains(
                    "volume"@,
                ) || plan.layout.volume_overlays@.len() > 0
                &&& reads(plan.inputs@, read->Ok_0.paths, *config)
                &&& looked_up_in(plan.dir@, *config)
            }
        }),
{
    crate::command_laws::volume_is_taken_out(crate::text::texts(tokens@));
    if r is Ok {
        let words = crate::text::texts(tokens@).filter(|t: Seq<char>| t != "volume"@);
        let read = crate::tokens::read(Grammar::Calc, words)->Ok_0;
        crate::command_laws::inputs_default_to_the_settings(
            read.paths,
            crate::text::texts(config.symbols@),
        );
    }
}

/// A listing is of what is named, or configured, or of the current directory; as a table where no
/// format is named. Times are shown in the extended session's zone, and hours judged by the regular
/// session.
pub proof fn listings_are_planned(
    session: &Option<String>,
    tz: &Option<String>,
    tokens: &[String],
    config: &AnalysisConfig,
    r: Result<LsPlan, CommandError>,
)
    requires
        call_ensures(crate::commands::plan_ls, (session, tz, tokens, config), r),
    ensures
        ({
            let flags = Flags {
                start: None,
                end: None,
                use_rth: false,
                session: *session,
                tz: *tz,
            };
            let read = crate::tokens::ls_reading(crate::text::texts(tokens@));
            let (paths, format) = read->0;
            let display = crate::commands::session_in_force(flags, *config, false);
            let rth = crate::commands::session_in_force(flags, *config, true);
            &&& read is None ==> r is Err && r->Err_0 == CommandError::Grammar(
                GrammarError::ManyFormats,
            )
            &&& read is Some ==> (r is Ok <==> display is Ok && rth is Ok)
            &&& r is Ok ==> {
                let plan = r->Ok_0;
                &&& plan.sessions.display@ == display->Ok_0
                &&& plan.sessions.rth@ == rth->Ok_0
                &&& format is Some ==> plan.format == format->0
                &&& format is None ==> plan.format == LsFormat::Table
                &&& paths.len() > 0 ==> crate::text::texts(plan.inputs@) == paths
                &&& paths.len() == 0 && config.symbols@.len() > 0 ==> crate::text::texts(
                    plan.inputs@,
                ) == crate::text::texts(config.symbols@)
                &&& paths.len() == 0 && config.symbols@.len() == 0 ==> crate::text::texts(
                    plan.inputs@,
                ) == seq!["."@]
                &&& looked_up_in(plan.dir@, *config)
            }
        }),
{
}

/// Rows of text go out as such; files go to the directory named, or else configured, and need one.
pub proof fn files_need_a_directory(
    format: AnalysisFormat,
    output: &Option<String>,
    config: &AnalysisConfig,
    r: Result<Target, OutputRequired>,
)
    requires
        call_ensures(crate::commands::output_target, (format, output, config), r),
    ensures
        format is Frame ==> r == Ok::<Target, OutputRequired>(Target::Rows(format->Frame_0)),
        format is Fwob ==> (r is Err <==> output is None && config.output_dir is None),
        format is Fwob && output is Some ==> r is Ok && r->Ok_0 is Files && r->Ok_0->Files_0@
            == output->0@,
        format is Fwob && output is None && config.output_dir is Some ==> r is Ok && r->Ok_0 is Files
            && r->Ok_0->Files_0@ == config.output_dir->0@,
{
}

/// A scope reads its window, filters by its session where regular hours are asked for, and counts
/// bars from its session either way.
pub proof fn scopes_query_their_window(scope: &Scope, q: TickQuery, clock: BarClock)
    requires
        call_ensures(Scope::query, (scope,), q),
        call_ensures(Scope::clock, (scope,), clock),
    ensures
        q.start == scope.start,
        q.end == scope.end,
        q.session is Some <==> scope.use_rth,
        scope.use_rth ==> q.session->0@ == scope.session@,
        clock@ == crate::resample::ClockModel::Session(scope.session@),
{
}

/// A chart needs a symbol, and a file holds just one; a listing fails where nothing but failures is
/// left of it.
pub proof fn nothing_to_show_is_refused(
    symbols: usize,
    to_file: bool,
    rows: usize,
    failures: u32,
    a: Result<(), PlotRefusal>,
    b: Result<(), AllFailed>,
    c: Result<(), ToolError>,
)
    requires
        call_ensures(crate::commands::check_plot, (symbols, to_file), a),
        call_ensures(crate::commands::check_failures, (rows, failures), b),
        call_ensures(crate::mcp::server::check_chart, (symbols,), c),
    ensures
        a is Err <==> symbols == 0 || (symbols > 1 && to_file),
        symbols == 0 ==> a->Err_0 == PlotRefusal::Nothing,
        symbols > 1 && to_file ==> a->Err_0 == PlotRefusal::ManySymbols(symbols),
        b is Err <==> rows == 0 && failures > 0,
        b is Err ==> b->Err_0.failures == failures,
        c is Ok <==> symbols == 1,
        symbols > 1 ==> c->Err_0 == ToolError::ManySymbols(symbols),
        symbols == 0 ==> c->Err_0 == ToolError::NoSymbol,
{
}

/// The words of a command are given back by what they are: paths, a format, flags, and the two sides
/// of a range, the start before the end.
pub proof fn words_are_given_back(
    tokens: &[String],
    a: Result<StatTokens, GrammarError>,
    b: Result<BarsTokens, GrammarError>,
    c: Result<CalcTokens, GrammarError>,
)
    requires
        call_ensures(crate::tokens::classify_paths_format, (tokens,), a),
        call_ensures(crate::tokens::classify_with_interval, (tokens,), b),
        call_ensures(crate::tokens::classify_calc, (tokens,), c),
    ensures
        a is Ok ==> ({
            let read = crate::tokens::read(Grammar::Stat, crate::text::texts(tokens@));
            &&& read is Ok
            &&& crate::text::texts(a->Ok_0.paths@) == read->Ok_0.paths
            &&& a->Ok_0.use_rth == crate::text::texts(tokens@).contains("rth"@)
            &&& crate::bounds::side_text(a->Ok_0.start) == read->Ok_0.start()
            &&& crate::bounds::side_text(a->Ok_0.end) == read->Ok_0.end()
            &&& a->Ok_0.format == read->Ok_0.format_or_table()
        }),
        b is Ok ==> ({
            let read = crate::tokens::read(Grammar::Bars, crate::text::texts(tokens@));
            &&& read is Ok
            &&& crate::text::texts(b->Ok_0.paths@) == read->Ok_0.paths
            &&& b->Ok_0.use_rth == crate::text::texts(tokens@).contains("rth"@)
            &&& b->Ok_0.fill == crate::text::texts(tokens@).contains("fill"@)
            &&& crate::bounds::side_text(b->Ok_0.start) == read->Ok_0.start()
            &&& crate::bounds::side_text(b->Ok_0.end) == read->Ok_0.end()
            &&& b->Ok_0.interval is Some <==> read->Ok_0.interval is Some
        }),
        c is Ok ==> ({
            let read = crate::tokens::read(Grammar::Calc, crate::text::texts(tokens@));
            &&& read is Ok
            &&& crate::text::texts(c->Ok_0.paths@) == read->Ok_0.paths
            &&& crate::text::texts(c->Ok_0.specs@) == read->Ok_0.specs
            &&& c->Ok_0.use_rth == crate::text::texts(tokens@).contains("rth"@)
            &&& c->Ok_0.fill == crate::text::texts(tokens@).contains("fill"@)
            &&& crate::bounds::side_text(c->Ok_0.start) == read->Ok_0.start()
            &&& crate::bounds::side_text(c->Ok_0.end) == read->Ok_0.end()
        }),
{
    let texts = crate::text::texts(tokens@);
    if a is Ok {
        crate::tokens::readings_hold_what_is_given(Grammar::Stat, texts);
    }
    if b is Ok {
        crate::tokens::readings_hold_what_is_given(Grammar::Bars, texts);
    }
    if c is Ok {
        crate::tokens::readings_hold_what_is_given(Grammar::Calc, texts);
    }
}

/// A config comes first or not at all; what follows it is kept in order.
pub proof fn configs_come_first(
    items: Vec<String>,
    r: Result<(Option<String>, Vec<String>), MisplacedConfig>,
    i: int,
)
    requires
        call_ensures(crate::tokens::split_config_target, (items,), r),
        items@.len() > 0,
        0 < i < items@.len(),
    ensures
        crate::tokens::names_config(items@[0]@) ==> r is Ok,
        !crate::tokens::names_config(items@[0]@) && crate::tokens::names_config(items@[i]@) ==> r
            is Err,
        r is Ok ==> ({
            let (config, rest) = r->Ok_0;
            &&& config is Some <==> crate::tokens::names_config(items@[0]@)
            &&& config is Some ==> config->0@ == items@[0]@ && rest@.len() == items@.len() - 1
                && rest@[i - 1]@ == items@[i]@
            &&& config is None ==> rest@.len() == items@.len() && rest@[i]@ == items@[i]@
        }),
{
    let all = crate::text::texts(items@);
    assert(all[0] == items@[0]@ && all[i] == items@[i]@);
    if r is Ok {
        let (config, rest) = r->Ok_0;
        let t = crate::text::texts(rest@);
        assert(t.len() == rest@.len());
        if config is Some {
            assert(t[i - 1] == all.skip(1)[i - 1]);
            assert(t[i - 1] == rest@[i - 1]@);
        } else {
            assert(t[i] == rest@[i]@);
        }
    }
}

/// A download is refused or planned from the command line over the configuration.
pub proof fn downloads_are_planned(
    args: DownloadArgs,
    parsed: ParsedTokens,
    from_config: bool,
    config: Config,
    r: Result<DownloadPlan, DownloadError>,
)
    requires
        call_ensures(crate::download::plan_download, (args, parsed, from_config, config), r),
    ensures
        ({
            let refusal = crate::download::refusal(args, parsed.symbols@.len(), from_config);
            &&& r is Err <==> refusal is Some
            &&& r is Err ==> r->Err_0 == refusal->0
            &&& r is Ok ==> {
                let plan = r->Ok_0;
                &&& crate::download::downloads(
                    plan.config.download,
                    args,
                    parsed.provider,
                    config.download,
                )
                &&& crate::download::connects(plan.config.ibkr, args, config.ibkr)
                &&& crate::download::selects(
                    plan,
                    args,
                    parsed.symbols,
                    from_config,
                    config.stocks@,
                )
                &&& args.zstd_level is None ==> plan.fwob == parsed.options
                &&& args.zstd_level is Some ==> plan.fwob.zstd_level == args.zstd_level->0
            }
        }),
{
}

/// The writer's options are the chosen ones, under the title given; a level outside 1 to 22 is
/// refused.
pub proof fn writers_are_told_what_was_chosen(
    options: FwobOptions,
    title: &str,
    r: Result<V2WriterOptions, BadZstdLevel>,
)
    requires
        call_ensures(FwobOptions::v2_writer_options, (options, title), r),
    ensures
        r is Ok <==> 1 <= options.zstd_level <= 22,
        r is Ok ==> {
            let o = r->Ok_0;
            &&& o.title@ == title@
            &&& o.page_size == options.page_size
            &&& o.zstd_level == options.zstd_level
            &&& o.compress_partial_page == options.compress_partial_page
            &&& o.page_packing == options.page_packing
            &&& options.codec == CodecArg::Lz4 ==> o.codec == Codec::Lz4
            &&& options.codec == CodecArg::Uncompressed ==> o.codec == Codec::Uncompressed
            &&& options.codec == CodecArg::Zstd ==> o.codec == Codec::Zstd
            &&& options.encoding == EncodingArg::RowRaw ==> o.encoding == Encoding::RowRaw
            &&& options.encoding == EncodingArg::ColumnarBasic ==> o.encoding
                == Encoding::ColumnarBasic
            &&& options.encoding == EncodingArg::ColumnarDelta ==> o.encoding
                == Encoding::ColumnarDelta
        },
{
}

/// The tokens of a download are its symbols, its options and its provider, as far as it names them.
pub proof fn download_tokens_are_given_back(values: &[String], r: Result<ParsedTokens, TokenError>)
    requires
        call_ensures(crate::fwob_options::parse_tokens, (values,), r),
    ensures
        ({
            let meaning = crate::fwob_options::tokens_meaning(crate::text::texts(values@));
            &&& r is Err <==> meaning is Err
            &&& r is Err ==> r->Err_0 == meaning->Err_0
            &&& r is Ok ==> crate::text::texts(r->Ok_0.symbols@) == meaning->Ok_0.symbols
                && r->Ok_0.options == meaning->Ok_0.options && r->Ok_0.provider
                == meaning->Ok_0.provider
        }),
{
}

// ---- sources -----------------------------------------------------------------------------

/// A file is of trades or of bars by its name and its columns, with the time as its key.
pub proof fn files_are_told_apart(
    frame_type: &str,
    key: usize,
    columns: &Vec<Part>,
    r: Option<InputKind>,
)
    requires
        call_ensures(crate::render::detect_kind, (frame_type, key, columns), r),
    ensures
        r is Some ==> key == 0,
        r == Some(InputKind::Tick) ==> frame_type@ == "Tick"@ && columns@.len() == 3,
        r == Some(InputKind::Bar) ==> frame_type@ == "Bar"@ && columns@.len() == 8,
        key == 0 && frame_type@ == "Tick"@ && crate::render::part_models(columns@)
            == crate::render::tick_models() ==> r == Some(InputKind::Tick),
        key == 0 && frame_type@ == "Bar"@ && crate::render::part_models(columns@)
            == crate::render::bar_models() ==> r == Some(InputKind::Bar),
{
    reveal_strlit("Tick");
    reveal_strlit("Bar");
    assert("Tick"@.len() == 4 && "Bar"@.len() == 3);
    let m = crate::render::part_models(columns@);
    assert(m.len() == columns@.len());
    assert(crate::render::same_layout(
        crate::render::tick_models(),
        crate::render::tick_models(),
    ));
    assert(crate::render::same_layout(crate::render::bar_models(), crate::render::bar_models()));
}

/// Trades are filtered by the session where regular hours are asked for, and bars never are.
pub proof fn trades_alone_are_filtered(
    kinds: &[InputKind],
    use_rth: bool,
    session: &Session,
    r: Result<Option<Session>, MixedSources>,
)
    requires
        call_ensures(crate::feed::session_row_filter, (kinds, use_rth, session), r),
    ensures
        !use_rth ==> r is Ok && r->Ok_0 is None,
        r is Ok && r->Ok_0 is Some ==> use_rth && r->Ok_0->0@ == session@ && forall|i: int|
            0 <= i < kinds@.len() ==> #[trigger] kinds@[i] == InputKind::Tick,
        use_rth && kinds@.len() > 0 && (forall|i: int|
            0 <= i < kinds@.len() ==> #[trigger] kinds@[i] == InputKind::Tick) ==> r is Ok
            && r->Ok_0 is Some,
{
    assert(kinds@.len() == kinds.len());
    crate::request_laws::sources_share_one_kind(kinds@);
    if use_rth && kinds@.len() > 0 && (forall|i: int|
        0 <= i < kinds@.len() ==> #[trigger] kinds@[i] == InputKind::Tick) {
        assert(kinds@[0] == InputKind::Tick);
    }
}

/// Trades need an interval; bars without one pass straight through; an interval makes bars of either,
/// on the clock and with the filling asked for.
pub proof fn pipelines_are_made_for_their_source(
    kind: Option<InputKind>,
    interval: Option<Interval>,
    clock: &BarClock,
    fill: bool,
    r: Result<BarPipeline, PipelineError>,
)
    requires
        call_ensures(BarPipeline::new, (kind, interval, clock, fill), r),
    ensures
        interval is None && kind == Some(InputKind::Tick) ==> r is Err && r->Err_0
            == PipelineError::IntervalRequired,
        interval is None && kind != Some(InputKind::Tick) ==> r is Ok && r->Ok_0.making()
            == Making::Passing,
        interval is Some && r is Ok ==> {
            let p = r->Ok_0;
            &&& p.clock() == clock@
            &&& p.step_by() == interval->0
            &&& p.fills() == fill
            &&& kind == Some(InputKind::Bar) ==> p.making() == Making::FromBars
            &&& kind != Some(InputKind::Bar) ==> p.making() == Making::FromTicks
            &&& p.ticks_in().len() == 0 && p.bars_in().len() == 0 && p.bars_out().len() == 0
        },
{
}

/// Symbols are grouped in order, each once, with all of its places.
pub proof fn groups_are_of_their_symbols(symbols: &Vec<String>, r: Vec<Group>, i: int, j: int)
    requires
        call_ensures(crate::grouping::group_by_symbol, (symbols,), r),
    ensures
        0 <= i < j < r@.len() ==> crate::grouping::comes_before(r@[i].symbol@, r@[j].symbol@),
        0 <= i < r@.len() ==> r@[i].members@ == crate::grouping::positions_of(
            crate::text::texts(symbols@),
            r@[i].symbol@,
        ) && r@[i].members@.len() > 0,
        0 <= i < symbols@.len() ==> exists|k: int|
            0 <= k < r@.len() && (#[trigger] r@[k]).symbol@ == symbols@[i]@,
{
    let texts = crate::text::texts(symbols@);
    if 0 <= i < symbols@.len() {
        assert(texts[i] == symbols@[i]@);
    }
}

/// A table has a symbol column for several series and none for one, and holds at most 256 of them.
pub proof fn tables_hold_a_limited_number_of_symbols(
    series: &Vec<BarSeries>,
    r: Result<BarRows, TooManySymbols>,
    i: int,
)
    requires
        call_ensures(crate::output::bar_rows, (series,), r),
    ensures
        r is Err <==> series@.len() > 256,
        r is Err ==> r->Err_0.count == series@.len() as usize,
        r is Ok && series@.len() <= 1 ==> r->Ok_0.strings@.len() == 0,
        r is Ok && series@.len() > 1 ==> r->Ok_0.strings@.len() == series@.len(),
        r is Ok && series@.len() > 1 && 0 <= i < series@.len() ==> r->Ok_0.strings@[i]@
            == series@[i].symbol@,
        r is Ok ==> r->Ok_0.rows@ == crate::output::series_rows(series@),
{
    if r is Ok {
        let t = crate::text::texts(r->Ok_0.strings@);
        assert(t.len() == r->Ok_0.strings@.len());
        if series@.len() > 1 && 0 <= i < series@.len() {
            assert(t[i] == r->Ok_0.strings@[i]@);
            assert(t[i] == crate::output::series_symbols(series@)[i]);
        }
    }
}

// ---- tools -------------------------------------------------------------------------------

/// A tool's pipeline has the scope and the interval asked for; a bad session is reported before a bad
/// interval, and that before a bad bound.
pub proof fn tool_pipelines_are_what_is_asked(
    server: &McpServer,
    sel: &Selection,
    interval: Option<&str>,
    r: Result<Pipeline, ToolError>,
)
    requires
        call_ensures(McpServer::pipeline, (server, sel, interval), r),
    ensures
        ({
            let scope = server.scope_of(*sel);
            let step = crate::mcp::server::tool_interval(
                if interval is Some {
                    Some(interval->0@)
                } else {
                    None
                },
            );
            &&& r is Ok <==> scope is Ok && step is Ok
            &&& r is Ok ==> r->Ok_0.scope@ == scope->Ok_0 && (
            r->Ok_0.interval.units(),
            r->Ok_0.interval.kind(),
        ) == step->Ok_0
            &&& scope is Err && scope->Err_0 is Session ==> r->Err_0 == scope->Err_0
            &&& step is Err && !(scope is Err && scope->Err_0 is Session) ==> r->Err_0 == step->Err_0
        }),
{
}

/// An absolute path is refused; of the others, a directory or a file is what it is, and anything else
/// is a symbol with a file of its own.
pub proof fn tool_paths_are_what_is_found(
    root: &Root,
    absolute: bool,
    components: &[Component],
    direct: Found,
    symbol_is_file: bool,
    a: Result<(), RootError>,
    b: Result<Located, RootError>,
)
    requires
        call_ensures(Root::check_token, (root, absolute, components), a),
        call_ensures(Root::locate, (root, direct, symbol_is_file), b),
    ensures
        absolute ==> a is Err && a->Err_0 == RootError::Absolute,
        direct is Directory ==> b == Ok::<Located, RootError>(Located::Directory),
        direct is File ==> b == Ok::<Located, RootError>(Located::File),
        direct is Nothing && symbol_is_file ==> b == Ok::<Located, RootError>(Located::Symbol),
        direct is Nothing && !symbol_is_file ==> b is Err && b->Err_0 == RootError::Missing,
{
}

/// A client is replaced by whoever saw the current one, and kept otherwise.
pub proof fn clients_are_replaced_once<T>(
    slot: ClientSlot<T>,
    observed: u64,
    replacement: T,
    r: ClientSlot<T>,
)
    requires
        call_ensures(ClientSlot::<T>::replace_if_generation, (slot, observed, replacement), r),
    ensures
        slot.current() == observed ==> r.client() == replacement && r.current() != observed,
        slot.current() != observed ==> r.client() == slot.client() && r.current() == slot.current(),
{
}

/// The span of a series runs from its first bar to its last; a mean shows two decimals at least.
pub proof fn spans_run_forward(path: &PricePath, decimals: u8, span: u32, shown: u8)
    requires
        call_ensures(PricePath::span_seconds, (path,), span),
        call_ensures(crate::summary::mean_decimals, (decimals,), shown),
    ensures
        path.first_time <= path.last_time ==> span == path.last_time - path.first_time,
        path.first_time > path.last_time ==> span == 0,
        shown >= 2,
        shown >= decimals,
        shown == 2 || shown == decimals,
{
}

// ---- summaries and requests --------------------------------------------------------------

/// A price path goes from the first close to the last, and its extremes are closes that none passes.
pub proof fn price_paths_follow_the_closes(
    collector: &SummaryCollector,
    r: Option<PricePath>,
    bars: u64,
    i: int,
)
    requires
        collector.valid(),
        call_ensures(SummaryCollector::price, (collector,), r),
        call_ensures(SummaryCollector::bars, (collector,), bars),
    ensures
        bars == collector.closes_in().len(),
        r is Some <==> bars > 0,
        r is Some ==> ({
            let path = r->0;
            let closes = collector.closes_in();
            &&& closes[0] == (path.first_time, path.first_close)
            &&& closes[closes.len() - 1] == (path.last_time, path.last_close)
            &&& exists|k: int| 0 <= k < closes.len() && (#[trigger] closes[k]).1 == path.high
            &&& exists|k: int| 0 <= k < closes.len() && (#[trigger] closes[k]).1 == path.low
            &&& path.low <= path.high
            &&& path.low <= path.first_close <= path.high
            &&& path.low <= path.last_close <= path.high
        }),
        r is Some && 0 <= i < collector.closes_in().len() ==> ({
            let (_, close) = collector.closes_in()[i];
            r->0.low <= close <= r->0.high
        }),
{
    if r is Some {
        let closes = collector.closes_in();
        assert(closes[0] == closes[0] && closes[closes.len() - 1] == closes.last());
        if 0 <= i < closes.len() {
            assert(closes[i] == closes[i]);
        }
    }
}

/// The blocks of a summary are named under the symbol where there are several, and under `summary`
/// alone where there is one.
pub proof fn summary_blocks_are_named(
    symbol: &str,
    several: bool,
    base: String,
    block: &str,
    r: String,
)
    requires
        call_ensures(crate::summary::summary_base, (symbol, several), base),
        call_ensures(crate::summary::summary_block, ("summary", block), r),
    ensures
        several ==> base@ == symbol@ + ".summary"@,
        !several ==> base@ == "summary"@,
        r@ == "summary"@ + seq!['.'] + block@,
{
}

/// An item is taken into a summary where the totals with it stay within what a row can show.
pub proof fn summaries_take_what_fits(
    a: &StatAccumulator,
    tick: &Tick,
    bar: &Bar,
    x: bool,
    y: bool,
)
    requires
        call_ensures(StatAccumulator::accepts_tick, (a, tick), x),
        call_ensures(StatAccumulator::accepts_bar, (a, bar), y),
    ensures
        a@ is None ==> x,
        a@ is Some ==> ({
            let f = a@->0;
            let t = crate::aggregate::tick_agg(*tick);
            let b = crate::aggregate::bar_agg(*bar);
            &&& x <==> i64::MIN <= f.volume + t.volume <= i64::MAX && i128::MIN <= f.mass + t.mass
                <= i128::MAX && 0 <= f.trades + t.trades <= u64::MAX
            &&& y <==> i64::MIN <= f.volume + b.volume <= i64::MAX && i128::MIN <= f.mass + b.mass
                <= i128::MAX && 0 <= f.trades + b.trades <= u64::MAX
        }),
{
    let t = crate::aggregate::tick_agg(*tick);
    assert(i64::MIN <= t.volume <= i64::MAX);
    assert(i128::MIN <= tick.price * tick.size <= i128::MAX) by (nonlinear_arith)
        requires
            0 <= tick.price <= u32::MAX,
            i32::MIN <= tick.size <= i32::MAX,
    ;
}

/// A download takes every symbol where none is named, and just the named ones otherwise.
pub proof fn downloads_take_what_is_named(plan: &DownloadPlan, symbol: &str, r: bool)
    requires
        call_ensures(DownloadPlan::takes, (plan, symbol), r),
    ensures
        plan.only is None ==> r,
        plan.only is Some ==> (r <==> exists|i: int|
            0 <= i < plan.only->0@.len() && (#[trigger] plan.only->0@[i])@ == symbol@),
{
}

/// A request is for the session's hours, unfilled, unbounded and from a sidecar where one serves,
/// until it says otherwise; each setting changes nothing but itself.
pub proof fn requests_say_what_they_ask<'a>(
    paths: &'a [String],
    interval: Option<Interval>,
    session: &'a Session,
    flag: bool,
    start: Option<u32>,
    end: Option<u32>,
    r: BarRequest<'a>,
    hours: BarRequest<'a>,
    filled: BarRequest<'a>,
    windowed: BarRequest<'a>,
    beside: BarRequest<'a>,
)
    requires
        call_ensures(BarRequest::new, (paths, interval, session), r),
        call_ensures(BarRequest::use_rth, (r, flag), hours),
        call_ensures(BarRequest::fill, (r, flag), filled),
        call_ensures(BarRequest::window, (r, start, end), windowed),
        call_ensures(BarRequest::prefer_sidecar, (r, flag), beside),
    ensures
        r.paths == paths && r.interval == interval && r.session == session,
        r.use_rth && !r.fill && r.start is None && r.end is None && r.prefer_sidecar,
        hours.use_rth == flag && hours.fill == r.fill && hours.start == r.start && hours.end == r.end
            && hours.prefer_sidecar == r.prefer_sidecar && hours.interval == interval,
        filled.fill == flag && filled.use_rth == r.use_rth && filled.start == r.start && filled.end
            == r.end && filled.prefer_sidecar == r.prefer_sidecar && filled.interval == interval,
        windowed.start == start && windowed.end == end && windowed.use_rth == r.use_rth
            && windowed.fill == r.fill && windowed.prefer_sidecar == r.prefer_sidecar
            && windowed.interval == interval,
        beside.prefer_sidecar == flag && beside.use_rth == r.use_rth && beside.fill == r.fill
            && beside.start == r.start && beside.end == r.end && beside.interval == interval,
{
}

/// The regime of a summary is told by a volatility column that is usable.
pub proof fn regimes_are_of_usable_columns(
    collector: &SummaryCollector,
    usable: &[bool],
    r: Option<usize>,
)
    requires
        call_ensures(SummaryCollector::regime, (collector, usable), r),
    ensures
        r is Some ==> collector.volatility_columns()[r->0 as int] && usable@[r->0 as int],
{
}

/// A page size has digits before its unit.
pub proof fn page_sizes_have_digits(value: Seq<char>, suffix: Seq<char>, i: int)
    ensures
        crate::fwob_options::number_before(value, suffix) is Some ==> value.len() > suffix.len(),
        crate::fwob_options::number_before(value, suffix) is Some && 0 <= i < value.len()
            - suffix.len() ==> '0' <= value[i] <= '9',
        crate::fwob_options::number_before(value, suffix) is Some && value.len() - suffix.len() <= i
            < value.len() ==> value[i] == suffix[i - (value.len() - suffix.len())],
{
    if crate::fwob_options::number_before(value, suffix) is Some {
        let n = value.len() - suffix.len();
        let digits = crate::text::before_suffix(value, suffix)->0;
        if 0 <= i < n {
            assert(digits[i] == value[i]);
            assert(crate::text::is_digit(digits[i]));
        } else if n <= i < value.len() {
            assert(value.skip(n)[i - n] == value[i]);
        }
    }
}

/// A verification's counts come first and its prices last.
pub proof fn verifications_have_their_parts_in_order(
    title: Seq<char>,
    kind: InputKind,
    counted: crate::report::Counted,
    row: crate::stat::StatRow,
    zone: Seq<char>,
)
    ensures
        ({
            let all = crate::report::verify_lines(title, kind, counted, row, zone);
            let counts = crate::report::counted_lines(title, kind, counted);
            let prices = crate::report::price_lines(row);
            let scan = crate::report::scan_lines(row, zone);
            &&& all.len() == counts.len() + scan.len() + prices.len()
            &&& all.take(counts.len() as int) == counts
            &&& all.skip(all.len() - prices.len()) == prices
            &&& all.subrange(counts.len() as int, all.len() - prices.len()) == scan
        }),
{
}

/// A refusal says what was asked for and what is allowed.
pub proof fn refusals_say_what_is_allowed(
    many: TooManySymbols,
    format: UnsupportedFormat,
    error: IntervalError,
    a: String,
    b: String,
    c: String,
)
    requires
        call_ensures(TooManySymbols::message, (many,), a),
        call_ensures(UnsupportedFormat::message, (format,), b),
        call_ensures(IntervalError::message, (error,), c),
    ensures
        a@ == "cannot render "@ + crate::text::decimal(many.count as nat)
            + " symbols in one table; the symbol column supports at most 256"@,
        b@ == "stat does not support "@ + format.format.token() + " output"@,
        error == IntervalError::TooLarge ==> c@ == "interval count is too large"@,
        error == IntervalError::Zero ==> c@ == "interval must be at least 1"@,
        error == IntervalError::AboveMaximum ==> c@ == "interval count must not exceed 100000"@,
{
}

/// A table that shows symbols takes up to 256 of them, and one that shows none takes any number.
pub proof fn shown_symbols_are_counted(
    include_symbol: bool,
    count: usize,
    r: Result<(), TooManySymbols>,
)
    requires
        call_ensures(crate::output::guard_symbol_count, (include_symbol, count), r),
    ensures
        r is Err <==> include_symbol && count > 256,
        r is Err ==> r->Err_0.count == count,
{
}

/// A price of zero on either side of a gap tells of no split.
pub proof fn worthless_bars_tell_of_no_split(prev: Bar, cur: Bar)
    requires
        prev.close == 0 || cur.open == 0,
    ensures
        crate::adjust::split_between(prev, cur) is None,
{
}

} // verus!
