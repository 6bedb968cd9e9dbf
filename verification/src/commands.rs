//! What the analysis commands do: their flags, tokens and config settled into one plan.
//!
//! A plan holds everything that is decided before a file is opened. Reading the files and printing
//! the rows is left to whoever carries the plan out.
use vstd::prelude::*;

use crate::bounds::{parse_bounds, BoundError};
use crate::calc::BuiltIn;
use crate::feed::TickQuery;
use crate::interval::{Interval, IntervalUnit};
use crate::ls::LsFormat;
use crate::output::{AnalysisFormat, FrameFormat};
use crate::plot::{layout_series, parse_specs, Layout};
use crate::resample::BarClock;
use crate::session::{Session, SessionError};
use crate::settings::{
    resolve_files, resolve_interval, resolve_listing, resolve_session, warn_uneven_interval,
    AnalysisConfig, BarDefaults, IntervalSetting,
};
use crate::summary::SummaryColumn;
use crate::tokens::{
    classify_calc, classify_ls, classify_paths_format, classify_with_interval, take_volume,
    GrammarError,
};

verus! {

/// Why a command is refused before it reads anything.
#[derive(Debug, Clone, Copy, PartialEq, Eq, Structural)]
pub enum CommandError {
    Grammar(GrammarError),
    Interval(IntervalSetting),
    Session(SessionError),
    Bound(BoundError),
    /// `calc` needs at least one indicator spec.
    NoSpecs,
    /// `stat` does not write files.
    StatToFile,
    /// `plot` takes no output format.
    PlotFormat,
}

/// The flags that the analysis commands share.
#[derive(Debug)]
pub struct Flags {
    pub start: Option<String>,
    pub end: Option<String>,
    pub use_rth: bool,
    pub session: Option<String>,
    pub tz: Option<String>,
}

pub open spec fn opt_text(value: Option<String>) -> Option<Seq<char>> {
    match value {
        Some(value) => Some(value@),
        None => None,
    }
}

/// The first of two that is there.
pub open spec fn either(one: Option<Seq<char>>, other: Option<Seq<char>>) -> Option<Seq<char>> {
    match one {
        Some(text) => Some(text),
        None => other,
    }
}

fn opt_str(value: &Option<String>) -> (r: Option<&str>)
    ensures
        crate::settings::given(r) == opt_text(*value),
{
    match value {
        Some(value) => Some(value.as_str()),
        None => None,
    }
}

fn first_of<'a>(one: &'a Option<String>, other: &'a Option<String>) -> (r: Option<&'a str>)
    ensures
        crate::settings::given(r) == either(opt_text(*one), opt_text(*other)),
{
    match one {
        Some(text) => Some(text.as_str()),
        None => opt_str(other),
    }
}

/// The session in force for a command.
pub open spec fn session_in_force(flags: Flags, config: AnalysisConfig, use_rth: bool) -> Result<
    crate::session::SessionModel,
    SessionError,
> {
    let base = config.base(use_rth);
    crate::settings::session_named(
        match flags.tz {
            Some(tz) => tz@,
            None => base.tz@,
        },
        crate::settings::hours_in_force(opt_text(flags.session), base.hours@, use_rth),
    )
}

/// The rows that a command reads: a session, and the bounds of its window.
#[derive(Debug)]
pub struct Scope {
    pub use_rth: bool,
    pub session: Session,
    pub start: Option<u32>,
    pub end: Option<u32>,
}

pub struct ScopeModel {
    pub use_rth: bool,
    pub session: crate::session::SessionModel,
    pub start: Option<u32>,
    pub end: Option<u32>,
}

impl View for Scope {
    type V = ScopeModel;

    open spec fn view(&self) -> ScopeModel {
        ScopeModel {
            use_rth: self.use_rth,
            session: self.session@,
            start: self.start,
            end: self.end,
        }
    }
}

/// The scope that flags, tokens and config settle. A flag and a token each turn the regular hours
/// on; a flag's bound wins over a range token's; bounds are read in the session's time zone.
pub open spec fn scope_in_force(
    flags: Flags,
    config: AnalysisConfig,
    reading: crate::tokens::Reading,
) -> Result<ScopeModel, CommandError> {
    let use_rth = flags.use_rth || reading.use_rth;
    match session_in_force(flags, config, use_rth) {
        Err(e) => Err(CommandError::Session(e)),
        Ok(session) => match crate::bounds::bounds_named(
            either(opt_text(flags.start), reading.start()),
            either(opt_text(flags.end), reading.end()),
            session.zone,
        ) {
            Err(e) => Err(CommandError::Bound(e)),
            Ok((start, end)) => Ok(ScopeModel { use_rth, session, start, end }),
        },
    }
}

fn settle_scope(
    flags: &Flags,
    config: &AnalysisConfig,
    use_rth: bool,
    start: &Option<String>,
    end: &Option<String>,
    reading: Ghost<crate::tokens::Reading>,
) -> (r: Result<Scope, CommandError>)
    requires
        use_rth == reading@.use_rth,
        opt_text(*start) == reading@.start(),
        opt_text(*end) == reading@.end(),
    ensures
        match scope_in_force(*flags, *config, reading@) {
            Ok(model) => r matches Ok(scope) && scope@ == model,
            Err(e) => r == Err::<Scope, CommandError>(e),
        },
{
    let use_rth = flags.use_rth || use_rth;
    let session = match resolve_session(
        config,
        use_rth,
        opt_str(&flags.session),
        opt_str(&flags.tz),
    ) {
        Ok(session) => session,
        Err(e) => return Err(CommandError::Session(e)),
    };
    let zone = session.time_zone();
    match parse_bounds(first_of(&flags.start, start), first_of(&flags.end, end), &zone) {
        Err(e) => Err(CommandError::Bound(e)),
        Ok((start, end)) => Ok(Scope { use_rth, session, start, end }),
    }
}

impl Scope {
    /// The bounds of a scan over ticks; the session filters rows only under the regular hours.
    pub fn query(&self) -> (r: TickQuery)
        ensures
            r.start == self.start,
            r.end == self.end,
            crate::feed::session_model(r.session) == (if self.use_rth {
                Some(self.session@)
            } else {
                None
            }),
    {
        let session = if self.use_rth {
            Some(self.session.copy())
        } else {
            None
        };
        TickQuery { start: self.start, end: self.end, session }
    }

    /// The clock of the bars: sub-day buckets count from the session's opening.
    pub fn clock(&self) -> (r: BarClock)
        ensures
            r@ == crate::resample::ClockModel::Session(self.session@),
    {
        BarClock::Session(self.session.copy())
    }
}

/// What a bar-producing command makes: the interval, and whether gaps are filled.
#[derive(Debug)]
pub struct Making {
    pub interval: Interval,
    pub fill: bool,
    /// What is said of an interval that does not divide the session.
    pub warning: Option<String>,
}

// ---- `stat` -------------------------------------------------------------------------

#[derive(Debug)]
pub struct StatPlan {
    pub scope: Scope,
    pub format: FrameFormat,
    /// What to look up, and the directory to look symbols up in.
    pub inputs: Vec<String>,
    pub dir: String,
}

/// Where symbols are looked up.
pub open spec fn lookup_dir(config: AnalysisConfig) -> Seq<char> {
    match config.output_dir {
        Some(dir) => dir@,
        None => "."@,
    }
}

/// Plans `stat`.
pub fn plan_stat(flags: &Flags, tokens: &[String], config: &AnalysisConfig) -> (r: Result<
    StatPlan,
    CommandError,
>)
    ensures
        match crate::tokens::read(crate::tokens::Grammar::Stat, crate::text::texts(tokens@)) {
            Err(e) => r == Err::<StatPlan, CommandError>(CommandError::Grammar(e)),
            Ok(reading) => match reading.format_or_table() {
                AnalysisFormat::Fwob => r == Err::<StatPlan, CommandError>(
                    CommandError::StatToFile,
                ),
                AnalysisFormat::Frame(format) => match scope_in_force(*flags, *config, reading) {
                    Err(e) => r == Err::<StatPlan, CommandError>(e),
                    Ok(scope) => r matches Ok(plan) && {
                        &&& plan.scope@ == scope
                        &&& plan.format == format
                        &&& crate::text::texts(plan.inputs@) == crate::settings::inputs_in_force(
                            reading.paths,
                            crate::text::texts(config.symbols@),
                        )
                        &&& plan.dir@ == lookup_dir(*config)
                    },
                },
            },
        },
{
    let ghost read = crate::tokens::read(
        crate::tokens::Grammar::Stat,
        crate::text::texts(tokens@),
    );
    let t = match classify_paths_format(tokens) {
        Ok(t) => t,
        Err(e) => return Err(CommandError::Grammar(e)),
    };
    let format = match t.format {
        AnalysisFormat::Fwob => return Err(CommandError::StatToFile),
        AnalysisFormat::Frame(format) => format,
    };
    let scope = match settle_scope(flags, config, t.use_rth, &t.start, &t.end, Ghost(read->Ok_0)) {
        Ok(scope) => scope,
        Err(e) => return Err(e),
    };
    let (inputs, dir) = resolve_files(&t.paths, config);
    Ok(StatPlan { scope, format, inputs, dir })
}

// ---- `bars` -------------------------------------------------------------------------

/// The interval and the filling that tokens and config settle.
pub open spec fn interval_settled(
    reading: crate::tokens::Reading,
    defaults: BarDefaults,
) -> Result<(nat, IntervalUnit), CommandError> {
    match crate::settings::interval_in_force(reading.interval, opt_text(defaults.interval)) {
        Ok(interval) => Ok(interval),
        Err(e) => Err(CommandError::Interval(e)),
    }
}

/// Whether a making is what tokens, config and scope settle.
pub open spec fn makes(
    making: Making,
    interval: (nat, IntervalUnit),
    fill: bool,
    scope: ScopeModel,
) -> bool {
    &&& making.interval.units() == interval.0
    &&& making.interval.kind() == interval.1
    &&& making.fill == fill
    &&& making.warning is Some <==> crate::settings::uneven(
        making.interval.anchoring(),
        scope.session,
    )
    &&& making.warning matches Some(text) ==> text@ == crate::settings::uneven_text(
        making.interval.token(),
        scope.use_rth,
        scope.session,
    )
}

fn make(interval: Interval, fill: bool, scope: &Scope) -> (r: Making)
    ensures
        makes(r, (interval.units(), interval.kind()), fill, scope@),
{
    let warning = warn_uneven_interval(interval, &scope.session, scope.use_rth);
    Making { interval, fill, warning }
}

#[derive(Debug)]
pub struct BarsPlan {
    pub scope: Scope,
    pub making: Making,
    pub format: AnalysisFormat,
    pub inputs: Vec<String>,
    pub dir: String,
}

/// Plans `bars`.
pub fn plan_bars(flags: &Flags, tokens: &[String], config: &AnalysisConfig) -> (r: Result<
    BarsPlan,
    CommandError,
>)
    ensures
        match crate::tokens::read(crate::tokens::Grammar::Bars, crate::text::texts(tokens@)) {
            Err(e) => r == Err::<BarsPlan, CommandError>(CommandError::Grammar(e)),
            Ok(reading) => match (
                interval_settled(reading, config.bars),
                scope_in_force(*flags, *config, reading),
            ) {
                (Err(e), _) => r == Err::<BarsPlan, CommandError>(e),
                (Ok(_), Err(e)) => r == Err::<BarsPlan, CommandError>(e),
                (Ok(interval), Ok(scope)) => r matches Ok(plan) && {
                    &&& plan.scope@ == scope
                    &&& makes(plan.making, interval, reading.fill || config.bars.fill, scope)
                    &&& plan.format == reading.format_or_table()
                    &&& crate::text::texts(plan.inputs@) == crate::settings::inputs_in_force(
                        reading.paths,
                        crate::text::texts(config.symbols@),
                    )
                    &&& plan.dir@ == lookup_dir(*config)
                },
            },
        },
{
    let ghost read = crate::tokens::read(
        crate::tokens::Grammar::Bars,
        crate::text::texts(tokens@),
    );
    let t = match classify_with_interval(tokens) {
        Ok(t) => t,
        Err(e) => return Err(CommandError::Grammar(e)),
    };
    let interval = match resolve_interval(t.interval, opt_str(&config.bars.interval)) {
        Ok(interval) => interval,
        Err(e) => return Err(CommandError::Interval(e)),
    };
    let scope = match settle_scope(flags, config, t.use_rth, &t.start, &t.end, Ghost(read->Ok_0)) {
        Ok(scope) => scope,
        Err(e) => return Err(e),
    };
    let making = make(interval, t.fill || config.bars.fill, &scope);
    let (inputs, dir) = resolve_files(&t.paths, config);
    Ok(BarsPlan { scope, making, format: t.format, inputs, dir })
}

/// Files are to be written, and no directory is given.
#[derive(Debug, Clone, Copy, PartialEq, Eq, Structural)]
pub struct OutputRequired;

/// Where rows go.
#[derive(Debug)]
pub enum Target {
    /// One file per symbol, in a directory.
    Files(String),
    /// Rows of text.
    Rows(FrameFormat),
}

/// Settles where rows go: a file format needs a directory, the one given or else the config's.
pub fn output_target(
    format: AnalysisFormat,
    output: &Option<String>,
    config: &AnalysisConfig,
) -> (r: Result<Target, OutputRequired>)
    ensures
        match format {
            AnalysisFormat::Frame(format) => r == Ok::<Target, OutputRequired>(
                Target::Rows(format),
            ),
            AnalysisFormat::Fwob => match either(opt_text(*output), opt_text(config.output_dir)) {
                Some(dir) => r matches Ok(Target::Files(found)) && found@ == dir,
                None => r == Err::<Target, OutputRequired>(OutputRequired),
            },
        },
{
    match format {
        AnalysisFormat::Frame(format) => Ok(Target::Rows(format)),
        AnalysisFormat::Fwob => match first_of(output, &config.output_dir) {
            Some(dir) => Ok(Target::Files(dir.to_owned())),
            None => Err(OutputRequired),
        },
    }
}

// ---- `calc` -------------------------------------------------------------------------

#[derive(Debug)]
pub struct CalcPlan {
    pub scope: Scope,
    pub making: Making,
    pub format: AnalysisFormat,
    pub indicators: Vec<BuiltIn>,
    /// Name and precision of each indicator's column.
    pub columns: Vec<SummaryColumn>,
    pub inputs: Vec<String>,
    pub dir: String,
}

/// Whether columns carry the names and precisions of indicators.
pub open spec fn columns_of(columns: Seq<SummaryColumn>, indicators: Seq<BuiltIn>) -> bool {
    &&& columns.len() == indicators.len()
    &&& forall|i: int|
        0 <= i < columns.len() ==> (#[trigger] columns[i]).name@ == indicators[i].column()
            && columns[i].decimals == indicators[i].precision()
}

fn columns_for(indicators: &Vec<BuiltIn>) -> (r: Vec<SummaryColumn>)
    ensures
        columns_of(r@, indicators@),
{
    let mut out: Vec<SummaryColumn> = Vec::new();
    let mut i: usize = 0;
    while i < indicators.len()
        invariant
            i <= indicators.len(),
            columns_of(out@, indicators@.take(i as int)),
        decreases indicators.len() - i,
    {
        let name = indicators[i].name();
        let decimals: u8 = indicators[i].decimals();
        out.push(SummaryColumn { name, decimals });
        i += 1;
    }
    assert(indicators@.take(i as int) =~= indicators@);
    out
}

proof fn lemma_valid_specs_are_named(specs: Seq<Seq<char>>)
    requires
        forall|i: int|
            0 <= i < specs.len() ==> crate::calc::spec_meaning(#[trigger] specs[i]) matches Some(
                Ok(_),
            ),
    ensures
        crate::plot::indicators_named(specs) is Ok,
        crate::plot::indicators_named(specs)->Ok_0.len() == specs.len(),
        forall|i: int|
            0 <= i < specs.len() ==> crate::calc::spec_meaning(#[trigger] specs[i]) == Some(
                Ok::<BuiltIn, crate::calc::SpecError>(
                    crate::plot::indicators_named(specs)->Ok_0[i],
                ),
            ),
    decreases specs.len(),
{
    if specs.len() > 0 {
        let rest = specs.drop_last();
        assert forall|i: int| 0 <= i < rest.len() implies crate::calc::spec_meaning(
            #[trigger] rest[i],
        ) matches Some(Ok(_)) by {
            assert(specs[i] == rest[i]);
        }
        lemma_valid_specs_are_named(rest);
        assert(crate::calc::spec_meaning(specs[specs.len() - 1]) matches Some(Ok(_)));
        assert forall|i: int| 0 <= i < specs.len() implies crate::calc::spec_meaning(
            #[trigger] specs[i],
        ) == Some(
            Ok::<BuiltIn, crate::calc::SpecError>(crate::plot::indicators_named(specs)->Ok_0[i]),
        ) by {
            if i < rest.len() {
                assert(specs[i] == rest[i]);
            }
        }
    }
}

/// Plans `calc`.
pub fn plan_calc(flags: &Flags, tokens: &[String], config: &AnalysisConfig) -> (r: Result<
    CalcPlan,
    CommandError,
>)
    ensures
        match crate::tokens::read(crate::tokens::Grammar::Calc, crate::text::texts(tokens@)) {
            Err(e) => r == Err::<CalcPlan, CommandError>(CommandError::Grammar(e)),
            Ok(reading) => if reading.specs.len() == 0 {
                r == Err::<CalcPlan, CommandError>(CommandError::NoSpecs)
            } else {
                match (
                    interval_settled(reading, config.calc),
                    scope_in_force(*flags, *config, reading),
                ) {
                    (Err(e), _) => r == Err::<CalcPlan, CommandError>(e),
                    (Ok(_), Err(e)) => r == Err::<CalcPlan, CommandError>(e),
                    (Ok(interval), Ok(scope)) => r matches Ok(plan) && {
                        &&& plan.scope@ == scope
                        &&& makes(plan.making, interval, reading.fill || config.calc.fill, scope)
                        &&& plan.format == reading.format_or_table()
                        &&& crate::plot::indicators_named(reading.specs) == Ok::<
                            Seq<BuiltIn>,
                            crate::plot::BadSpec,
                        >(plan.indicators@)
                        &&& columns_of(plan.columns@, plan.indicators@)
                        &&& crate::text::texts(plan.inputs@) == crate::settings::inputs_in_force(
                            reading.paths,
                            crate::text::texts(config.symbols@),
                        )
                        &&& plan.dir@ == lookup_dir(*config)
                    },
                }
            },
        },
{
    let ghost read = crate::tokens::read(
        crate::tokens::Grammar::Calc,
        crate::text::texts(tokens@),
    );
    let t = match classify_calc(tokens) {
        Ok(t) => t,
        Err(e) => return Err(CommandError::Grammar(e)),
    };
    if t.specs.len() == 0 {
        return Err(CommandError::NoSpecs);
    }
    proof {
        crate::tokens::specs_are_valid(
            crate::tokens::Grammar::Calc,
            crate::text::texts(tokens@),
        );
        lemma_valid_specs_are_named(read->Ok_0.specs);
    }
    let interval = match resolve_interval(t.interval, opt_str(&config.calc.interval)) {
        Ok(interval) => interval,
        Err(e) => return Err(CommandError::Interval(e)),
    };
    let scope = match settle_scope(flags, config, t.use_rth, &t.start, &t.end, Ghost(read->Ok_0)) {
        Ok(scope) => scope,
        Err(e) => return Err(e),
    };
    let making = make(interval, t.fill || config.calc.fill, &scope);
    let indicators = parse_specs(t.specs.as_slice()).unwrap();
    let columns = columns_for(&indicators);
    let (inputs, dir) = resolve_files(&t.paths, config);
    Ok(CalcPlan { scope, making, format: t.format, indicators, columns, inputs, dir })
}

/// Whether `calc` prints its summary: where it is asked for, behind a table.
pub fn shows_summary(summary: bool, format: FrameFormat) -> (r: bool)
    ensures
        r == (summary && (format == FrameFormat::Table || format == FrameFormat::Markdown)),
{
    summary && (format == FrameFormat::Table || format == FrameFormat::Markdown)
}

// ---- `plot` -------------------------------------------------------------------------

#[derive(Debug)]
pub struct PlotPlan {
    pub scope: Scope,
    pub making: Making,
    pub layout: Layout,
    pub inputs: Vec<String>,
    pub dir: String,
}

/// Plans `plot`. It shares the tokens of `calc`, so it accepts the same indicator specs; a `volume`
/// token is taken out first, so it is not mistaken for a symbol.
pub fn plan_plot(flags: &Flags, volume: bool, tokens: &[String], config: &AnalysisConfig) -> (r:
    Result<PlotPlan, CommandError>)
    ensures
        match crate::tokens::read(
            crate::tokens::Grammar::Calc,
            crate::tokens::without_volume(crate::text::texts(tokens@)),
        ) {
            Err(e) => r == Err::<PlotPlan, CommandError>(CommandError::Grammar(e)),
            Ok(reading) => if reading.format_or_table() != AnalysisFormat::Frame(
                FrameFormat::Table,
            ) {
                r == Err::<PlotPlan, CommandError>(CommandError::PlotFormat)
            } else {
                match (
                    interval_settled(reading, config.bars),
                    scope_in_force(*flags, *config, reading),
                ) {
                    (Err(e), _) => r == Err::<PlotPlan, CommandError>(e),
                    (Ok(_), Err(e)) => r == Err::<PlotPlan, CommandError>(e),
                    (Ok(interval), Ok(scope)) => r matches Ok(plan) && {
                        let indicators = crate::plot::indicators_in_force(
                            crate::plot::indicators_named(reading.specs)->Ok_0,
                        );
                        let averaged = crate::plot::drawn(indicators, crate::plot::Panel::Volume);
                        &&& crate::plot::indicators_named(reading.specs) is Ok
                        &&& plan.scope@ == scope
                        &&& makes(plan.making, interval, reading.fill || config.bars.fill, scope)
                        &&& plan.layout.overlays@ == crate::plot::drawn(
                            indicators,
                            crate::plot::Panel::Price,
                        )
                        &&& plan.layout.panels@ == crate::plot::drawn(
                            indicators,
                            crate::plot::Panel::Own,
                        )
                        &&& plan.layout.volume_overlays@ == averaged
                        &&& plan.layout.volume == (volume || crate::text::texts(tokens@).contains(
                            "volume"@,
                        ) || averaged.len() > 0)
                        &&& crate::text::texts(plan.inputs@) == crate::settings::inputs_in_force(
                            reading.paths,
                            crate::text::texts(config.symbols@),
                        )
                        &&& plan.dir@ == lookup_dir(*config)
                    },
                }
            },
        },
{
    let (kept, named_volume) = take_volume(tokens);
    let ghost read = crate::tokens::read(
        crate::tokens::Grammar::Calc,
        crate::text::texts(kept@),
    );
    let t = match classify_calc(kept.as_slice()) {
        Ok(t) => t,
        Err(e) => return Err(CommandError::Grammar(e)),
    };
    if t.format != AnalysisFormat::Frame(FrameFormat::Table) {
        return Err(CommandError::PlotFormat);
    }
    proof {
        crate::tokens::specs_are_valid(crate::tokens::Grammar::Calc, crate::text::texts(kept@));
        lemma_valid_specs_are_named(read->Ok_0.specs);
    }
    let interval = match resolve_interval(t.interval, opt_str(&config.bars.interval)) {
        Ok(interval) => interval,
        Err(e) => return Err(CommandError::Interval(e)),
    };
    let scope = match settle_scope(flags, config, t.use_rth, &t.start, &t.end, Ghost(read->Ok_0)) {
        Ok(scope) => scope,
        Err(e) => return Err(e),
    };
    let making = make(interval, t.fill || config.bars.fill, &scope);
    let layout = layout_series(t.specs.as_slice(), volume || named_volume).unwrap();
    let (inputs, dir) = resolve_files(&t.paths, config);
    Ok(PlotPlan { scope, making, layout, inputs, dir })
}

/// Why resolved symbols cannot be plotted.
#[derive(Debug, Clone, Copy, PartialEq, Eq, Structural)]
pub enum PlotRefusal {
    /// No input could be read.
    Nothing,
    /// A file holds one chart.
    ManySymbols(usize),
}

/// Whether so many symbols can be plotted: at least one, and one alone into a file.
pub fn check_plot(symbols: usize, to_file: bool) -> (r: Result<(), PlotRefusal>)
    ensures
        symbols == 0 ==> r == Err::<(), PlotRefusal>(PlotRefusal::Nothing),
        symbols > 1 && to_file ==> r == Err::<(), PlotRefusal>(PlotRefusal::ManySymbols(symbols)),
        symbols == 1 || symbols > 1 && !to_file ==> r is Ok,
{
    if symbols == 0 {
        return Err(PlotRefusal::Nothing);
    }
    if to_file && symbols > 1 {
        return Err(PlotRefusal::ManySymbols(symbols));
    }
    Ok(())
}

// ---- `ls` and `inspect` --------------------------------------------------------------

/// The sessions of a listing: one whose time zone the times are shown in, one to tell the regular
/// hours by.
#[derive(Debug)]
pub struct Sessions {
    pub display: Session,
    pub rth: Session,
}

/// Settles the sessions of a listing.
pub fn listing_sessions(
    session: &Option<String>,
    tz: &Option<String>,
    config: &AnalysisConfig,
) -> (r: Result<Sessions, SessionError>)
    ensures
        ({
            let flags = Flags {
                start: None,
                end: None,
                use_rth: false,
                session: *session,
                tz: *tz,
            };
            match (session_in_force(flags, *config, false), session_in_force(flags, *config, true)) {
                (Err(e), _) => r == Err::<Sessions, SessionError>(e),
                (Ok(_), Err(e)) => r == Err::<Sessions, SessionError>(e),
                (Ok(display), Ok(rth)) => r matches Ok(sessions) && sessions.display@ == display
                    && sessions.rth@ == rth,
            }
        }),
{
    let display = match resolve_session(config, false, opt_str(session), opt_str(tz)) {
        Ok(session) => session,
        Err(e) => return Err(e),
    };
    match resolve_session(config, true, opt_str(session), opt_str(tz)) {
        Ok(rth) => Ok(Sessions { display, rth }),
        Err(e) => Err(e),
    }
}

#[derive(Debug)]
pub struct LsPlan {
    pub sessions: Sessions,
    pub format: LsFormat,
    pub inputs: Vec<String>,
    pub dir: String,
}

/// Plans `ls`.
pub fn plan_ls(
    session: &Option<String>,
    tz: &Option<String>,
    tokens: &[String],
    config: &AnalysisConfig,
) -> (r: Result<LsPlan, CommandError>)
    ensures
        ({
            let flags = Flags {
                start: None,
                end: None,
                use_rth: false,
                session: *session,
                tz: *tz,
            };
            match crate::tokens::ls_reading(crate::text::texts(tokens@)) {
                None => r == Err::<LsPlan, CommandError>(
                    CommandError::Grammar(GrammarError::ManyFormats),
                ),
                Some((paths, format)) => match (
                    session_in_force(flags, *config, false),
                    session_in_force(flags, *config, true),
                ) {
                    (Err(e), _) => r == Err::<LsPlan, CommandError>(CommandError::Session(e)),
                    (Ok(_), Err(e)) => r == Err::<LsPlan, CommandError>(CommandError::Session(e)),
                    (Ok(display), Ok(rth)) => r matches Ok(plan) && {
                        let inputs = crate::settings::inputs_in_force(
                            paths,
                            crate::text::texts(config.symbols@),
                        );
                        &&& plan.sessions.display@ == display
                        &&& plan.sessions.rth@ == rth
                        &&& plan.format == match format {
                            Some(format) => format,
                            None => LsFormat::Table,
                        }
                        &&& crate::text::texts(plan.inputs@) == if inputs.len() == 0 {
                            seq!["."@]
                        } else {
                            inputs
                        }
                        &&& plan.dir@ == lookup_dir(*config)
                    },
                },
            }
        }),
{
    let (paths, format) = match classify_ls(tokens) {
        Ok(t) => t,
        Err(e) => return Err(CommandError::Grammar(e)),
    };
    let sessions = match listing_sessions(session, tz, config) {
        Ok(sessions) => sessions,
        Err(e) => return Err(CommandError::Session(e)),
    };
    let (inputs, dir) = resolve_listing(&paths, config);
    Ok(LsPlan { sessions, format, inputs, dir })
}

/// Every input failed to be read.
#[derive(Debug, Clone, Copy, PartialEq, Eq, Structural)]
pub struct AllFailed {
    pub failures: u32,
}

/// Whether a run over several inputs stands: it does unless every one of them failed.
pub fn check_failures(rows: usize, failures: u32) -> (r: Result<(), AllFailed>)
    ensures
        r == if rows == 0 && failures > 0 {
            Err::<(), AllFailed>(AllFailed { failures })
        } else {
            Ok::<(), AllFailed>(())
        },
{
    if rows == 0 && failures > 0 {
        return Err(AllFailed { failures });
    }
    Ok(())
}

} // verus!
