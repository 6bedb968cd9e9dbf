//! What the analysis commands are set to: the config, with what the command line overrides.
use vstd::prelude::*;

use crate::interval::{Granularity, Interval, IntervalError, IntervalUnit};
use crate::model::InputKind;
use crate::session::{Session, SessionError};
use crate::text::{chars_of, to_decimal, white_space};

verus! {

/// A session as a config writes it.
#[derive(Debug)]
pub struct SessionConfig {
    /// The exchange's time zone.
    pub tz: String,
    /// The hours, such as `09:30-16:00`; blank for the default ones.
    pub hours: String,
}

/// The defaults that a config gives a bar-producing command.
#[derive(Debug)]
pub struct BarDefaults {
    pub interval: Option<String>,
    pub fill: bool,
}

/// The analysis section of a config.
#[derive(Debug)]
pub struct AnalysisConfig {
    /// Where symbols are looked up, and where files are written.
    pub output_dir: Option<String>,
    /// The symbols to read where the command line names none.
    pub symbols: Vec<String>,
    pub rth: SessionConfig,
    pub extended: SessionConfig,
    pub bars: BarDefaults,
    pub calc: BarDefaults,
}

/// The hours of the regular session.
pub const DEFAULT_RTH_HOURS: &'static str = "09:30-16:00";

/// The hours of the extended session.
pub const DEFAULT_EXTENDED_HOURS: &'static str = "04:00-20:00";

/// The time zone of a session that names none.
pub const DEFAULT_ZONE: &'static str = "America/New_York";

impl Default for AnalysisConfig {
    fn default() -> (r: Self)
        ensures
            r.output_dir is None,
            r.symbols@.len() == 0,
            r.rth.tz@ == "America/New_York"@,
            r.rth.hours@ == "09:30-16:00"@,
            r.extended.tz@ == "America/New_York"@,
            r.extended.hours@ == "04:00-20:00"@,
            r.bars.interval is None,
            !r.bars.fill,
            r.calc.interval is None,
            !r.calc.fill,
    {
        AnalysisConfig {
            output_dir: None,
            symbols: Vec::new(),
            rth: SessionConfig { tz: DEFAULT_ZONE.to_owned(), hours: DEFAULT_RTH_HOURS.to_owned() },
            extended: SessionConfig {
                tz: DEFAULT_ZONE.to_owned(),
                hours: DEFAULT_EXTENDED_HOURS.to_owned(),
            },
            bars: BarDefaults { interval: None, fill: false },
            calc: BarDefaults { interval: None, fill: false },
        }
    }
}

// ---- the interval -------------------------------------------------------------------

/// Why a config's interval is refused.
#[derive(Debug, Clone, Copy, PartialEq, Eq, Structural)]
pub enum IntervalSetting {
    /// It is not interval-shaped.
    NotInterval,
    /// Its count is out of range.
    Bad(IntervalError),
}

/// The interval in force: the token's, else the config's, else one day.
pub open spec fn interval_in_force(
    token: Option<(nat, IntervalUnit)>,
    config: Option<Seq<char>>,
) -> Result<(nat, IntervalUnit), IntervalSetting> {
    match (token, config) {
        (Some(interval), _) => Ok(interval),
        (None, Some(text)) => match crate::interval::token_meaning(text) {
            None => Err(IntervalSetting::NotInterval),
            Some(Err(e)) => Err(IntervalSetting::Bad(e)),
            Some(Ok(interval)) => Ok(interval),
        },
        (None, None) => Ok((1, IntervalUnit::Day)),
    }
}

/// Settles the interval: a token wins over the config's value, and that over one day.
pub fn resolve_interval(token: Option<Interval>, config: Option<&str>) -> (r: Result<
    Interval,
    IntervalSetting,
>)
    ensures
        match interval_in_force(
            crate::tokens::interval_model(token),
            match config {
                Some(text) => Some(text@),
                None => None,
            },
        ) {
            Ok((count, unit)) => r matches Ok(interval) && interval.units() == count
                && interval.kind() == unit,
            Err(e) => r == Err::<Interval, IntervalSetting>(e),
        },
{
    if let Some(interval) = token {
        return Ok(interval);
    }
    match config {
        Some(text) => match Interval::parse(text) {
            None => Err(IntervalSetting::NotInterval),
            Some(Err(e)) => Err(IntervalSetting::Bad(e)),
            Some(Ok(interval)) => Ok(interval),
        },
        None => Ok(Interval::daily()),
    }
}

// ---- the session --------------------------------------------------------------------

/// Whether a text is white space only.
pub open spec fn blank(s: Seq<char>) -> bool {
    forall|i: int| 0 <= i < s.len() ==> crate::text::is_space(#[trigger] s[i])
}

fn is_blank(s: &str) -> (r: bool)
    ensures
        r == blank(s@),
{
    let chars = chars_of(s);
    let mut i: usize = 0;
    while i < chars.len()
        invariant
            i <= chars.len(),
            chars@ == s@,
            forall|j: int| 0 <= j < i ==> crate::text::is_space(#[trigger] s@[j]),
        decreases chars.len() - i,
    {
        if !white_space(chars[i]) {
            assert(!crate::text::is_space(s@[i as int]));
            return false;
        }
        i += 1;
    }
    true
}

/// The hours in force: those given, else the config's, else the default ones.
pub open spec fn hours_in_force(given: Option<Seq<char>>, config: Seq<char>, use_rth: bool) -> Seq<
    char,
> {
    match given {
        Some(hours) => hours,
        None => if !blank(config) {
            config
        } else if use_rth {
            "09:30-16:00"@
        } else {
            "04:00-20:00"@
        },
    }
}

impl AnalysisConfig {
    /// The session's config: that of the regular or of the extended hours.
    pub open spec fn base(self, use_rth: bool) -> SessionConfig {
        if use_rth {
            self.rth
        } else {
            self.extended
        }
    }

    /// The session of the regular or of the extended hours.
    pub fn session(&self, use_rth: bool) -> (r: Result<Session, SessionError>)
        ensures
            session_settled(
                self.base(use_rth).tz@,
                hours_in_force(None, self.base(use_rth).hours@, use_rth),
                r,
            ),
    {
        resolve_session(self, use_rth, None, None)
    }
}

/// The session of a zone and hours, or why there is none.
pub open spec fn session_named(zone: Seq<char>, hours: Seq<char>) -> Result<
    crate::session::SessionModel,
    SessionError,
> {
    if !crate::civil::zone_known(zone) {
        Err(SessionError::UnknownZone)
    } else {
        match crate::session::hours_of(hours) {
            None => Err(SessionError::BadHours),
            Some((open, close)) => Ok(crate::session::SessionModel { zone, open, close }),
        }
    }
}

/// Whether a result is the session of a zone and hours, or why there is none.
pub open spec fn session_settled(
    zone: Seq<char>,
    hours: Seq<char>,
    r: Result<Session, SessionError>,
) -> bool {
    match session_named(zone, hours) {
        Ok(model) => r matches Ok(session) && session@ == model,
        Err(e) => r == Err::<Session, SessionError>(e),
    }
}

/// What is given, as text.
pub open spec fn given(value: Option<&str>) -> Option<Seq<char>> {
    match value {
        Some(value) => Some(value@),
        None => None,
    }
}

/// Settles the session: the hours and the time zone that are given win over the config's.
pub fn resolve_session(
    config: &AnalysisConfig,
    use_rth: bool,
    session_override: Option<&str>,
    tz_override: Option<&str>,
) -> (r: Result<Session, SessionError>)
    ensures
        session_settled(
            match tz_override {
                Some(tz) => tz@,
                None => config.base(use_rth).tz@,
            },
            hours_in_force(given(session_override), config.base(use_rth).hours@, use_rth),
            r,
        ),
{
    let base = if use_rth {
        &config.rth
    } else {
        &config.extended
    };
    let tz = match tz_override {
        Some(tz) => tz,
        None => base.tz.as_str(),
    };
    let hours = match session_override {
        Some(hours) => hours,
        None => if !is_blank(base.hours.as_str()) {
            base.hours.as_str()
        } else if use_rth {
            DEFAULT_RTH_HOURS
        } else {
            DEFAULT_EXTENDED_HOURS
        },
    };
    Session::new(tz, hours)
}

// ---- labels and warnings ------------------------------------------------------------

/// The label of a kind of file.
pub fn kind_label(kind: InputKind) -> (r: &'static str)
    ensures
        r@ == match kind {
            InputKind::Tick => "tick"@,
            InputKind::Bar => "bar"@,
        },
{
    match kind {
        InputKind::Tick => "tick",
        InputKind::Bar => "bar",
    }
}

/// A session length as hours and minutes, leaving out what is zero.
pub open spec fn session_length_text(seconds: int) -> Seq<char> {
    let hours = seconds / 3_600;
    let minutes = (seconds / 60) % 60;
    if hours == 0 {
        crate::text::decimal(minutes as nat) + seq!['m']
    } else if minutes == 0 {
        crate::text::decimal(hours as nat) + seq!['h']
    } else {
        crate::text::decimal(hours as nat) + seq!['h'] + crate::text::decimal(minutes as nat)
            + seq!['m']
    }
}

/// Formats a session length in seconds as a compact `HhMm` label (e.g. `6h30m`, `16h`).
pub fn fmt_session_len(seconds: u32) -> (r: String)
    ensures
        r@ == session_length_text(seconds as int),
{
    let minutes: u32 = seconds / 60;
    let hours: u32 = minutes / 60;
    let rest: u32 = minutes % 60;
    if hours == 0 {
        let mut out = to_decimal(rest as u128);
        out.push('m');
        assert(out@ =~= session_length_text(seconds as int));
        return out;
    }
    let mut out = to_decimal(hours as u128);
    out.push('h');
    if rest > 0 {
        out.append(to_decimal(rest as u128).as_str());
        out.push('m');
    }
    assert(out@ =~= session_length_text(seconds as int));
    out
}

/// Whether a sub-day interval leaves the session's last bar shorter than the rest.
pub open spec fn uneven(interval: Granularity, session: crate::session::SessionModel) -> bool {
    interval matches Granularity::SubDay(width) && width > 0 && ((session.close - session.open)
        * 60) % width as int != 0
}

/// What is said of an interval that does not divide its session.
pub open spec fn uneven_text(
    label: Seq<char>,
    use_rth: bool,
    session: crate::session::SessionModel,
) -> Seq<char> {
    "interval "@ + label + " does not evenly divide the "@ + (if use_rth {
        "RTH"@
    } else {
        "extended-hours"@
    }) + " session ("@ + session_length_text((session.close - session.open) * 60)
        + "); the last bar of each session will be shorter than the rest"@
}

/// The warning for a sub-day interval that does not evenly divide the active trading session (RTH
/// or extended hours). Since intraday buckets are anchored to the session open, an interval that
/// tiles the session yields equal-width bars; otherwise the session's last bar is shorter than the
/// rest. Day-and-larger intervals are calendar-anchored and never warn.
pub fn warn_uneven_interval(interval: Interval, session: &Session, use_rth: bool) -> (r: Option<
    String,
>)
    ensures
        r is Some <==> uneven(interval.anchoring(), session@),
        r matches Some(text) ==> text@ == uneven_text(interval.token(), use_rth, session@),
{
    let width: u32 = match interval.granularity() {
        Granularity::SubDay(width) => width,
        _ => return None,
    };
    let length: u32 = session.length_seconds();
    if width == 0 || length % width == 0 {
        return None;
    }
    let mut out = "interval ".to_owned();
    out.append(interval.label().as_str());
    out.append(" does not evenly divide the ");
    if use_rth {
        out.append("RTH");
    } else {
        out.append("extended-hours");
    }
    out.append(" session (");
    out.append(fmt_session_len(length).as_str());
    out.append("); the last bar of each session will be shorter than the rest");
    assert(out@ =~= uneven_text(interval.token(), use_rth, session@));
    Some(out)
}

// ---- inputs and outputs -------------------------------------------------------------

/// Where symbols are looked up: the config's directory, else the current one.
pub fn analysis_output_dir(config: &AnalysisConfig) -> (r: String)
    ensures
        r@ == match config.output_dir {
            Some(dir) => dir@,
            None => "."@,
        },
{
    match &config.output_dir {
        Some(dir) => dir.clone(),
        None => ".".to_owned(),
    }
}

/// The inputs in force: the paths given, else the config's symbols.
pub open spec fn inputs_in_force(paths: Seq<Seq<char>>, symbols: Seq<Seq<char>>) -> Seq<Seq<char>> {
    if paths.len() == 0 && symbols.len() > 0 {
        symbols
    } else {
        paths
    }
}

pub(crate) fn copy_texts(values: &Vec<String>) -> (r: Vec<String>)
    ensures
        crate::text::texts(r@) == crate::text::texts(values@),
{
    let mut out: Vec<String> = Vec::new();
    let mut i: usize = 0;
    while i < values.len()
        invariant
            i <= values.len(),
            out@.len() == i,
            forall|j: int| 0 <= j < i ==> (#[trigger] out@[j])@ == values@[j]@,
        decreases values.len() - i,
    {
        out.push(values[i].clone());
        i += 1;
    }
    assert(crate::text::texts(out@) =~= crate::text::texts(values@));
    out
}

/// The inputs to look up, and the directory to look symbols up in.
pub fn resolve_files(paths: &Vec<String>, config: &AnalysisConfig) -> (r: (Vec<String>, String))
    ensures
        crate::text::texts(r.0@) == inputs_in_force(
            crate::text::texts(paths@),
            crate::text::texts(config.symbols@),
        ),
        r.1@ == match config.output_dir {
            Some(dir) => dir@,
            None => "."@,
        },
{
    let tokens = if paths.len() == 0 && config.symbols.len() > 0 {
        copy_texts(&config.symbols)
    } else {
        copy_texts(paths)
    };
    (tokens, analysis_output_dir(config))
}

/// The inputs of `ls`: where nothing is named, the current directory.
pub fn resolve_listing(paths: &Vec<String>, config: &AnalysisConfig) -> (r: (Vec<String>, String))
    ensures
        ({
            let inputs = inputs_in_force(
                crate::text::texts(paths@),
                crate::text::texts(config.symbols@),
            );
            crate::text::texts(r.0@) == if inputs.len() == 0 {
                seq!["."@]
            } else {
                inputs
            }
        }),
        r.1@ == match config.output_dir {
            Some(dir) => dir@,
            None => "."@,
        },
{
    if paths.len() == 0 && config.symbols.len() == 0 {
        let here: Vec<String> = vec![".".to_owned()];
        assert(crate::text::texts(here@) =~= seq!["."@]);
        return (here, analysis_output_dir(config));
    }
    resolve_files(paths, config)
}

/// The file that a symbol stands for in a directory: `<dir>/<symbol>.fwob`.
pub fn symbol_file(dir: &str, symbol: &str) -> (r: String)
    ensures
        r@ == dir@ + seq!['/'] + symbol@ + ".fwob"@,
{
    let mut out = dir.to_owned();
    out.push('/');
    out.append(symbol);
    out.append(".fwob");
    assert(out@ =~= dir@ + seq!['/'] + symbol@ + ".fwob"@);
    out
}

} // verus!
