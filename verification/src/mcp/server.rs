//! What the tools decide.
//!
//! Two things differ from the command line on purpose. Parameters are named and typed, so there is
//! no grammar to get wrong. And results are bounded: a decade of one-second bars would bury a
//! caller, so every row-returning tool keeps the most recent rows only, and says so in its
//! [`Series`](crate::mcp::dto::Series).
use vstd::prelude::*;

use std::collections::VecDeque;

use crate::bounds::{parse_bounds, BoundError};
use crate::calc::BuiltIn;
use crate::civil::Zone;
use crate::commands::Scope;
use crate::interval::{Interval, IntervalError, IntervalUnit};
use crate::mcp::dto::{iso, Series};
use crate::model::Bar;
use crate::plot::{parse_specs, BadSpec};
use crate::session::{Session, SessionError};
use crate::settings::{resolve_session, AnalysisConfig};
use crate::text::to_decimal;

verus! {

/// Rows handed out where no limit is given.
pub const DEFAULT_LIMIT: usize = 1_000;

/// Ceiling on `limit`, whatever the caller asks for.
pub const MAX_LIMIT: usize = 10_000;

/// Bars a single chart will render. Well past the useful density of a 1920px canvas.
pub const MAX_PLOT_BARS: usize = 50_000;

/// Clamps a caller-supplied `limit` into the allowed range.
pub fn clamp_limit(limit: Option<usize>) -> (r: usize)
    ensures
        1 <= r <= MAX_LIMIT,
        limit is None ==> r == DEFAULT_LIMIT,
        limit matches Some(n) ==> r == (if n < 1 {
            1
        } else if n > MAX_LIMIT {
            MAX_LIMIT
        } else {
            n
        }),
{
    let n: usize = match limit {
        Some(n) => n,
        None => DEFAULT_LIMIT,
    };
    if n < 1 {
        1
    } else if n > MAX_LIMIT {
        MAX_LIMIT
    } else {
        n
    }
}

// ---- the most recent rows ----------------------------------------------------------------

/// The last so many of a sequence, or all of it.
pub open spec fn latest<T>(rows: Seq<T>, limit: int) -> Seq<T> {
    if rows.len() <= limit {
        rows
    } else {
        rows.skip(rows.len() - limit)
    }
}

/// Keeps the most recent rows of a stream, and counts them all.
pub struct Recent<T> {
    limit: usize,
    rows: VecDeque<T>,
    total: usize,
    seen: Ghost<Seq<T>>,
}

impl<T> Recent<T> {
    /// Every row taken in so far.
    pub closed spec fn all(&self) -> Seq<T> {
        self.seen@
    }

    pub closed spec fn keeps(&self) -> nat {
        self.limit as nat
    }

    #[verifier::type_invariant]
    spec fn valid(&self) -> bool {
        &&& 1 <= self.limit
        &&& self.total == self.seen@.len()
        &&& self.rows@ == latest(self.seen@, self.limit as int)
    }

    /// Keeps as many rows as a limit allows.
    pub fn new(limit: Option<usize>) -> (r: Recent<T>)
        ensures
            r.all() == Seq::<T>::empty(),
            r.keeps() <= MAX_LIMIT,
            limit is None ==> r.keeps() == DEFAULT_LIMIT,
            limit matches Some(n) ==> r.keeps() == (if n < 1 {
                1
            } else if n > MAX_LIMIT {
                MAX_LIMIT
            } else {
                n
            }),
    {
        let limit: usize = clamp_limit(limit);
        Recent {
            limit,
            rows: VecDeque::with_capacity(limit),
            total: 0,
            seen: Ghost(Seq::empty()),
        }
    }

    /// Whether one more row can be counted.
    pub fn accepts(&self) -> (r: bool)
        ensures
            r == (self.all().len() < usize::MAX),
    {
        proof {
            use_type_invariant(self);
        }
        self.total < usize::MAX
    }

    /// Takes in one more row; the oldest one kept leaves where there are too many.
    pub fn push(self, row: T) -> (r: Recent<T>)
        requires
            self.all().len() < usize::MAX,
        ensures
            r.all() == self.all().push(row),
            r.keeps() == self.keeps(),
    {
        proof {
            use_type_invariant(&self);
        }
        let ghost before = self.seen@;
        let ghost after = before.push(row);
        let limit: usize = self.limit;
        let mut rows = self.rows;
        if rows.len() == limit {
            rows.pop_front();
        }
        rows.push_back(row);
        assert(rows@ =~= latest(after, limit as int));
        Recent { limit, rows, total: self.total + 1, seen: Ghost(after) }
    }

    /// The rows kept, and how many there were.
    pub fn finish(self) -> (r: (Vec<T>, usize))
        ensures
            r.0@ == latest(self.all(), self.keeps() as int),
            r.1 == self.all().len(),
    {
        proof {
            use_type_invariant(&self);
        }
        let mut rows = self.rows;
        let ghost kept = rows@;
        let mut out: Vec<T> = Vec::new();
        assert(kept.skip(0) =~= kept);
        while rows.len() > 0
            invariant
                out@.len() + rows@.len() == kept.len(),
                out@ == kept.take(out@.len() as int),
                rows@ == kept.skip(out@.len() as int),
            decreases rows@.len(),
        {
            let ghost n = out@.len() as int;
            let row = rows.pop_front().unwrap();
            out.push(row);
            assert(out@ =~= kept.take(n + 1));
            assert(rows@ =~= kept.skip(n + 1));
        }
        assert(kept.take(out@.len() as int) =~= kept);
        (out, self.total)
    }
}

/// Truncation keeps the most recent rows, in order: what is kept is the end of the stream, and
/// everything is kept where the limit allows it.
pub proof fn truncation_keeps_the_end<T>(rows: Seq<T>, limit: int)
    requires
        limit >= 1,
    ensures
        latest(rows, limit).len() == (if rows.len() <= limit {
            rows.len() as int
        } else {
            limit
        }),
        exists|dropped: Seq<T>| #[trigger] (dropped + latest(rows, limit)) == rows,
        rows.len() > 0 ==> latest(rows, limit).len() > 0 && latest(rows, limit).last()
            == rows.last(),
{
    if rows.len() <= limit {
        assert(Seq::<T>::empty() + latest(rows, limit) =~= rows);
    } else {
        assert(rows.take(rows.len() - limit) + latest(rows, limit) =~= rows);
    }
}

/// The hint of a truncated series.
pub open spec fn hint_text(returned: int, total: int) -> Seq<char> {
    "showing the most recent "@ + crate::text::decimal(returned as nat) + " of "@
        + crate::text::decimal(total as nat)
        + " bars; narrow start/end or widen interval for a complete answer"@
}

/// Builds the truncation contract around the rows that were kept.
pub fn series<T>(symbol: String, interval: Interval, tz: &Zone, total: usize, rows: Vec<T>) -> (r:
    Series<T>)
    ensures
        r.symbol == symbol,
        r.interval@ == interval.token(),
        r.timezone@ == crate::civil::zone_label(tz@),
        r.total == total,
        r.returned == rows@.len(),
        r.truncated == (total > rows@.len()),
        crate::commands::opt_text(r.hint) == (if total > rows@.len() {
            Some(hint_text(rows@.len() as int, total as int))
        } else {
            None
        }),
        r.rows == rows,
{
    let returned: usize = rows.len();
    let truncated = total > returned;
    let hint = if truncated {
        let mut out = "showing the most recent ".to_owned();
        out.append(to_decimal(returned as u128).as_str());
        out.append(" of ");
        out.append(to_decimal(total as u128).as_str());
        out.append(" bars; narrow start/end or widen interval for a complete answer");
        assert(out@ =~= hint_text(returned as int, total as int));
        Some(out)
    } else {
        None
    };
    Series {
        symbol,
        interval: interval.label(),
        timezone: tz.name(),
        total,
        returned,
        truncated,
        hint,
        rows,
    }
}

// ---- requests ------------------------------------------------------------------------------

/// A selection of symbols plus the time window and session to read them under.
#[derive(Debug)]
pub struct Selection {
    /// Symbols to read, e.g. `["AAPL", "MSFT"]`. Empty for every symbol in the archive.
    pub symbols: Vec<String>,
    /// Window start: `2024-01-01`, a local date-time, or an RFC3339 instant.
    pub start: Option<String>,
    /// Window end. A bare date includes the whole local day.
    pub end: Option<String>,
    /// Keep only regular-trading-hours activity (09:30-16:00 by default).
    pub use_rth: Option<bool>,
    /// Override the session window as `HH:MM-HH:MM`.
    pub session: Option<String>,
    /// Override the exchange timezone (IANA name, e.g. `America/New_York`).
    pub tz: Option<String>,
}

/// Why a request is refused before it reads anything.
#[derive(Debug, Clone, Copy, PartialEq, Eq, Structural)]
pub enum ToolError {
    Session(SessionError),
    /// The interval is not interval-shaped.
    UnknownInterval,
    Interval(IntervalError),
    Bound(BoundError),
    /// No indicator spec is given.
    NoSpecs,
    Spec(BadSpec),
    /// A chart shows one symbol, and so many were selected.
    ManySymbols(usize),
    NoSymbol,
    /// The range holds more bars than a chart will render.
    TooManyBars,
}

/// The server: its config, and the session and time zone that calls fall back to.
#[derive(Debug)]
pub struct McpServer {
    config: AnalysisConfig,
    session: Option<String>,
    tz: Option<String>,
}

/// A request settled: the rows it reads, and the interval of its bars.
#[derive(Debug)]
pub struct Pipeline {
    pub scope: Scope,
    pub interval: Interval,
}

/// The interval of a request: one day where none is given.
pub open spec fn tool_interval(interval: Option<Seq<char>>) -> Result<
    (nat, IntervalUnit),
    ToolError,
> {
    match interval {
        None => Ok((1, IntervalUnit::Day)),
        Some(token) => match crate::interval::token_meaning(token) {
            None => Err(ToolError::UnknownInterval),
            Some(Err(e)) => Err(ToolError::Interval(e)),
            Some(Ok(interval)) => Ok(interval),
        },
    }
}

fn settle_interval(interval: Option<&str>) -> (r: Result<Interval, ToolError>)
    ensures
        match tool_interval(crate::settings::given(interval)) {
            Ok((count, unit)) => r matches Ok(i) && i.units() == count && i.kind() == unit,
            Err(e) => r == Err::<Interval, ToolError>(e),
        },
{
    match interval {
        None => Ok(Interval::daily()),
        Some(token) => match Interval::parse(token) {
            None => Err(ToolError::UnknownInterval),
            Some(Err(e)) => Err(ToolError::Interval(e)),
            Some(Ok(interval)) => Ok(interval),
        },
    }
}

fn as_text(value: &Option<String>) -> (r: Option<&str>)
    ensures
        crate::settings::given(r) == crate::commands::opt_text(*value),
{
    match value {
        Some(value) => Some(value.as_str()),
        None => None,
    }
}

impl McpServer {
    pub closed spec fn settings(&self) -> AnalysisConfig {
        self.config
    }

    pub closed spec fn session_default(&self) -> Option<Seq<char>> {
        crate::commands::opt_text(self.session)
    }

    pub closed spec fn tz_default(&self) -> Option<Seq<char>> {
        crate::commands::opt_text(self.tz)
    }

    pub fn new(config: AnalysisConfig, session: Option<String>, tz: Option<String>) -> (r: Self)
        ensures
            r.settings() == config,
            r.session_default() == crate::commands::opt_text(session),
            r.tz_default() == crate::commands::opt_text(tz),
    {
        McpServer { config, session, tz }
    }

    /// The session of a call.
    pub open spec fn session_of(
        &self,
        use_rth: bool,
        session: Option<Seq<char>>,
        tz: Option<Seq<char>>,
    ) -> Result<crate::session::SessionModel, SessionError> {
        let base = self.settings().base(use_rth);
        crate::settings::session_named(
            match crate::commands::either(tz, self.tz_default()) {
                Some(tz) => tz,
                None => base.tz@,
            },
            crate::settings::hours_in_force(
                crate::commands::either(session, self.session_default()),
                base.hours@,
                use_rth,
            ),
        )
    }

    /// Per-call session/timezone overrides fall back to the server-level ones.
    pub fn session_for(&self, use_rth: bool, session: Option<&str>, tz: Option<&str>) -> (r: Result<
        Session,
        SessionError,
    >)
        ensures
            match self.session_of(
                use_rth,
                crate::settings::given(session),
                crate::settings::given(tz),
            ) {
                Ok(model) => r matches Ok(session) && session@ == model,
                Err(e) => r == Err::<Session, SessionError>(e),
            },
    {
        let session = match session {
            Some(session) => Some(session),
            None => as_text(&self.session),
        };
        let tz = match tz {
            Some(tz) => Some(tz),
            None => as_text(&self.tz),
        };
        resolve_session(&self.config, use_rth, session, tz)
    }

    /// The rows that a selection reads.
    pub open spec fn scope_of(&self, sel: Selection) -> Result<
        crate::commands::ScopeModel,
        ToolError,
    > {
        let use_rth = sel.use_rth == Some(true);
        match self.session_of(
            use_rth,
            crate::commands::opt_text(sel.session),
            crate::commands::opt_text(sel.tz),
        ) {
            Err(e) => Err(ToolError::Session(e)),
            Ok(session) => match crate::bounds::bounds_named(
                crate::commands::opt_text(sel.start),
                crate::commands::opt_text(sel.end),
                session.zone,
            ) {
                Err(e) => Err(ToolError::Bound(e)),
                Ok((start, end)) => Ok(
                    crate::commands::ScopeModel { use_rth, session, start, end },
                ),
            },
        }
    }

    /// Settles the rows that a selection reads.
    pub fn scope(&self, sel: &Selection) -> (r: Result<Scope, ToolError>)
        ensures
            match self.scope_of(*sel) {
                Ok(model) => r matches Ok(scope) && scope@ == model,
                Err(e) => r == Err::<Scope, ToolError>(e),
            },
    {
        let use_rth = match sel.use_rth {
            Some(use_rth) => use_rth,
            None => false,
        };
        let session = match self.session_for(use_rth, as_text(&sel.session), as_text(&sel.tz)) {
            Ok(session) => session,
            Err(e) => return Err(ToolError::Session(e)),
        };
        let zone = session.time_zone();
        match parse_bounds(as_text(&sel.start), as_text(&sel.end), &zone) {
            Err(e) => Err(ToolError::Bound(e)),
            Ok((start, end)) => Ok(Scope { use_rth, session, start, end }),
        }
    }

    /// Resolves everything a bar-producing tool needs from a [`Selection`], files apart. A session
    /// that cannot be built is reported first, then the interval, then the window.
    pub fn pipeline(&self, sel: &Selection, interval: Option<&str>) -> (r: Result<
        Pipeline,
        ToolError,
    >)
        ensures
            match (self.scope_of(*sel), tool_interval(crate::settings::given(interval))) {
                (Err(ToolError::Session(e)), _) => r == Err::<Pipeline, ToolError>(
                    ToolError::Session(e),
                ),
                (_, Err(e)) => r == Err::<Pipeline, ToolError>(e),
                (Err(e), Ok(_)) => r == Err::<Pipeline, ToolError>(e),
                (Ok(scope), Ok((count, unit))) => r matches Ok(p) && p.scope@ == scope
                    && p.interval.units() == count && p.interval.kind() == unit,
            },
    {
        let scope = self.scope(sel);
        if let Err(ToolError::Session(e)) = scope {
            return Err(ToolError::Session(e));
        }
        let interval = match settle_interval(interval) {
            Ok(interval) => interval,
            Err(e) => return Err(e),
        };
        match scope {
            Ok(scope) => Ok(Pipeline { scope, interval }),
            Err(e) => Err(e),
        }
    }
}

/// The indicators of a request; at least one is asked for.
pub fn tool_indicators(specs: &[String]) -> (r: Result<Vec<BuiltIn>, ToolError>)
    ensures
        specs@.len() == 0 ==> r == Err::<Vec<BuiltIn>, ToolError>(ToolError::NoSpecs),
        specs@.len() > 0 ==> match crate::plot::indicators_named(crate::text::texts(specs@)) {
            Ok(indicators) => r matches Ok(v) && v@ == indicators,
            Err(e) => r == Err::<Vec<BuiltIn>, ToolError>(ToolError::Spec(e)),
        },
{
    if specs.len() == 0 {
        return Err(ToolError::NoSpecs);
    }
    match parse_specs(specs) {
        Ok(indicators) => Ok(indicators),
        Err(e) => Err(ToolError::Spec(e)),
    }
}

// ---- charts ----------------------------------------------------------------------------------

/// Whether so many symbols make a chart: exactly one does.
pub fn check_chart(symbols: usize) -> (r: Result<(), ToolError>)
    ensures
        r == if symbols > 1 {
            Err::<(), ToolError>(ToolError::ManySymbols(symbols))
        } else if symbols == 0 {
            Err::<(), ToolError>(ToolError::NoSymbol)
        } else {
            Ok::<(), ToolError>(())
        },
{
    if symbols > 1 {
        return Err(ToolError::ManySymbols(symbols));
    }
    if symbols == 0 {
        return Err(ToolError::NoSymbol);
    }
    Ok(())
}

/// Takes one more bar into a chart, up to what a chart will render.
pub fn push_chart_bar(bars: &mut Vec<Bar>, bar: Bar) -> (r: Result<(), ToolError>)
    ensures
        if old(bars)@.len() >= MAX_PLOT_BARS {
            r == Err::<(), ToolError>(ToolError::TooManyBars) && final(bars)@ == old(bars)@
        } else {
            r is Ok && final(bars)@ == old(bars)@.push(bar)
        },
{
    if bars.len() >= MAX_PLOT_BARS {
        return Err(ToolError::TooManyBars);
    }
    bars.push(bar);
    Ok(())
}

/// What is said beside a chart.
pub open spec fn caption_text(
    symbol: Seq<char>,
    bars: Seq<Bar>,
    interval: Seq<char>,
    zone: Seq<char>,
) -> Seq<char> {
    symbol + ": "@ + crate::text::decimal(bars.len()) + " "@ + interval + " bars from "@
        + crate::output::stamp_text(zone, bars[0].time as int) + " to "@
        + crate::output::stamp_text(zone, bars.last().time as int)
}

/// What is said beside a chart: how many bars it shows, and from when to when. Without a bar there
/// is no chart.
pub fn caption(symbol: &str, bars: &Vec<Bar>, interval: Interval, tz: &Zone) -> (r: Option<String>)
    ensures
        r is Some <==> bars@.len() > 0,
        r matches Some(text) ==> text@ == caption_text(symbol@, bars@, interval.token(), tz@),
{
    if bars.len() == 0 {
        return None;
    }
    let mut out = symbol.to_owned();
    out.append(": ");
    out.append(to_decimal(bars.len() as u128).as_str());
    out.append(" ");
    out.append(interval.label().as_str());
    out.append(" bars from ");
    out.append(iso(bars[0].time, tz).as_str());
    out.append(" to ");
    out.append(iso(bars[bars.len() - 1].time, tz).as_str());
    assert(out@ =~= caption_text(symbol@, bars@, interval.token(), tz@));
    Some(out)
}

/// The character of a group of six bits in the standard base64 alphabet.
pub open spec fn sextet_char(n: int) -> char {
    if n < 26 {
        (n + 'A' as int) as char
    } else if n < 52 {
        (n - 26 + 'a' as int) as char
    } else if n < 62 {
        (n - 52 + '0' as int) as char
    } else if n == 62 {
        '+'
    } else {
        '/'
    }
}

/// A byte, or zero past the last one.
pub open spec fn byte_or_zero(data: Seq<u8>, i: int) -> int {
    if i < data.len() {
        data[i] as int
    } else {
        0
    }
}

/// The character at a place of a base64 text. Three bytes make four groups of six bits, and `=`
/// stands where a group has no bit of a byte.
pub open spec fn base64_char(data: Seq<u8>, at: int) -> char {
    let first = at / 4 * 3;
    let bits = byte_or_zero(data, first) * 65_536 + byte_or_zero(data, first + 1) * 256
        + byte_or_zero(data, first + 2);
    if at % 4 == 0 {
        sextet_char(bits / 262_144)
    } else if at % 4 == 1 {
        sextet_char((bits / 4_096) % 64)
    } else if at % 4 == 2 {
        if first + 1 < data.len() {
            sextet_char((bits / 64) % 64)
        } else {
            '='
        }
    } else if first + 2 < data.len() {
        sextet_char(bits % 64)
    } else {
        '='
    }
}

/// The base64 text of bytes, in the standard alphabet and padded.
pub open spec fn base64_text(data: Seq<u8>) -> Seq<char> {
    Seq::new((((data.len() + 2) / 3) * 4) as nat, |at: int| base64_char(data, at))
}

/// `base64::engine::general_purpose::STANDARD` encoding bytes: the standard alphabet, with padding.
/// It panics where the text is longer than memory can be; so many bytes are left out.
#[verifier::external_body]
fn encode_base64(data: &Vec<u8>) -> (r: String)
    requires
        data@.len() <= usize::MAX / 4,
    ensures
        r@ == base64_text(data@),
{
    base64::Engine::encode(&base64::engine::general_purpose::STANDARD, data)
}

/// A chart's image as text.
pub fn image_text(png: &Vec<u8>) -> (r: String)
    requires
        png@.len() <= usize::MAX / 4,
    ensures
        r@ == base64_text(png@),
{
    encode_base64(png)
}

} // verus!
