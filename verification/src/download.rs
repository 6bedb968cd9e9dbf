//! What a download is set to: the config, with what the command line overrides.
use vstd::prelude::*;

use crate::fwob_options::{validate_zstd_level, FwobOptions, ParsedTokens};
use crate::provider::ProviderKind;

verus! {

/// How the Interactive Brokers gateway is reached.
#[derive(Debug)]
pub struct IbkrConfig {
    pub host: String,
    pub port: u16,
    pub client_id: i32,
    /// Seconds to retry reconnects. -1 retries forever; 0 disables retries.
    pub reconnect_timeout_seconds: i64,
    /// Seconds a request may stall with no data. 0 disables stall detection.
    pub stall_timeout_seconds: u64,
}

/// What is downloaded, and at what pace.
#[derive(Debug)]
pub struct DownloadConfig {
    pub output_dir: String,
    pub provider: ProviderKind,
    pub start: Option<String>,
    pub end: Option<String>,
    pub use_rth: bool,
    pub parallelism: usize,
    pub request_interval_ms: u64,
    pub retry_interval_ms: u64,
    /// How often an in-progress download is committed to disk. -1 commits only at the end; 0 after
    /// every batch.
    pub commit_interval_seconds: i64,
    pub timezone: String,
}

/// A group of stocks that share an exchange.
#[derive(Debug)]
pub struct StockContractConfig {
    pub symbols: Vec<String>,
    pub currency: String,
    pub exchange: String,
    pub primary_exchange: Option<String>,
}

#[derive(Debug)]
pub struct Config {
    pub download: DownloadConfig,
    pub ibkr: IbkrConfig,
    pub stocks: Vec<StockContractConfig>,
}

impl Default for Config {
    fn default() -> (r: Self)
        ensures
            r.download.output_dir@ == "."@,
            r.download.provider == ProviderKind::Ibkr,
            r.download.start is None,
            r.download.end is None,
            !r.download.use_rth,
            r.download.parallelism == 4,
            r.download.request_interval_ms == 1_000,
            r.download.retry_interval_ms == 10_000,
            r.download.commit_interval_seconds == 60,
            r.download.timezone@ == "America/New_York"@,
            r.ibkr.host@ == "127.0.0.1"@,
            r.ibkr.port == 4_002,
            r.ibkr.client_id == 0,
            r.ibkr.reconnect_timeout_seconds == -1,
            r.ibkr.stall_timeout_seconds == 60,
            r.stocks@.len() == 0,
    {
        Config {
            download: DownloadConfig {
                output_dir: ".".to_owned(),
                provider: ProviderKind::Ibkr,
                start: None,
                end: None,
                use_rth: false,
                parallelism: 4,
                request_interval_ms: 1_000,
                retry_interval_ms: 10_000,
                commit_interval_seconds: 60,
                timezone: "America/New_York".to_owned(),
            },
            ibkr: IbkrConfig {
                host: "127.0.0.1".to_owned(),
                port: 4_002,
                client_id: 0,
                reconnect_timeout_seconds: -1,
                stall_timeout_seconds: 60,
            },
            stocks: Vec::new(),
        }
    }
}

/// The flags of `download`.
#[derive(Debug)]
pub struct DownloadArgs {
    pub output: Option<String>,
    pub host: Option<String>,
    pub port: Option<u16>,
    pub client_id: Option<i32>,
    pub reconnect_timeout_seconds: Option<i64>,
    pub stall_timeout_seconds: Option<u64>,
    pub primary_exchange: Option<String>,
    pub start: Option<String>,
    pub end: Option<String>,
    pub timezone: Option<String>,
    pub rth: bool,
    pub all_hours: bool,
    pub zstd_level: Option<i32>,
    pub parallelism: Option<usize>,
    pub request_interval_ms: Option<u64>,
    pub retry_interval_ms: Option<u64>,
    pub commit_interval_seconds: Option<i64>,
}

/// Why a download is refused before it starts.
#[derive(Debug, Clone, Copy, PartialEq, Eq, Structural)]
pub enum DownloadError {
    /// The regular hours and all hours exclude each other.
    BothHours,
    /// At least one symbol has to be processed at a time.
    NoParallelism,
    /// The zstd level is out of range.
    BadZstdLevel,
    /// Neither a config nor a symbol is given.
    SymbolsRequired,
}

/// A download, settled.
#[derive(Debug)]
pub struct DownloadPlan {
    pub config: Config,
    pub fwob: FwobOptions,
    /// The only symbols of the config to take; `None` for all of them.
    pub only: Option<Vec<String>>,
}

/// What is given, else what is configured.
pub open spec fn given_or<T>(given: Option<T>, configured: T) -> T {
    match given {
        Some(value) => value,
        None => configured,
    }
}

/// What is given, else what is configured, where that is optional too.
pub open spec fn given_or_else<T>(given: Option<T>, configured: Option<T>) -> Option<T> {
    match given {
        Some(value) => Some(value),
        None => configured,
    }
}

fn pick<T>(given: Option<T>, configured: T) -> (r: T)
    ensures
        r == given_or(given, configured),
{
    match given {
        Some(value) => value,
        None => configured,
    }
}

fn pick_else<T>(given: Option<T>, configured: Option<T>) -> (r: Option<T>)
    ensures
        r == given_or_else(given, configured),
{
    match given {
        Some(value) => Some(value),
        None => configured,
    }
}

/// The writer options in force: a level given counts as tuning the writer.
pub open spec fn writer_options(level: Option<i32>, options: FwobOptions) -> FwobOptions {
    match level {
        Some(level) => FwobOptions { zstd_level: level, explicit_v2_options: true, ..options },
        None => options,
    }
}

/// Whether download settings are the config's, overridden by what is given.
pub open spec fn downloads(
    r: DownloadConfig,
    args: DownloadArgs,
    provider: Option<ProviderKind>,
    config: DownloadConfig,
) -> bool {
    &&& r.output_dir == given_or(args.output, config.output_dir)
    &&& r.provider == given_or(provider, config.provider)
    &&& r.start == given_or_else(args.start, config.start)
    &&& r.end == given_or_else(args.end, config.end)
    &&& r.use_rth == (if args.rth {
        true
    } else if args.all_hours {
        false
    } else {
        config.use_rth
    })
    &&& r.parallelism == given_or(args.parallelism, config.parallelism)
    &&& r.request_interval_ms == given_or(args.request_interval_ms, config.request_interval_ms)
    &&& r.retry_interval_ms == given_or(args.retry_interval_ms, config.retry_interval_ms)
    &&& r.commit_interval_seconds == given_or(
        args.commit_interval_seconds,
        config.commit_interval_seconds,
    )
    &&& r.timezone == given_or(args.timezone, config.timezone)
}

/// Whether gateway settings are the config's, overridden by what is given.
pub open spec fn connects(r: IbkrConfig, args: DownloadArgs, config: IbkrConfig) -> bool {
    &&& r.host == given_or(args.host, config.host)
    &&& r.port == given_or(args.port, config.port)
    &&& r.client_id == given_or(args.client_id, config.client_id)
    &&& r.reconnect_timeout_seconds == given_or(
        args.reconnect_timeout_seconds,
        config.reconnect_timeout_seconds,
    )
    &&& r.stall_timeout_seconds == given_or(
        args.stall_timeout_seconds,
        config.stall_timeout_seconds,
    )
}

/// Whether the stocks and the selection of a plan are what a config and symbols settle: without a
/// config the symbols are the stocks; with one they choose among its stocks.
pub open spec fn selects(
    plan: DownloadPlan,
    args: DownloadArgs,
    symbols: Vec<String>,
    from_config: bool,
    stocks: Seq<StockContractConfig>,
) -> bool {
    if !from_config {
        &&& plan.only is None
        &&& plan.config.stocks@.len() == stocks.len() + 1
        &&& plan.config.stocks@.drop_last() == stocks
        &&& plan.config.stocks@.last().symbols == symbols
        &&& plan.config.stocks@.last().currency@ == "USD"@
        &&& plan.config.stocks@.last().exchange@ == "SMART"@
        &&& plan.config.stocks@.last().primary_exchange == args.primary_exchange
    } else {
        &&& plan.config.stocks@ == stocks
        &&& plan.only == (if symbols@.len() == 0 {
            None
        } else {
            Some(symbols)
        })
    }
}

/// What is wrong with a download, if anything.
pub open spec fn refusal(args: DownloadArgs, symbols: nat, from_config: bool) -> Option<
    DownloadError,
> {
    if args.rth && args.all_hours {
        Some(DownloadError::BothHours)
    } else if args.parallelism == Some(0usize) {
        Some(DownloadError::NoParallelism)
    } else if args.zstd_level matches Some(level) && !(1 <= level <= 22) {
        Some(DownloadError::BadZstdLevel)
    } else if !from_config && symbols == 0 {
        Some(DownloadError::SymbolsRequired)
    } else {
        None
    }
}

/// Settles a download from its flags, its tokens and its config, which is the default one where
/// none was read from a file.
pub fn plan_download(
    args: DownloadArgs,
    parsed: ParsedTokens,
    from_config: bool,
    config: Config,
) -> (r: Result<DownloadPlan, DownloadError>)
    ensures
        match refusal(args, parsed.symbols@.len(), from_config) {
            Some(e) => r == Err::<DownloadPlan, DownloadError>(e),
            None => r matches Ok(plan) && {
                &&& downloads(plan.config.download, args, parsed.provider, config.download)
                &&& connects(plan.config.ibkr, args, config.ibkr)
                &&& plan.fwob == writer_options(args.zstd_level, parsed.options)
                &&& selects(plan, args, parsed.symbols, from_config, config.stocks@)
            },
        },
{
    if args.rth && args.all_hours {
        return Err(DownloadError::BothHours);
    }
    if let Some(parallelism) = args.parallelism {
        if parallelism == 0 {
            return Err(DownloadError::NoParallelism);
        }
    }
    let mut fwob = parsed.options;
    if let Some(level) = args.zstd_level {
        if validate_zstd_level(level).is_err() {
            return Err(DownloadError::BadZstdLevel);
        }
        fwob.zstd_level = level;
        fwob.explicit_v2_options = true;
    }
    if !from_config && parsed.symbols.len() == 0 {
        return Err(DownloadError::SymbolsRequired);
    }
    let download = DownloadConfig {
        output_dir: pick(args.output, config.download.output_dir),
        provider: pick(parsed.provider, config.download.provider),
        start: pick_else(args.start, config.download.start),
        end: pick_else(args.end, config.download.end),
        use_rth: if args.rth {
            true
        } else if args.all_hours {
            false
        } else {
            config.download.use_rth
        },
        parallelism: pick(args.parallelism, config.download.parallelism),
        request_interval_ms: pick(args.request_interval_ms, config.download.request_interval_ms),
        retry_interval_ms: pick(args.retry_interval_ms, config.download.retry_interval_ms),
        commit_interval_seconds: pick(
            args.commit_interval_seconds,
            config.download.commit_interval_seconds,
        ),
        timezone: pick(args.timezone, config.download.timezone),
    };
    let ibkr = IbkrConfig {
        host: pick(args.host, config.ibkr.host),
        port: pick(args.port, config.ibkr.port),
        client_id: pick(args.client_id, config.ibkr.client_id),
        reconnect_timeout_seconds: pick(
            args.reconnect_timeout_seconds,
            config.ibkr.reconnect_timeout_seconds,
        ),
        stall_timeout_seconds: pick(args.stall_timeout_seconds, config.ibkr.stall_timeout_seconds),
    };
    let mut stocks = config.stocks;
    let ghost configured = stocks@;
    let mut only: Option<Vec<String>> = None;
    if !from_config {
        let group = StockContractConfig {
            symbols: parsed.symbols,
            currency: "USD".to_owned(),
            exchange: "SMART".to_owned(),
            primary_exchange: args.primary_exchange,
        };
        stocks.push(group);
        assert(stocks@.drop_last() =~= configured);
    } else if parsed.symbols.len() > 0 {
        only = Some(parsed.symbols);
    }
    Ok(DownloadPlan { config: Config { download, ibkr, stocks }, fwob, only })
}

/// Whether a config's symbol is among those that a download was narrowed to.
pub open spec fn taken(only: Option<Vec<String>>, symbol: Seq<char>) -> bool {
    match only {
        None => true,
        Some(names) => named(names@, symbol),
    }
}

pub open spec fn named(names: Seq<String>, symbol: Seq<char>) -> bool {
    exists|i: int| 0 <= i < names.len() && (#[trigger] names[i])@ == symbol
}

impl DownloadPlan {
    /// Whether a symbol of the config is to be downloaded.
    pub fn takes(&self, symbol: &str) -> (r: bool)
        ensures
            r == taken(self.only, symbol@),
    {
        match &self.only {
            None => true,
            Some(names) => {
                let mut i: usize = 0;
                while i < names.len()
                    invariant
                        self.only == Some(*names),
                        i <= names@.len(),
                        forall|j: int| 0 <= j < i ==> (#[trigger] names@[j])@ != symbol@,
                    decreases names@.len() - i,
                {
                    if crate::text::same(names[i].as_str(), symbol) {
                        assert(names@[i as int]@ == symbol@);
                        assert(named(names@, symbol@));
                        return true;
                    }
                    i += 1;
                }
                false
            },
        }
    }
}

/// Whether a recoverable failure is retried, so many seconds after the first one: always under a
/// negative budget, never under a budget of zero, else while the budget lasts.
pub fn may_retry(reconnect_timeout_seconds: i64, elapsed_seconds: u64) -> (r: bool)
    ensures
        r <==> reconnect_timeout_seconds < 0 || elapsed_seconds < reconnect_timeout_seconds,
{
    reconnect_timeout_seconds < 0 || elapsed_seconds < reconnect_timeout_seconds as u64
}

/// Whether what came in is committed now, so many seconds after the last commit: never before the
/// end under a negative interval, after every batch under an interval of zero, else at most that
/// often.
pub fn commit_due(commit_interval_seconds: i64, elapsed_seconds: u64) -> (r: bool)
    ensures
        r <==> commit_interval_seconds >= 0 && elapsed_seconds >= commit_interval_seconds,
{
    commit_interval_seconds >= 0 && elapsed_seconds >= commit_interval_seconds as u64
}

/// The second a download resumes at: the one after the last stored tick, since a stored second is
/// complete; `None` past the last second a file can hold.
pub fn resume_at(last: u32) -> (r: Option<u32>)
    ensures
        r == (if last < u32::MAX {
            Some((last + 1) as u32)
        } else {
            None::<u32>
        }),
{
    last.checked_add(1)
}

} // verus!
