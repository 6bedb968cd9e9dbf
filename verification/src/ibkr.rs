//! Recovering from what goes wrong between a download and the Interactive Brokers gateway.
//!
//! The requests themselves are made elsewhere. What is decided here is what a notice means, when a
//! request that waits is given up, what a failure is answered with, and which client is current.
use vstd::prelude::*;

use crate::provider::RecoveryAction;
use crate::text::to_decimal;

verus! {

/// How long one wait inside a historical request lasts, in milliseconds, before cancellation and
/// connectivity are looked at again.
pub const POLL_INTERVAL_MS: u128 = 1_000;

/// Whether a system code reports that connectivity is back.
pub open spec fn restores(code: int) -> bool {
    code == 1_101 || code == 1_102
}

/// True for IBKR "connectivity restored" system codes (1101 = restored, data lost; 1102 =
/// restored, data maintained). A request in flight across one of these was orphaned by TWS.
pub fn is_connectivity_restore(code: i32) -> (r: bool)
    ensures
        r == restores(code as int),
{
    code == 1_101 || code == 1_102
}

/// True for IBKR notice codes that report a transient competing-session takeover rather than a
/// fatal request error. 10187 is "Trading TWS session is connected from a different IP address",
/// returned when the same account signs in elsewhere; the condition clears on its own once the
/// other session ends, so the request must be retried from the unchanged cursor rather than the
/// symbol abandoned.
pub fn is_competing_session_notice(code: i32) -> (r: bool)
    ensures
        r == (code == 10_187),
{
    code == 10_187
}

/// The connectivity epoch after a notice: it advances on every restore, and on nothing else.
pub fn epoch_after(epoch: u64, code: i32) -> (r: u64)
    ensures
        restores(code as int) ==> r != epoch && r == (epoch + 1) % 0x1_0000_0000_0000_0000,
        !restores(code as int) ==> r == epoch,
{
    if is_connectivity_restore(code) {
        if epoch == u64::MAX {
            0
        } else {
            epoch + 1
        }
    } else {
        epoch
    }
}

/// How long a request may make no progress, in seconds; zero turns stall detection off.
pub fn stall_timeout(seconds: u64) -> (r: Option<u64>)
    ensures
        r == if seconds == 0 {
            None
        } else {
            Some(seconds)
        },
{
    if seconds == 0 {
        None
    } else {
        Some(seconds)
    }
}

// ---- failures ---------------------------------------------------------------------------

/// What kind of I/O error a socket reported.
#[derive(Debug, Clone, Copy, PartialEq, Eq, Structural)]
pub enum SocketError {
    ConnectionReset,
    ConnectionAborted,
    BrokenPipe,
    UnexpectedEof,
    NotConnected,
    ConnectionRefused,
    /// Any other kind.
    Other,
}

/// True for I/O error kinds that mean the TWS/Gateway socket was lost and a fresh client
/// connection is required: e.g. Windows `os error 10053` (`ConnectionAborted`) or an
/// `UnexpectedEof` ("failed to fill whole buffer") while reading the next message.
pub fn is_connection_loss(error: SocketError) -> (r: bool)
    ensures
        r == (error != SocketError::Other),
{
    match error {
        SocketError::Other => false,
        _ => true,
    }
}

/// What the gateway's client reported.
#[derive(Debug, Clone, Copy, PartialEq, Eq, Structural)]
pub enum ApiError {
    ConnectionReset,
    ConnectionFailed,
    Shutdown,
    /// A notice, by its code.
    Notice(i32),
    Socket(SocketError),
    /// Anything else.
    Other,
}

/// Why a historical-ticks request failed.
#[derive(Debug, Clone, Copy, PartialEq, Eq, Structural)]
pub enum IbkrFailure {
    /// An error of the gateway's client.
    Api(ApiError),
    /// The request was in flight across a TWS<->IBKR connectivity blip and was silently dropped by
    /// TWS; it must be re-issued from the unchanged cursor.
    Orphaned,
    /// The request made no progress for the configured stall window (carried here, in seconds): no
    /// data, no notice, no completion, and no connectivity-restore signal.
    Stalled(u64),
    /// Cancellation was requested while the request was waiting.
    Canceled,
}

/// A failure, paired with the client generation it ran against.
#[derive(Debug, Clone, Copy, PartialEq, Eq, Structural)]
pub struct IbkrRequestError {
    pub failure: IbkrFailure,
    pub generation: u64,
}

/// What a failure is answered with.
pub open spec fn recovery(error: IbkrRequestError) -> Option<RecoveryAction> {
    match error.failure {
        IbkrFailure::Orphaned | IbkrFailure::Stalled(_) => Some(RecoveryAction::Retry),
        IbkrFailure::Canceled => None,
        IbkrFailure::Api(api) => match api {
            ApiError::ConnectionReset => Some(RecoveryAction::Retry),
            ApiError::Notice(code) => if code == 10_187 {
                Some(RecoveryAction::Retry)
            } else {
                None
            },
            ApiError::ConnectionFailed | ApiError::Shutdown => Some(
                RecoveryAction::Reconnect { generation: error.generation },
            ),
            ApiError::Socket(socket) => if socket != SocketError::Other {
                Some(RecoveryAction::Reconnect { generation: error.generation })
            } else {
                None
            },
            ApiError::Other => None,
        },
    }
}

/// Maps a request failure to the downloader's recovery action.
///
/// A competing-session takeover is transient and clears when the other session ends: retry from the
/// unchanged cursor — without rebuilding the client — instead of abandoning the symbol. A stalled
/// request is re-issued on the *existing* client too: the socket is typically still alive, and a
/// reconnect with the same client id would only collide with itself. A dropped socket rebuilds the
/// client.
pub fn classify_recovery(error: &IbkrRequestError) -> (r: Option<RecoveryAction>)
    ensures
        r == recovery(*error),
{
    match error.failure {
        IbkrFailure::Orphaned => Some(RecoveryAction::Retry),
        IbkrFailure::Stalled(_) => Some(RecoveryAction::Retry),
        IbkrFailure::Canceled => None,
        IbkrFailure::Api(api) => match api {
            ApiError::ConnectionReset => Some(RecoveryAction::Retry),
            ApiError::Notice(code) => if is_competing_session_notice(code) {
                Some(RecoveryAction::Retry)
            } else {
                None
            },
            ApiError::ConnectionFailed => Some(
                RecoveryAction::Reconnect { generation: error.generation },
            ),
            ApiError::Shutdown => Some(RecoveryAction::Reconnect { generation: error.generation }),
            ApiError::Socket(socket) => if is_connection_loss(socket) {
                Some(RecoveryAction::Reconnect { generation: error.generation })
            } else {
                None
            },
            ApiError::Other => None,
        },
    }
}

/// A stalled request never rebuilds the client, and a rebuild always names the generation that the
/// request ran against.
pub proof fn recovery_never_collides(error: IbkrRequestError)
    ensures
        error.failure is Stalled ==> recovery(error) == Some(RecoveryAction::Retry),
        recovery(error) matches Some(RecoveryAction::Reconnect { generation }) ==> generation
            == error.generation && error.failure is Api,
{
}

/// What is said of a failure; of an error of the client, what the client says itself.
pub open spec fn failure_text(failure: IbkrFailure, said: Seq<char>) -> Seq<char> {
    match failure {
        IbkrFailure::Api(_) => said,
        IbkrFailure::Orphaned => "request orphaned by an IBKR connectivity loss"@,
        IbkrFailure::Stalled(seconds) => "request stalled with no response from IBKR for "@
            + crate::text::decimal(seconds as nat) + "s"@,
        IbkrFailure::Canceled => "request canceled"@,
    }
}

impl IbkrRequestError {
    /// What is said of the failure, given what the client said where it is the client's.
    pub fn message(&self, said: &str) -> (r: String)
        ensures
            r@ == failure_text(self.failure, said@),
    {
        match self.failure {
            IbkrFailure::Api(_) => said.to_owned(),
            IbkrFailure::Orphaned => "request orphaned by an IBKR connectivity loss".to_owned(),
            IbkrFailure::Stalled(seconds) => {
                let mut out = "request stalled with no response from IBKR for ".to_owned();
                out.append(to_decimal(seconds as u128).as_str());
                out.append("s");
                out
            },
            IbkrFailure::Canceled => "request canceled".to_owned(),
        }
    }
}

// ---- one request --------------------------------------------------------------------------

/// A wait that brought no message.
#[derive(Debug, Clone, Copy, PartialEq, Eq, Structural)]
pub struct Silence {
    /// How long this wait lasted.
    pub waited_ms: u128,
    /// How long ago the last message came.
    pub idle_ms: u128,
    /// Whether cancellation was requested.
    pub canceled: bool,
    /// The connectivity epoch now.
    pub epoch: u64,
}

/// What a wait inside a request brought.
pub enum Event<T> {
    Data(T),
    Notice,
    Failed(ApiError),
    Silence(Silence),
}

/// What comes of a wait.
pub enum Step<T> {
    /// Go on waiting; a message counts as progress.
    Wait(Collector<T>, bool),
    /// The request is complete.
    Done(Vec<T>),
    Failed(IbkrRequestError),
}

/// What a wait without a message means. The client returns at once where the stream has ended, so a
/// short one means that the request is complete.
pub open spec fn silence_means(
    silence: Silence,
    start_epoch: u64,
    stall: Option<u64>,
) -> Option<Result<(), IbkrFailure>> {
    if silence.waited_ms < 500 {
        Some(Ok(()))
    } else if silence.canceled {
        Some(Err(IbkrFailure::Canceled))
    } else if silence.epoch != start_epoch {
        Some(Err(IbkrFailure::Orphaned))
    } else if stall matches Some(seconds) && silence.idle_ms >= seconds * 1_000 {
        Some(Err(IbkrFailure::Stalled(stall->0)))
    } else {
        None
    }
}

/// Collects the data of one historical request.
#[derive(Debug)]
pub struct Collector<T> {
    generation: u64,
    start_epoch: u64,
    stall: Option<u64>,
    data: Vec<T>,
}

impl<T> Collector<T> {
    /// What came in so far.
    pub closed spec fn collected(&self) -> Seq<T> {
        self.data@
    }

    pub closed spec fn runs_against(&self) -> u64 {
        self.generation
    }

    pub closed spec fn began_in(&self) -> u64 {
        self.start_epoch
    }

    pub closed spec fn stalls_after(&self) -> Option<u64> {
        self.stall
    }

    pub open spec fn same_request(&self, other: &Collector<T>) -> bool {
        &&& self.runs_against() == other.runs_against()
        &&& self.began_in() == other.began_in()
        &&& self.stalls_after() == other.stalls_after()
    }

    /// A request against a client generation, begun in a connectivity epoch.
    pub fn new(generation: u64, start_epoch: u64, stall: Option<u64>) -> (r: Self)
        ensures
            r.collected() == Seq::<T>::empty(),
            r.runs_against() == generation,
            r.began_in() == start_epoch,
            r.stalls_after() == stall,
    {
        Collector { generation, start_epoch, stall, data: Vec::new() }
    }

    /// What comes of one wait.
    pub fn step(self, event: Event<T>) -> (r: Step<T>)
        ensures
            match event {
                Event::Data(item) => r matches Step::Wait(next, true) && next.same_request(&self)
                    && next.collected() == self.collected().push(item),
                Event::Notice => r == Step::Wait(self, true),
                Event::Failed(error) => r == Step::<T>::Failed(
                    IbkrRequestError {
                        failure: IbkrFailure::Api(error),
                        generation: self.runs_against(),
                    },
                ),
                Event::Silence(silence) => match silence_means(
                    silence,
                    self.began_in(),
                    self.stalls_after(),
                ) {
                    None => r == Step::Wait(self, false),
                    Some(Ok(_)) => r matches Step::Done(data) && data@ == self.collected(),
                    Some(Err(failure)) => r == Step::<T>::Failed(
                        IbkrRequestError { failure, generation: self.runs_against() },
                    ),
                },
            },
    {
        match event {
            Event::Data(item) => {
                let mut data = self.data;
                data.push(item);
                Step::Wait(
                    Collector {
                        generation: self.generation,
                        start_epoch: self.start_epoch,
                        stall: self.stall,
                        data,
                    },
                    true,
                )
            },
            Event::Notice => Step::Wait(self, true),
            Event::Failed(error) => Step::Failed(
                IbkrRequestError { failure: IbkrFailure::Api(error), generation: self.generation },
            ),
            Event::Silence(silence) => {
                if silence.waited_ms < POLL_INTERVAL_MS / 2 {
                    return Step::Done(self.data);
                }
                if silence.canceled {
                    return Step::Failed(
                        IbkrRequestError {
                            failure: IbkrFailure::Canceled,
                            generation: self.generation,
                        },
                    );
                }
                if silence.epoch != self.start_epoch {
                    return Step::Failed(
                        IbkrRequestError {
                            failure: IbkrFailure::Orphaned,
                            generation: self.generation,
                        },
                    );
                }
                if let Some(seconds) = self.stall {
                    if silence.idle_ms >= seconds as u128 * 1_000 {
                        return Step::Failed(
                            IbkrRequestError {
                                failure: IbkrFailure::Stalled(seconds),
                                generation: self.generation,
                            },
                        );
                    }
                }
                Step::Wait(self, false)
            },
        }
    }
}

/// A request that is merely slow is never given up: where the wait is not short, nothing was
/// canceled, the epoch stands and a message came within the stall window, it goes on.
pub proof fn slow_requests_go_on(silence: Silence, start_epoch: u64, stall: Option<u64>)
    requires
        silence.waited_ms >= 500,
        !silence.canceled,
        silence.epoch == start_epoch,
        stall matches Some(seconds) ==> silence.idle_ms < seconds * 1_000,
    ensures
        silence_means(silence, start_epoch, stall) is None,
{
}

// ---- the current client ---------------------------------------------------------------------

/// The generation after an attempt to replace the client of an observed one.
pub open spec fn generation_after(generation: u64, observed: u64) -> u64 {
    if generation == observed {
        if generation == u64::MAX {
            0
        } else {
            (generation + 1) as u64
        }
    } else {
        generation
    }
}

/// The current client, and how often it has been replaced.
#[derive(Debug)]
pub struct ClientSlot<T> {
    value: T,
    generation: u64,
}

impl<T> ClientSlot<T> {
    pub closed spec fn client(&self) -> T {
        self.value
    }

    pub closed spec fn current(&self) -> u64 {
        self.generation
    }

    pub fn new(value: T) -> (r: Self)
        ensures
            r.client() == value,
            r.current() == 0,
    {
        ClientSlot { value, generation: 0 }
    }

    /// The client and its generation.
    pub fn snapshot(&self) -> (r: (&T, u64))
        ensures
            *r.0 == self.client(),
            r.1 == self.current(),
    {
        (&self.value, self.generation)
    }

    /// Whether the client of a generation is still the current one, and so has to be replaced.
    pub fn needs_replacement(&self, observed: u64) -> (r: bool)
        ensures
            r == (self.current() == observed),
    {
        self.generation == observed
    }

    /// Replaces the client where it is still that of the observed generation; one that has been
    /// replaced already stays.
    pub fn replace_if_generation(self, observed: u64, replacement: T) -> (r: Self)
        ensures
            r.current() == generation_after(self.current(), observed),
            r.client() == (if self.current() == observed {
                replacement
            } else {
                self.client()
            }),
    {
        if self.generation == observed {
            let generation: u64 = if observed == u64::MAX {
                0
            } else {
                observed + 1
            };
            ClientSlot { value: replacement, generation }
        } else {
            self
        }
    }
}

/// The generation after several attempts on one observed generation.
pub open spec fn after_attempts(generation: u64, observed: u64, attempts: nat) -> u64
    decreases attempts,
{
    if attempts == 0 {
        generation
    } else {
        generation_after(after_attempts(generation, observed, (attempts - 1) as nat), observed)
    }
}

/// Several workers that saw the same client fail replace it once: the first attempt advances the
/// generation, and every later one leaves it.
pub proof fn one_generation_is_replaced_once(observed: u64, attempts: nat)
    requires
        attempts > 0,
    ensures
        after_attempts(observed, observed, attempts) == generation_after(observed, observed),
        generation_after(observed, observed) != observed,
    decreases attempts,
{
    if attempts == 1 {
        assert(after_attempts(observed, observed, 0) == observed);
    } else {
        one_generation_is_replaced_once(observed, (attempts - 1) as nat);
    }
}

} // verus!
