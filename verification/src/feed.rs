//! Streaming a symbol's bars, from whichever source is best.
//!
//! Two concerns live here that every consumer would otherwise rebuild:
//!
//! 1. **Assembly.** Turning files into bars is not one call — it is a format branch, a resampler, a
//!    forward-filler, and a rule for spanning several files of one symbol. Rebuilding that per
//!    consumer invites the copies to drift, and drift here surfaces as slightly-wrong prices rather
//!    than a failure.
//! 2. **Source choice.** A materialized sidecar is read in place of re-resampling ticks when one is
//!    present and current. That is an optimization, not a semantic difference, so callers should
//!    not have to know it happened — and must not be able to get it wrong.
//!
//! Adjustment is deliberately *not* here. A streaming consumer puts an
//! [`Adjuster`](crate::adjust::Adjuster) behind the pipeline; one that materializes the series calls
//! [`adjust_bars`](crate::adjust::adjust_bars) afterwards and gets total-return too.
use vstd::prelude::*;

use crate::civil::Zone;
use crate::interval::Interval;
use crate::model::{Bar, InputKind, Tick};
use crate::output::format_epoch_tz;
use crate::resample::{BarClock, BarResampler, ForwardFiller, Resampler};
use crate::session::Session;

verus! {

/// What bounds a scan: inclusive times, and a session that rows have to fall within.
#[derive(Debug)]
pub struct TickQuery {
    pub start: Option<u32>,
    pub end: Option<u32>,
    pub session: Option<Session>,
}

/// Whether a scan takes a row in.
pub open spec fn in_query(
    start: Option<u32>,
    end: Option<u32>,
    session: Option<crate::session::SessionModel>,
    time: int,
) -> bool {
    &&& start matches Some(t) ==> t <= time
    &&& end matches Some(t) ==> time <= t
    &&& session matches Some(s) ==> s.holds(time)
}

pub open spec fn session_model(session: Option<Session>) -> Option<crate::session::SessionModel> {
    match session {
        Some(session) => Some(session@),
        None => None,
    }
}

impl TickQuery {
    /// Whether the scan takes a row in.
    pub fn admits(&self, time: u32) -> (r: bool)
        ensures
            r == in_query(self.start, self.end, session_model(self.session), time as int),
    {
        if let Some(start) = self.start {
            if time < start {
                return false;
            }
        }
        if let Some(end) = self.end {
            if time > end {
                return false;
            }
        }
        match &self.session {
            Some(session) => session.contains(time),
            None => true,
        }
    }

    /// The same bounds for bars, which have been bucketed under a session already: no row filter.
    pub fn without_session(&self) -> (r: TickQuery)
        ensures
            r.start == self.start,
            r.end == self.end,
            r.session is None,
    {
        TickQuery { start: self.start, end: self.end, session: None }
    }
}

/// One symbol's sources are of different kinds: the first that differs from those before it.
#[derive(Debug, Clone, Copy, PartialEq, Eq, Structural)]
pub struct MixedSources {
    pub index: usize,
}

/// The kind that every source shares, or the first source that differs.
pub open spec fn shared_kind(kinds: Seq<InputKind>) -> Result<Option<InputKind>, MixedSources>
    decreases kinds.len(),
{
    if kinds.len() == 0 {
        Ok(None)
    } else {
        match shared_kind(kinds.drop_last()) {
            Err(e) => Err(e),
            Ok(None) => Ok(Some(kinds.last())),
            Ok(Some(kind)) => if kinds.last() != kind {
                Err(MixedSources { index: (kinds.len() - 1) as usize })
            } else {
                Ok(Some(kind))
            },
        }
    }
}

proof fn lemma_mixed_stays(kinds: Seq<InputKind>, k: int)
    requires
        0 <= k <= kinds.len(),
        shared_kind(kinds.take(k)) is Err,
    ensures
        shared_kind(kinds) == shared_kind(kinds.take(k)),
    decreases kinds.len(),
{
    if k == kinds.len() {
        assert(kinds.take(k) =~= kinds);
    } else {
        assert(kinds.drop_last().take(k) =~= kinds.take(k));
        lemma_mixed_stays(kinds.drop_last(), k);
    }
}

/// The kind every source of one symbol shares, or `None` when there are no sources.
///
/// Mixing is refused rather than resolved: a symbol backed by both ticks and bars would have two
/// different notions of what a timestamp means, and no single query can be right for both.
pub fn sources_kind(kinds: &[InputKind]) -> (r: Result<Option<InputKind>, MixedSources>)
    ensures
        r == shared_kind(kinds@),
{
    let mut kind: Option<InputKind> = None;
    let mut i: usize = 0;
    while i < kinds.len()
        invariant
            i <= kinds.len(),
            shared_kind(kinds@.take(i as int)) == Ok::<Option<InputKind>, MixedSources>(kind),
        decreases kinds.len() - i,
    {
        let this = kinds[i];
        proof {
            assert(kinds@.take(i + 1).drop_last() =~= kinds@.take(i as int));
            assert(kinds@.take(i + 1).last() == this);
            if shared_kind(kinds@.take(i + 1)) is Err {
                lemma_mixed_stays(kinds@, i + 1);
            }
        }
        if let Some(existing) = kind {
            if existing != this {
                return Err(MixedSources { index: i });
            }
        }
        kind = Some(this);
        i += 1;
    }
    assert(kinds@.take(i as int) =~= kinds@);
    Ok(kind)
}

/// The session as a tick **row filter**, which is `Some` only when the sources are ticks.
///
/// A tick carries an instant, so an out-of-hours print has to be dropped. A bar carries its
/// *bucket-start* timestamp — local midnight for a daily bar, outside every intraday window — so
/// applying the same filter to it discards the entire file and reports an empty archive. Worse, it
/// discards it *selectively*: a 1-minute bar file survives, because those timestamps do fall inside
/// the session, so the mistake looks correct until someone reads a daily file.
///
/// Any caller assembling a [`TickQuery`] by hand should get the `session` field from here rather
/// than from `use_rth` alone. [`request_bars`] does this internally.
pub fn session_row_filter(kinds: &[InputKind], use_rth: bool, session: &Session) -> (r: Result<
    Option<Session>,
    MixedSources,
>)
    ensures
        !use_rth ==> r == Ok::<Option<Session>, MixedSources>(None),
        use_rth ==> match shared_kind(kinds@) {
            Err(e) => r == Err::<Option<Session>, MixedSources>(e),
            Ok(Some(InputKind::Tick)) => r matches Ok(Some(filter)) && filter@ == session@,
            Ok(_) => r == Ok::<Option<Session>, MixedSources>(None),
        },
{
    if !use_rth {
        return Ok(None);
    }
    match sources_kind(kinds) {
        Err(e) => Err(e),
        Ok(Some(InputKind::Tick)) => Ok(Some(session.copy())),
        Ok(_) => Ok(None),
    }
}

// ---- the pipeline ----------------------------------------------------------------------

#[derive(Debug, Clone, Copy, PartialEq, Eq, Structural)]
pub enum PipelineError {
    /// An interval is required to bucket a tick source.
    IntervalRequired,
    /// The interval is more than a calendar can step by.
    IntervalTooLong,
}

/// How a pipeline turns rows into bars.
pub enum Making {
    /// Bars pass straight through, at their stored resolution.
    Passing,
    /// Ticks are resampled.
    FromTicks,
    /// Bars are resampled.
    FromBars,
}

pub(crate) enum Engine {
    Pass,
    Ticks(Resampler),
    Bars(BarResampler),
}

/// Turns a symbol's rows into bars as each bucket closes.
///
/// Every source feeds **one** pipeline, so several files of a symbol form a single ascending stream
/// and a bucket spanning a file boundary closes once with the right OHLC — resampling each file
/// separately would split it into two half-buckets and double the trade count at every seam.
pub struct BarPipeline {
    engine: Engine,
    filler: Option<ForwardFiller>,
    ticks: Ghost<Seq<Tick>>,
    bars: Ghost<Seq<Bar>>,
    sent: Ghost<Seq<Bar>>,
}

/// The items of a pipeline.
pub open spec fn pipeline_items(making: Making, ticks: Seq<Tick>, bars: Seq<Bar>) -> Seq<
    crate::aggregate::Agg,
> {
    match making {
        Making::FromTicks => crate::resample::tick_aggs(ticks),
        _ => crate::resample::bar_aggs(bars),
    }
}

impl BarPipeline {
    pub closed spec fn making(&self) -> Making {
        match self.engine {
            Engine::Pass => Making::Passing,
            Engine::Ticks(_) => Making::FromTicks,
            Engine::Bars(_) => Making::FromBars,
        }
    }

    /// The ticks taken in so far.
    pub closed spec fn ticks_in(&self) -> Seq<Tick> {
        self.ticks@
    }

    /// The bars taken in so far.
    pub closed spec fn bars_in(&self) -> Seq<Bar> {
        self.bars@
    }

    /// The bars handed out so far.
    pub closed spec fn bars_out(&self) -> Seq<Bar> {
        self.sent@
    }

    pub closed spec fn clock(&self) -> crate::resample::ClockModel {
        self.filler->0.on_clock()
    }

    pub closed spec fn step_by(&self) -> Interval {
        self.filler->0.step_by()
    }

    pub closed spec fn fills(&self) -> bool {
        self.filler->0.fills()
    }

    /// What the resampler has open.
    pub closed spec fn state(&self) -> crate::resample::RunState {
        match self.engine {
            Engine::Pass => crate::resample_laws::fresh(),
            Engine::Ticks(r) => r.state(),
            Engine::Bars(r) => r.state(),
        }
    }

    /// All that is to come of the rows taken in so far: the rows themselves, or their bars with the
    /// gaps filled where that is asked for.
    pub open spec fn due(&self) -> Seq<Bar> {
        match self.making() {
            Making::Passing => self.bars_in(),
            _ => crate::resample::delivered(
                self.clock(),
                self.step_by().anchoring(),
                self.fills(),
                crate::resample::bars_of(
                    self.clock(),
                    self.step_by().anchoring(),
                    pipeline_items(self.making(), self.ticks_in(), self.bars_in()),
                ),
            ),
        }
    }

    /// What has come out of the rows taken in so far: the rows themselves, or the bars whose buckets
    /// they have closed, with the gaps filled where that is asked for.
    pub open spec fn come_out(&self) -> Seq<Bar> {
        match self.making() {
            Making::Passing => self.bars_in(),
            _ => crate::resample::delivered(
                self.clock(),
                self.step_by().anchoring(),
                self.fills(),
                crate::resample_laws::feed(
                    self.clock(),
                    self.step_by().anchoring(),
                    crate::resample_laws::fresh(),
                    pipeline_items(self.making(), self.ticks_in(), self.bars_in()),
                ).1,
            ),
        }
    }

    pub closed spec fn valid(&self) -> bool {
        match self.engine {
            Engine::Pass => self.sent@ == self.bars@,
            _ => {
                let g = self.step_by().anchoring();
                let items = pipeline_items(self.making(), self.ticks@, self.bars@);
                let (state, closed) = crate::resample_laws::feed(
                    self.clock(),
                    g,
                    crate::resample_laws::fresh(),
                    items,
                );
                &&& self.filler is Some
                &&& crate::resample::steppable(self.step_by())
                &&& match self.engine {
                    Engine::Ticks(r) => r.step_by() == self.step_by() && r.on_clock()
                        == self.clock(),
                    Engine::Bars(r) => r.step_by() == self.step_by() && r.on_clock()
                        == self.clock(),
                    Engine::Pass => true,
                }
                &&& self.state() == state
                &&& self.filler->0.last() == (if self.fills() && closed.len() > 0 {
                    Some(closed.last())
                } else {
                    None
                })
                &&& self.sent@ == crate::resample::delivered(
                    self.clock(),
                    g,
                    self.fills(),
                    closed,
                )
            },
        }
    }

    /// A pipeline for sources of a kind, or for none. Without an interval a bar source keeps its
    /// stored resolution; a tick source has no resolution of its own and is refused.
    pub fn new(
        kind: Option<InputKind>,
        interval: Option<Interval>,
        clock: &BarClock,
        fill: bool,
    ) -> (r: Result<BarPipeline, PipelineError>)
        ensures
            match interval {
                None => if kind == Some(InputKind::Tick) {
                    r matches Err(e) && e is IntervalRequired
                } else {
                    r matches Ok(p) && p.making() is Passing
                },
                Some(interval) => if !crate::resample::steppable(interval) {
                    r matches Err(e) && e is IntervalTooLong
                } else {
                    r matches Ok(p) && p.clock() == clock@ && p.step_by() == interval && p.fills()
                        == fill && (if kind == Some(InputKind::Bar) {
                        p.making() is FromBars
                    } else {
                        p.making() is FromTicks
                    })
                },
            },
            r matches Ok(p) ==> p.valid() && p.ticks_in() == Seq::<Tick>::empty() && p.bars_in()
                == Seq::<Bar>::empty() && p.bars_out() == Seq::<Bar>::empty() && p.state()
                == crate::resample_laws::fresh(),
    {
        let bar_source = match kind {
            Some(InputKind::Bar) => true,
            _ => false,
        };
        let tick_source = match kind {
            Some(InputKind::Tick) => true,
            _ => false,
        };
        let interval = match interval {
            Some(interval) => interval,
            None => {
                if tick_source {
                    return Err(PipelineError::IntervalRequired);
                }
                return Ok(
                    BarPipeline {
                        engine: Engine::Pass,
                        filler: None,
                        ticks: Ghost(Seq::empty()),
                        bars: Ghost(Seq::empty()),
                        sent: Ghost(Seq::empty()),
                    },
                );
            },
        };
        if !crate::resample::can_step(interval) {
            return Err(PipelineError::IntervalTooLong);
        }
        let engine = if bar_source {
            Engine::Bars(BarResampler::new(interval, clock.copy()))
        } else {
            Engine::Ticks(Resampler::new(interval, clock.copy()))
        };
        let filler = Some(ForwardFiller::new(interval, clock.copy(), fill));
        proof {
            assert(crate::resample::tick_aggs(Seq::empty()) =~= Seq::empty());
            assert(crate::resample::bar_aggs(Seq::empty()) =~= Seq::empty());
        }
        Ok(
            BarPipeline {
                engine,
                filler,
                ticks: Ghost(Seq::empty()),
                bars: Ghost(Seq::empty()),
                sent: Ghost(Seq::empty()),
            },
        )
    }

    /// Whether `tick` can be taken in: ticks are what is resampled, and no total would leave the
    /// range of its field.
    pub fn accepts_tick(&self, tick: &Tick) -> (r: bool)
        ensures
            r == (self.making() is FromTicks && crate::resample::room(
                self.state(),
                crate::aggregate::tick_agg(*tick),
            )),
    {
        match &self.engine {
            Engine::Ticks(resampler) => resampler.accepts(tick),
            _ => false,
        }
    }

    /// Whether `bar` can be taken in: bars are what is read, and no total would leave the range of
    /// its field.
    pub fn accepts_bar(&self, bar: &Bar) -> (r: bool)
        ensures
            r == match self.making() {
                Making::Passing => true,
                Making::FromTicks => false,
                Making::FromBars => crate::resample::room(
                    self.state(),
                    crate::aggregate::bar_agg(*bar),
                ),
            },
    {
        match &self.engine {
            Engine::Pass => true,
            Engine::Ticks(_) => false,
            Engine::Bars(resampler) => resampler.accepts(bar),
        }
    }

    /// Takes the next tick in and hands back the bars that are due.
    pub fn push_tick(&mut self, tick: &Tick) -> (r: Vec<Bar>)
        requires
            old(self).valid(),
            old(self).making() is FromTicks,
            crate::resample::room(old(self).state(), crate::aggregate::tick_agg(*tick)),
        ensures
            final(self).valid(),
            final(self).making() is FromTicks,
            final(self).clock() == old(self).clock(),
            final(self).step_by() == old(self).step_by(),
            final(self).fills() == old(self).fills(),
            final(self).ticks_in() == old(self).ticks_in().push(*tick),
            final(self).bars_in() == old(self).bars_in(),
            final(self).bars_out() == old(self).bars_out() + r@,
            final(self).bars_out() == final(self).come_out(),
            final(self).state() == crate::resample::step(
                old(self).clock(),
                old(self).step_by().anchoring(),
                old(self).state(),
                crate::aggregate::tick_agg(*tick),
            ).0,
    {
        let ghost before = crate::resample::tick_aggs(self.ticks@);
        let ghost item = crate::aggregate::tick_agg(*tick);
        proof {
            assert(crate::resample::tick_aggs(self.ticks@.push(*tick)) =~= before.push(item));
            assert(before.push(item).drop_last() =~= before);
        }
        let closed = match &mut self.engine {
            Engine::Ticks(resampler) => resampler.push(tick),
            _ => None,
        };
        self.ticks = Ghost(self.ticks@.push(*tick));
        self.send(closed, Ghost(before), Ghost(item))
    }

    /// Takes the next bar in and hands back the bars that are due.
    pub fn push_bar(&mut self, bar: &Bar) -> (r: Vec<Bar>)
        requires
            old(self).valid(),
            !(old(self).making() is FromTicks),
            old(self).making() is FromBars ==> crate::resample::room(
                old(self).state(),
                crate::aggregate::bar_agg(*bar),
            ),
        ensures
            final(self).valid(),
            final(self).making() == old(self).making(),
            final(self).clock() == old(self).clock(),
            final(self).step_by() == old(self).step_by(),
            final(self).fills() == old(self).fills(),
            final(self).ticks_in() == old(self).ticks_in(),
            final(self).bars_in() == old(self).bars_in().push(*bar),
            final(self).bars_out() == old(self).bars_out() + r@,
            final(self).bars_out() == final(self).come_out(),
            old(self).making() is FromBars ==> final(self).state() == crate::resample::step(
                old(self).clock(),
                old(self).step_by().anchoring(),
                old(self).state(),
                crate::aggregate::bar_agg(*bar),
            ).0,
    {
        let ghost before = crate::resample::bar_aggs(self.bars@);
        let ghost item = crate::aggregate::bar_agg(*bar);
        proof {
            assert(crate::resample::bar_aggs(self.bars@.push(*bar)) =~= before.push(item));
            assert(before.push(item).drop_last() =~= before);
        }
        let mut passing = false;
        let closed = match &mut self.engine {
            Engine::Bars(resampler) => resampler.push(bar),
            _ => {
                passing = true;
                None
            },
        };
        self.bars = Ghost(self.bars@.push(*bar));
        if passing {
            let mut out: Vec<Bar> = Vec::new();
            out.push(*bar);
            self.sent = Ghost(self.sent@.push(*bar));
            assert(old(self).bars_out() + out@ =~= self.sent@);
            return out;
        }
        self.send(closed, Ghost(before), Ghost(item))
    }

    /// Hands a bar that has just closed to the filler.
    fn send(
        &mut self,
        closed: Option<Bar>,
        before: Ghost<Seq<crate::aggregate::Agg>>,
        item: Ghost<crate::aggregate::Agg>,
    ) -> (r: Vec<Bar>)
        requires
            !(old(self).making() is Passing),
            old(self).filler is Some,
            crate::resample::steppable(old(self).step_by()),
            ({
                let g = old(self).step_by().anchoring();
                let (state, done) = crate::resample_laws::feed(
                    old(self).clock(),
                    g,
                    crate::resample_laws::fresh(),
                    before@,
                );
                &&& pipeline_items(old(self).making(), old(self).ticks@, old(self).bars@)
                    == before@.push(item@)
                &&& (old(self).state(), closed) == crate::resample::step(
                    old(self).clock(),
                    g,
                    state,
                    item@,
                )
                &&& match old(self).engine {
                    Engine::Ticks(r) => r.step_by() == old(self).step_by() && r.on_clock()
                        == old(self).clock(),
                    Engine::Bars(r) => r.step_by() == old(self).step_by() && r.on_clock()
                        == old(self).clock(),
                    Engine::Pass => true,
                }
                &&& old(self).filler->0.last() == (if old(self).fills() && done.len() > 0 {
                    Some(done.last())
                } else {
                    None
                })
                &&& old(self).sent@ == crate::resample::delivered(
                    old(self).clock(),
                    g,
                    old(self).fills(),
                    done,
                )
            }),
        ensures
            final(self).valid(),
            final(self).making() == old(self).making(),
            final(self).state() == old(self).state(),
            final(self).clock() == old(self).clock(),
            final(self).step_by() == old(self).step_by(),
            final(self).fills() == old(self).fills(),
            final(self).ticks@ == old(self).ticks@,
            final(self).bars@ == old(self).bars@,
            final(self).sent@ == old(self).sent@ + r@,
    {
        let ghost g = self.step_by().anchoring();
        let ghost done = crate::resample_laws::feed(
            self.clock(),
            g,
            crate::resample_laws::fresh(),
            before@,
        ).1;
        let ghost sent = self.sent@;
        proof {
            assert(before@.push(item@).drop_last() =~= before@);
        }
        let mut out: Vec<Bar> = Vec::new();
        if let Some(bar) = closed {
            if let Some(filler) = &mut self.filler {
                out = filler.push(bar);
            }
            proof {
                lemma_delivered_one(self.clock(), g, self.fills(), done, bar);
                assert(done + seq![bar] =~= done.push(bar));
            }
        } else {
            proof {
                assert(done + Seq::<Bar>::empty() =~= done);
                assert(sent + out@ =~= sent);
            }
        }
        self.sent = Ghost(self.sent@ + out@);
        out
    }

    /// Hands back the last bars: what is left of all that is due.
    pub fn finish(self) -> (r: Vec<Bar>)
        requires
            self.valid(),
        ensures
            self.bars_out() + r@ == self.due(),
    {
        let ghost g = self.step_by().anchoring();
        let ghost items = pipeline_items(self.making(), self.ticks@, self.bars@);
        let ghost (state, done) = crate::resample_laws::feed(
            self.clock(),
            g,
            crate::resample_laws::fresh(),
            items,
        );
        let ghost sent = self.sent@;
        proof {
            crate::resample_laws::pushing_gives_the_bars(self.clock(), g, items);
        }
        let last = match self.engine {
            Engine::Pass => {
                let out: Vec<Bar> = Vec::new();
                assert(sent + out@ =~= sent);
                return out;
            },
            Engine::Ticks(resampler) => resampler.finish(),
            Engine::Bars(resampler) => resampler.finish(),
        };
        let mut out: Vec<Bar> = Vec::new();
        if let Some(bar) = last {
            if let Some(filler) = self.filler {
                let mut filler = filler;
                out = filler.push(bar);
            }
            proof {
                lemma_delivered_one(self.clock(), g, self.fills(), done, bar);
                assert(done + seq![bar] =~= done.push(bar));
            }
        } else {
            proof {
                assert(done + Seq::<Bar>::empty() =~= done);
                assert(sent + out@ =~= sent);
            }
        }
        out
    }
}

/// A pipeline hands a bar out the moment its bucket closes: at any time those that are out are the
/// bars whose buckets the rows so far have closed, and what it has open is what those rows leave
/// open.
pub proof fn bars_come_out_as_buckets_close(pipeline: BarPipeline)
    requires
        pipeline.valid(),
    ensures
        pipeline.bars_out() == pipeline.come_out(),
        !(pipeline.making() is Passing) ==> pipeline.state() == crate::resample_laws::feed(
            pipeline.clock(),
            pipeline.step_by().anchoring(),
            crate::resample_laws::fresh(),
            pipeline_items(pipeline.making(), pipeline.ticks_in(), pipeline.bars_in()),
        ).0,
{
}

/// What goes out for one more real bar.
proof fn lemma_delivered_one(
    clock: crate::resample::ClockModel,
    granularity: crate::interval::Granularity,
    fill: bool,
    done: Seq<Bar>,
    bar: Bar,
)
    ensures
        crate::resample::delivered(clock, granularity, fill, done.push(bar))
            == crate::resample::delivered(clock, granularity, fill, done) + if fill && done.len()
            > 0 {
            crate::resample::gap(clock, granularity, done.last(), bar).push(bar)
        } else {
            seq![bar]
        },
{
    let before = crate::resample::delivered(clock, granularity, fill, done);
    assert(done.push(bar).drop_last() =~= done);
    if fill && done.len() > 0 {
        let g = crate::resample::gap(clock, granularity, done.last(), bar);
        assert(before + g.push(bar) =~= before + g + seq![bar]);
    } else {
        assert(before + seq![bar] =~= done.push(bar));
    }
}

// ---- sidecars --------------------------------------------------------------------------

/// What is known of a tick file and the sidecar beside it: their last keys, where they have any.
#[derive(Debug, Clone, Copy, PartialEq, Eq, Structural)]
pub struct SidecarKeys {
    pub bars_last: Option<u32>,
    pub tick_last: Option<u32>,
}

/// Where a symbol's bars are read from.
#[derive(Debug, PartialEq, Eq)]
pub enum SidecarChoice {
    /// The source itself.
    Source,
    /// The sidecar in its place.
    Sidecar { path: String },
    /// Neither: the sidecar has fallen behind its source and must be refreshed first.
    Stale { path: String, bars_last: u32, tick_last: u32 },
}

/// Where a symbol's bars are read from, the path as text.
pub enum ChoiceModel {
    Source,
    Sidecar { path: Seq<char> },
    Stale { path: Seq<char>, bars_last: u32, tick_last: u32 },
}

impl View for SidecarChoice {
    type V = ChoiceModel;

    open spec fn view(&self) -> ChoiceModel {
        match self {
            SidecarChoice::Source => ChoiceModel::Source,
            SidecarChoice::Sidecar { path } => ChoiceModel::Sidecar { path: path@ },
            SidecarChoice::Stale { path, bars_last, tick_last } => ChoiceModel::Stale {
                path: path@,
                bars_last: *bars_last,
                tick_last: *tick_last,
            },
        }
    }
}

/// The sidecar that may stand in for sources: there is one for exactly one tick file, of the
/// interval and the hours asked for, in the file's directory.
pub open spec fn sidecar_of(
    kinds: Seq<InputKind>,
    dir: Option<Seq<char>>,
    symbol: Seq<char>,
    interval: Interval,
    use_rth: bool,
) -> Option<Seq<char>> {
    if kinds.len() != 1 || kinds[0] is Bar {
        None
    } else {
        match dir {
            Some(dir) => Some(
                crate::sidecar::inside(dir, crate::sidecar::name_of(symbol, interval, use_rth)),
            ),
            None => None,
        }
    }
}

/// Whether a sidecar stands in for its source. It does when it is there and current: stale only when
/// a whole bucket beyond the last stored one could be formed.
pub open spec fn sidecar_choice(
    sidecar: Option<Seq<char>>,
    keys: Option<SidecarKeys>,
    clock: crate::resample::ClockModel,
    granularity: crate::interval::Granularity,
) -> ChoiceModel {
    match (sidecar, keys) {
        (
            Some(path),
            Some(SidecarKeys { bars_last: Some(bars_last), tick_last: Some(tick_last) }),
        ) => if tick_last >= clock.bucket_end(granularity, bars_last as int) {
            ChoiceModel::Stale { path, bars_last, tick_last }
        } else {
            ChoiceModel::Sidecar { path }
        },
        _ => ChoiceModel::Source,
    }
}

/// The path of the sidecar that may stand in for sources, given the directory of the first.
pub fn sidecar_beside(
    kinds: &[InputKind],
    dir: Option<&str>,
    symbol: &str,
    interval: Interval,
    use_rth: bool,
) -> (r: Option<String>)
    ensures
        crate::commands::opt_text(r) == sidecar_of(
            kinds@,
            match dir {
                Some(dir) => Some(dir@),
                None => None,
            },
            symbol@,
            interval,
            use_rth,
        ),
{
    // A sidecar stands in for exactly one tick file; several sources have no single sidecar.
    if kinds.len() != 1 {
        return None;
    }
    match kinds[0] {
        InputKind::Bar => None,
        InputKind::Tick => match dir {
            Some(dir) => Some(crate::sidecar::sidecar_path(dir, symbol, interval, use_rth)),
            None => None,
        },
    }
}

/// Decides whether a materialized sidecar stands in for a tick source. `keys` are those of the
/// source and of the file at [`sidecar_beside`], `None` when there is no such file.
///
/// Staleness is refused rather than tolerated: an archive grows, and a file materialized last week
/// silently truncates every run that reads it.
pub fn resolve_sidecar(
    kinds: &[InputKind],
    dir: Option<&str>,
    symbol: &str,
    interval: Interval,
    use_rth: bool,
    keys: Option<SidecarKeys>,
    clock: &BarClock,
) -> (r: SidecarChoice)
    requires
        crate::resample::steppable(interval),
    ensures
        r@ == sidecar_choice(
            sidecar_of(
                kinds@,
                match dir {
                    Some(dir) => Some(dir@),
                    None => None,
                },
                symbol@,
                interval,
                use_rth,
            ),
            keys,
            clock@,
            interval.anchoring(),
        ),
{
    let path = match sidecar_beside(kinds, dir, symbol, interval, use_rth) {
        Some(path) => path,
        None => return SidecarChoice::Source,
    };
    let keys = match keys {
        Some(keys) => keys,
        None => return SidecarChoice::Source,
    };
    match (keys.bars_last, keys.tick_last) {
        (Some(bars_last), Some(tick_last)) => if tick_last >= clock.next_bucket_start(
            interval,
            bars_last,
        ) {
            SidecarChoice::Stale { path, bars_last, tick_last }
        } else {
            SidecarChoice::Sidecar { path }
        },
        // An empty file either side: fall back to the source.
        _ => SidecarChoice::Source,
    }
}

/// The complaint about a stale sidecar, with what refreshes it.
pub open spec fn stale_text(
    side: Seq<char>,
    source: Seq<char>,
    interval: Interval,
    use_rth: bool,
    zone: Seq<char>,
    bars_last: int,
    tick_last: int,
) -> Seq<char> {
    side + " is stale.\n  sidecar ends "@ + crate::output::stamp_text(zone, bars_last)
        + "\n  source has ticks through "@ + crate::output::stamp_text(zone, tick_last)
        + "\nRefresh it with: mdfwob sync "@ + source + " "@ + interval.token() + (if use_rth {
        " rth"@
    } else {
        Seq::empty()
    })
}

pub fn stale_message(
    side: &str,
    source: &str,
    interval: Interval,
    use_rth: bool,
    tz: &Zone,
    bars_last: u32,
    tick_last: u32,
) -> (r: String)
    ensures
        r@ == stale_text(
            side@,
            source@,
            interval,
            use_rth,
            tz@,
            bars_last as int,
            tick_last as int,
        ),
{
    let mut out = side.to_owned();
    out.append(" is stale.\n  sidecar ends ");
    out.append(format_epoch_tz(bars_last, tz).as_str());
    out.append("\n  source has ticks through ");
    out.append(format_epoch_tz(tick_last, tz).as_str());
    out.append("\nRefresh it with: mdfwob sync ");
    out.append(source);
    out.append(" ");
    out.append(interval.label().as_str());
    if use_rth {
        out.append(" rth");
    }
    assert(out@ =~= stale_text(
        side@,
        source@,
        interval,
        use_rth,
        tz@,
        bars_last as int,
        tick_last as int,
    ));
    out
}

/// What bars a consumer wants, stated without reference to how the archive stores them.
///
/// Whether a symbol is backed by raw ticks, by 1-minute bars, or by a materialized daily sidecar is
/// the archive's business, and the answer must be identical either way — so the caller says "1d,
/// regular hours, this window" and nothing about files.
///
/// The part that cannot be left to callers is the session. Against ticks it is a **row filter**,
/// because a tick carries an instant and out-of-hours prints have to be dropped. Against bars it
/// must not be: a bar carries its bucket-start timestamp, which for a daily bar is local midnight
/// — outside every intraday window — so the same filter silently discards the whole file.
#[derive(Debug)]
pub struct BarRequest<'a> {
    /// One symbol's source files, ascending. All must be the same kind.
    pub paths: &'a [String],
    /// Target bar width. `None` keeps a bar source at its stored resolution, and is an error for a
    /// tick source, which has no resolution of its own.
    pub interval: Option<Interval>,
    /// The trading session, which anchors bucket boundaries and — for ticks — filters rows.
    pub session: &'a Session,
    /// Keep only in-session activity. When false the session still anchors buckets.
    pub use_rth: bool,
    /// Emit flat bars for empty buckets inside a session.
    pub fill: bool,
    /// Inclusive scan bounds, in epoch seconds.
    pub start: Option<u32>,
    pub end: Option<u32>,
    /// Read a current sidecar instead of re-resampling. Pure optimization; identical result.
    pub prefer_sidecar: bool,
}

impl<'a> BarRequest<'a> {
    /// Regular hours, no fill, whole file, sidecars preferred.
    pub fn new(paths: &'a [String], interval: Option<Interval>, session: &'a Session) -> (r: Self)
        ensures
            r == (BarRequest {
                paths,
                interval,
                session,
                use_rth: true,
                fill: false,
                start: None,
                end: None,
                prefer_sidecar: true,
            }),
    {
        BarRequest {
            paths,
            interval,
            session,
            use_rth: true,
            fill: false,
            start: None,
            end: None,
            prefer_sidecar: true,
        }
    }

    pub fn use_rth(self, use_rth: bool) -> (r: Self)
        ensures
            r == (BarRequest { use_rth, ..self }),
    {
        BarRequest { use_rth, ..self }
    }

    pub fn fill(self, fill: bool) -> (r: Self)
        ensures
            r == (BarRequest { fill, ..self }),
    {
        BarRequest { fill, ..self }
    }

    pub fn window(self, start: Option<u32>, end: Option<u32>) -> (r: Self)
        ensures
            r == (BarRequest { start, end, ..self }),
    {
        BarRequest { start, end, ..self }
    }

    pub fn prefer_sidecar(self, prefer: bool) -> (r: Self)
        ensures
            r == (BarRequest { prefer_sidecar: prefer, ..self }),
    {
        BarRequest { prefer_sidecar: prefer, ..self }
    }
}

/// How a request is met from its sources.
pub struct BarPlan {
    pub clock: BarClock,
    /// Whether a sidecar is looked for. Forward-fill changes the bars but is not expressible in a
    /// sidecar's name, so it reads the source rather than risk being served a file built with
    /// different parameters; and a sidecar holds one interval.
    pub seek_sidecar: bool,
    /// The scan of the source.
    pub query: TickQuery,
    /// The scan of a sidecar read in its place. The session is not applied again: the sidecar's
    /// bars have been made under it.
    pub sidecar_query: TickQuery,
    /// The kind of the sources, where there are any.
    pub kind: Option<InputKind>,
}

/// Works out how the bars a [`BarRequest`] describes are read, given the kind of each of its
/// sources.
pub fn request_bars(req: &BarRequest<'_>, kinds: &[InputKind]) -> (r: Result<BarPlan, MixedSources>)
    ensures
        match shared_kind(kinds@) {
            Err(e) => r matches Err(found) && found == e,
            Ok(kind) => r matches Ok(plan) && {
                &&& plan.clock@ == crate::resample::ClockModel::Session(req.session@)
                &&& plan.seek_sidecar == (req.prefer_sidecar && !req.fill && req.interval is Some)
                &&& plan.kind == kind
                &&& plan.query.start == req.start
                &&& plan.query.end == req.end
                &&& session_model(plan.query.session) == (if req.use_rth && kind == Some(
                    InputKind::Tick,
                ) {
                    Some(req.session@)
                } else {
                    None
                })
                &&& plan.sidecar_query.start == req.start
                &&& plan.sidecar_query.end == req.end
                &&& plan.sidecar_query.session is None
            },
        },
{
    let kind = match sources_kind(kinds) {
        Ok(kind) => kind,
        Err(e) => return Err(e),
    };
    // The row filter belongs to ticks alone.
    let session = match session_row_filter(kinds, req.use_rth, req.session) {
        Ok(session) => session,
        Err(e) => return Err(e),
    };
    let query = TickQuery { start: req.start, end: req.end, session };
    let sidecar_query = query.without_session();
    Ok(
        BarPlan {
            clock: BarClock::Session(req.session.copy()),
            seek_sidecar: req.prefer_sidecar && !req.fill && req.interval.is_some(),
            query,
            sidecar_query,
            kind,
        },
    )
}

/// A session never filters the rows of a bar source.
pub proof fn bars_are_never_filtered(kinds: Seq<InputKind>)
    requires
        kinds.len() > 0,
        forall|i: int| 0 <= i < kinds.len() ==> #[trigger] kinds[i] is Bar,
    ensures
        shared_kind(kinds) == Ok::<Option<InputKind>, MixedSources>(Some(InputKind::Bar)),
    decreases kinds.len(),
{
    let init = kinds.drop_last();
    assert(kinds[kinds.len() - 1] is Bar);
    if init.len() > 0 {
        assert forall|i: int| 0 <= i < init.len() implies #[trigger] init[i] is Bar by {
            assert(kinds[i] is Bar);
        }
        bars_are_never_filtered(init);
    } else {
        assert(shared_kind(init) == Ok::<Option<InputKind>, MixedSources>(None));
    }
}

/// Mixing is refused exactly when two sources differ.
pub proof fn mixing_is_refused(kinds: Seq<InputKind>)
    ensures
        shared_kind(kinds) is Err <==> exists|i: int, j: int|
            0 <= i < j < kinds.len() && #[trigger] kinds[i] != #[trigger] kinds[j],
        shared_kind(kinds) matches Ok(Some(kind)) ==> kinds.len() > 0 && forall|i: int|
            0 <= i < kinds.len() ==> #[trigger] kinds[i] == kind,
        shared_kind(kinds) matches Ok(None) ==> kinds.len() == 0,
    decreases kinds.len(),
{
    if kinds.len() > 0 {
        let init = kinds.drop_last();
        let n = kinds.len() - 1;
        mixing_is_refused(init);
        if shared_kind(init) is Err {
            let (i, j) = choose|i: int, j: int|
                0 <= i < j < init.len() && #[trigger] init[i] != #[trigger] init[j];
            assert(kinds[i] == init[i] && kinds[j] == init[j]);
            assert(kinds[i] != kinds[j]);
        } else if shared_kind(kinds) is Err {
            assert(init[0] == kinds[0]);
            assert(kinds[0] != kinds[n]);
        } else {
            assert forall|i: int| 0 <= i < kinds.len() implies #[trigger] kinds[i]
                == kinds[n] by {
                if i < n {
                    assert(init[i] == kinds[i]);
                }
            }
        }
    }
}

} // verus!
