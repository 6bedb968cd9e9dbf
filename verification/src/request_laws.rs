//! What a request for bars reads: which rows, which files, and how a stored file is brought up to
//! date.
use vstd::prelude::*;

use crate::aggregate::Agg;
use crate::bounds::BoundError;
use crate::feed::{ChoiceModel, MixedSources, SidecarKeys};
use crate::interval::{Granularity, Interval};
use crate::model::{Bar, InputKind};
use crate::resample::ClockModel;
use crate::session::SessionModel;

verus! {

/// A query holds the instants from its start to its end, both included, and of those only the ones
/// within the session's hours where it has a session.
pub proof fn queries_hold_their_range(
    start: Option<u32>,
    end: Option<u32>,
    session: Option<SessionModel>,
    time: u32,
)
    ensures
        crate::feed::in_query(start, end, session, time as int) <==> {
            &&& start is Some ==> time >= start->0
            &&& end is Some ==> time <= end->0
            &&& session is Some ==> session->0.open <= crate::inspect_laws::minute_of(
                session->0.zone,
                time,
            ) < session->0.close
        },
{
}

/// Sources share a kind where all of them are of it; the first that differs from the one before all
/// others is the one that is refused.
pub proof fn sources_share_one_kind(kinds: Seq<InputKind>)
    requires
        kinds.len() <= usize::MAX,
    ensures
        match crate::feed::shared_kind(kinds) {
            Ok(None) => kinds.len() == 0,
            Ok(Some(kind)) => kinds.len() > 0 && forall|i: int|
                0 <= i < kinds.len() ==> #[trigger] kinds[i] == kind,
            Err(MixedSources { index }) => {
                &&& 0 < index < kinds.len()
                &&& kinds[index as int] != kinds[0]
                &&& forall|i: int| 0 <= i < index ==> #[trigger] kinds[i] == kinds[0]
            },
        },
    decreases kinds.len(),
{
    if kinds.len() > 0 {
        let init = kinds.drop_last();
        sources_share_one_kind(init);
        let n = kinds.len() - 1;
        match crate::feed::shared_kind(init) {
            Err(MixedSources { index }) => {
                assert(init[index as int] == kinds[index as int] && init[0] == kinds[0]);
                assert forall|i: int| 0 <= i < index implies #[trigger] kinds[i] == kinds[0] by {
                    assert(init[i] == kinds[i]);
                }
            },
            Ok(None) => {
                assert(kinds[0] == kinds.last());
            },
            Ok(Some(kind)) => {
                assert(init[0] == kinds[0]);
                assert forall|i: int| 0 <= i < n implies #[trigger] kinds[i] == kind by {
                    assert(init[i] == kinds[i]);
                }
            },
        }
    }
}

/// Whether a path is that of a file in a directory.
pub open spec fn lies_in(path: Seq<char>, dir: Seq<char>, name: Seq<char>) -> bool {
    path == if dir.len() == 0 || dir[dir.len() - 1] == '/' {
        dir + name
    } else {
        dir.push('/') + name
    }
}

/// A sidecar belongs to a single tick file. It lies in the directory of that file and is named after
/// its symbol, its interval and, for regular hours, those.
pub proof fn sidecars_lie_beside_tick_files(
    kinds: Seq<InputKind>,
    dir: Option<Seq<char>>,
    symbol: Seq<char>,
    interval: Interval,
    use_rth: bool,
)
    requires
        symbol.len() > 0 && symbol[0] != '/',
    ensures
        ({
            let sidecar = crate::feed::sidecar_of(kinds, dir, symbol, interval, use_rth);
            let name = symbol + "."@ + interval.token() + if use_rth {
                ".rth"@
            } else {
                Seq::empty()
            } + ".bars.fwob"@;
            &&& sidecar is Some <==> dir is Some && kinds =~= seq![InputKind::Tick]
            &&& sidecar is Some ==> lies_in(sidecar->0, dir->0, name)
        }),
{
    reveal_strlit(".rth");
    reveal_strlit(".bars.fwob");
    reveal_strlit(".rth.bars.fwob");
    reveal_strlit("/");
    assert(".rth.bars.fwob"@ =~= ".rth"@ + ".bars.fwob"@);
    let stem = symbol + "."@ + interval.token();
    assert(stem + (".rth"@ + ".bars.fwob"@) =~= stem + ".rth"@ + ".bars.fwob"@);
    assert(stem + ".bars.fwob"@ =~= stem + Seq::<char>::empty() + ".bars.fwob"@);
    let name = crate::sidecar::name_of(symbol, interval, use_rth);
    assert(name[0] == symbol[0]);
    if kinds.len() == 1 && kinds[0] == InputKind::Tick {
        assert(kinds =~= seq![InputKind::Tick]);
    }
    if dir is Some {
        let d = dir->0;
        assert(d + "/"@ + name =~= d.push('/') + name);
        assert(d.len() == 0 ==> d + name =~= name);
    }
}

/// A sidecar is read in place of its source where both have a last key and the source has no trade
/// past the bucket of the sidecar's last bar. With one it is stale, and says up to where each reaches.
/// Without a sidecar or a key the source is read.
pub proof fn stale_sidecars_are_not_read(
    path: Seq<char>,
    keys: Option<SidecarKeys>,
    clock: ClockModel,
    granularity: Granularity,
)
    ensures
        crate::feed::sidecar_choice(None, keys, clock, granularity) == ChoiceModel::Source,
        ({
            let choice = crate::feed::sidecar_choice(Some(path), keys, clock, granularity);
            let known = keys is Some && keys->0.bars_last is Some && keys->0.tick_last is Some;
            let behind = keys->0.tick_last->0 >= clock.bucket_end(
                granularity,
                keys->0.bars_last->0 as int,
            );
            &&& choice is Source <==> !known
            &&& known && !behind ==> choice == (ChoiceModel::Sidecar { path })
            &&& known && behind ==> choice == (ChoiceModel::Stale {
                path,
                bars_last: keys->0.bars_last->0,
                tick_last: keys->0.tick_last->0,
            })
        }),
{
}

/// On a clock that counts from the epoch, an intraday sidecar is stale from the first trade a whole
/// interval past the start of its last bar.
pub proof fn intraday_sidecars_last_one_interval(
    path: Seq<char>,
    bars_last: u32,
    tick_last: u32,
    clock: ClockModel,
    secs: u32,
)
    requires
        secs > 0,
        !(clock is Session),
        bars_last + secs <= u32::MAX,
    ensures
        crate::feed::sidecar_choice(
            Some(path),
            Some(SidecarKeys { bars_last: Some(bars_last), tick_last: Some(tick_last) }),
            clock,
            Granularity::SubDay(secs),
        ) is Stale <==> tick_last >= bars_last + secs,
{
}

/// The message about a stale sidecar names it, says where it ends and then where its source ends, and
/// how to refresh it.
pub proof fn stale_messages_say_where_both_end(
    side: Seq<char>,
    source: Seq<char>,
    interval: Interval,
    use_rth: bool,
    zone: Seq<char>,
    bars_last: u32,
    tick_last: u32,
)
    ensures
        ({
            let text = crate::feed::stale_text(
                side,
                source,
                interval,
                use_rth,
                zone,
                bars_last as int,
                tick_last as int,
            );
            let ends = side + " is stale.\n  sidecar ends "@ + crate::table_laws::stamp_shown(
                Some(bars_last),
                zone,
            ) + "\n  source has ticks through "@ + crate::table_laws::stamp_shown(
                Some(tick_last),
                zone,
            );
            let command = "\nRefresh it with: mdfwob sync "@ + source + " "@ + interval.token();
            &&& text.take(ends.len() as int) == ends
            &&& text.skip(ends.len() as int) == command + if use_rth {
                " rth"@
            } else {
                Seq::empty()
            }
        }),
{
    let text = crate::feed::stale_text(
        side,
        source,
        interval,
        use_rth,
        zone,
        bars_last as int,
        tick_last as int,
    );
    let ends = side + " is stale.\n  sidecar ends "@ + crate::table_laws::stamp_shown(
        Some(bars_last),
        zone,
    ) + "\n  source has ticks through "@ + crate::table_laws::stamp_shown(Some(tick_last), zone);
    let command = "\nRefresh it with: mdfwob sync "@ + source + " "@ + interval.token();
    let tail = command + if use_rth {
        " rth"@
    } else {
        Seq::empty()
    };
    assert(text =~= ends + tail);
    assert(text.take(ends.len() as int) =~= ends);
    assert(text.skip(ends.len() as int) =~= tail);
}

// ---- refreshing --------------------------------------------------------------------------

/// A refresh reads on from the last stored bar, but never from before the caller's own start.
pub proof fn refreshes_resume_no_earlier_than_asked(start: Option<u32>, resume: Option<u32>)
    ensures
        ({
            let from = crate::sidecar::scan_start(start, resume);
            &&& from is None <==> start is None && resume is None
            &&& start is Some ==> from->0 >= start->0
            &&& resume is Some ==> from->0 >= resume->0
            &&& from is Some ==> from == start || from == resume
        }),
{
}

/// Of the bars made by a refresh those from the dropped one on are kept, in order; without a dropped
/// one, all of them.
pub proof fn refreshed_bars_are_kept_from_the_dropped_one(bars: Seq<Bar>, time: u32)
    ensures
        crate::sidecar::kept_from(bars, Some(time)) == bars.filter(|bar: Bar| bar.time >= time),
        crate::sidecar::kept_from(bars, None) == bars,
    decreases bars.len(),
{
    reveal(Seq::filter);
    if bars.len() > 0 {
        refreshed_bars_are_kept_from_the_dropped_one(bars.drop_last(), time);
        assert(bars.drop_last().push(bars.last()) =~= bars);
    } else {
        assert(bars.filter(|bar: Bar| bar.time >= time) =~= Seq::empty());
        assert(crate::sidecar::kept_from(bars, None) =~= bars);
    }
}

/// Dropping a bar drops all at its time and no other.
pub proof fn dropping_a_bar_keeps_the_others(bars: Seq<Bar>, time: u32)
    ensures
        crate::sidecar::without(bars, time) == bars.filter(|bar: Bar| bar.time != time),
    decreases bars.len(),
{
    reveal(Seq::filter);
    if bars.len() > 0 {
        dropping_a_bar_keeps_the_others(bars.drop_last(), time);
    } else {
        assert(bars.filter(|bar: Bar| bar.time != time) =~= Seq::empty());
    }
}

/// A scan of a source reads what lies at or after its start.
pub proof fn scans_read_from_their_start(items: Seq<Agg>, start: int)
    ensures
        crate::sidecar::scanned(items, start) == items.filter(|item: Agg| item.time >= start),
    decreases items.len(),
{
    reveal(Seq::filter);
    if items.len() > 0 {
        scans_read_from_their_start(items.drop_last(), start);
    } else {
        assert(items.filter(|item: Agg| item.time >= start) =~= Seq::empty());
    }
}

// ---- bounds ------------------------------------------------------------------------------

proof fn lemma_ungrouped(text: Seq<char>)
    requires
        forall|i: int|
            0 <= i < text.len() ==> text[i] == ',' || crate::output_laws::is_numeral(
                #[trigger] text[i],
            ),
    ensures
        crate::bounds::ungrouped(text) == crate::output_laws::numerals(text),
    decreases text.len(),
{
    reveal(Seq::filter);
    if text.len() > 0 {
        let init = text.drop_last();
        assert forall|i: int| 0 <= i < init.len() implies init[i] == ','
            || crate::output_laws::is_numeral(#[trigger] init[i]) by {
            assert(init[i] == text[i]);
        }
        lemma_ungrouped(init);
        assert(text[text.len() - 1] == ',' || crate::output_laws::is_numeral(
            text[text.len() - 1],
        ));
    } else {
        assert(crate::output_laws::numerals(text) =~= text);
    }
}

/// A bare number is an epoch second, grouped or not.
pub proof fn numbers_are_epoch_seconds(second: i64)
    requires
        second >= 0,
    ensures
        crate::bounds::epoch_named(crate::text::decimal(second as nat)) == Some(second as int),
        crate::bounds::epoch_named(crate::output::comma_text(second as int)) == Some(
            second as int,
        ),
{
    let digits = crate::text::decimal(second as nat);
    crate::output_laws::numbers_are_written_in_decimal(second as nat);
    crate::text::lemma_decimal_digits(second as nat);
    crate::text::decimal_round_trip(second as nat);
    assert forall|i: int| 0 <= i < digits.len() implies digits[i] == ','
        || crate::output_laws::is_numeral(#[trigger] digits[i]) by {}
    lemma_ungrouped(digits);
    crate::output_laws::commas_stand_at_the_thousands(digits);
    crate::output_laws::lemma_all_numerals(digits);
    lemma_group_chars(digits);
    lemma_ungrouped(crate::output::grouped(digits));
}

proof fn lemma_group_chars(digits: Seq<char>)
    requires
        forall|i: int| 0 <= i < digits.len() ==> crate::output_laws::is_numeral(#[trigger] digits[i]),
    ensures
        forall|i: int|
            0 <= i < crate::output::grouped(digits).len() ==> crate::output::grouped(digits)[i] == ','
                || crate::output_laws::is_numeral(#[trigger] crate::output::grouped(digits)[i]),
    decreases digits.len(),
{
    if digits.len() > 3 {
        let n = digits.len() - 3;
        let (a, b) = (digits.take(n), digits.skip(n));
        assert forall|i: int| 0 <= i < a.len() implies crate::output_laws::is_numeral(
            #[trigger] a[i],
        ) by {
            assert(a[i] == digits[i]);
        }
        lemma_group_chars(a);
        let head = crate::output::grouped(a);
        let text = crate::output::grouped(digits);
        assert forall|i: int| 0 <= i < text.len() implies text[i] == ','
            || crate::output_laws::is_numeral(#[trigger] text[i]) by {
            if i < head.len() {
                assert(text[i] == head[i]);
            } else if i > head.len() {
                assert(text[i] == digits[n + (i - head.len() - 1)]);
            }
        }
    }
}

/// A date without a time of day is its local midnight as a start. What lies outside the times that a
/// file can hold is refused.
pub proof fn start_dates_are_midnights(value: Seq<char>, zone: Seq<char>, second: i64)
    requires
        crate::civil::instant_named(value) is None,
        crate::bounds::epoch_named(value) is None,
        !value.contains(':'),
        crate::civil::date_named(value) is Some,
        ({
            let (y, m, d) = crate::civil::date_named(value)->0;
            crate::civil::civil_second(zone, (y, m, d, 0i8, 0i8, 0i8), 0) == Some(second)
        }),
    ensures
        crate::bounds::bound_named(value, false, zone) == (if 0 <= second <= u32::MAX {
            Ok::<u32, BoundError>(second as u32)
        } else {
            Err(BoundError::OutOfRange)
        }),
{
}

/// A window starts at its first bound and ends at its second, each read as the side that it is; the
/// first that is refused is reported, and a missing one leaves its side open.
pub proof fn windows_have_their_sides(start: Seq<char>, end: Seq<char>, zone: Seq<char>)
    ensures
        ({
            let (a, b) = (
                crate::bounds::bound_named(start, false, zone),
                crate::bounds::bound_named(end, true, zone),
            );
            let both = crate::bounds::bounds_named(Some(start), Some(end), zone);
            &&& both is Ok <==> a is Ok && b is Ok
            &&& both is Ok ==> both->Ok_0.0 == Some(a->Ok_0) && both->Ok_0.1 == Some(b->Ok_0)
            &&& a is Err ==> both is Err && both->Err_0 == a->Err_0
            &&& a is Ok && b is Err ==> both is Err && both->Err_0 == b->Err_0
            &&& a is Ok ==> crate::bounds::bounds_named(Some(start), None, zone) == Ok::<
                (Option<u32>, Option<u32>),
                BoundError,
            >((Some(a->Ok_0), None))
            &&& b is Ok ==> crate::bounds::bounds_named(None, Some(end), zone) == Ok::<
                (Option<u32>, Option<u32>),
                BoundError,
            >((None, Some(b->Ok_0)))
        }),
        crate::bounds::bounds_named(None, None, zone) == Ok::<
            (Option<u32>, Option<u32>),
            BoundError,
        >((None, None)),
{
}

} // verus!
