//! What the calendar, the bounds of a window, and the answers of a gateway or a tool come to.
use vstd::prelude::*;

use crate::bounds::BoundError;
use crate::civil::{CivilDate, Zone};
use crate::ibkr::{Collector, Event, IbkrFailure, IbkrRequestError, Step};
use crate::interval::Interval;
use crate::mcp::root::{Component, Part, Root, RootError};
use crate::mcp::server::Recent;
use crate::session::Session;

verus! {

// ---- the calendar ------------------------------------------------------------------------

/// A 29th of February is a date in every fourth year but three centuries of four; a 30th in every
/// month but February; a 31st in seven of them.
pub proof fn months_have_their_days(year: int, month: int)
    requires
        -9_999 <= year <= 9_999,
        1 <= month <= 12,
    ensures
        crate::civil::is_date(year, month, 28),
        crate::civil::is_date(year, 2, 29) <==> year % 400 == 0 || (year % 4 == 0 && year % 100
            != 0),
        month != 2 ==> crate::civil::is_date(year, month, 29),
        crate::civil::is_date(year, month, 30) <==> month != 2,
        crate::civil::is_date(year, month, 31) <==> month == 1 || month == 3 || month == 5 || month
            == 7 || month == 8 || month == 10 || month == 12,
        !crate::civil::is_date(year, month, 32),
        !crate::civil::is_date(year, month, 0),
        !crate::civil::is_date(year, 13, 1),
        !crate::civil::is_date(year, 0, 1),
{
}

/// Days are numbered one after another, through the ends of months and years, and the first of 1970
/// is number zero.
pub proof fn days_follow_each_other(d: CivilDate)
    requires
        d.valid(),
    ensures
        ({
            let (y, m, day) = (d.year as int, d.month as int, d.day as int);
            &&& crate::civil::is_date(y, m, day + 1) ==> crate::civil::fields_number(y, m, day + 1)
                == d.number() + 1
            &&& !crate::civil::is_date(y, m, day + 1) && m < 12 ==> crate::civil::fields_number(
                y,
                m + 1,
                1,
            ) == d.number() + 1
            &&& !crate::civil::is_date(y, m, day + 1) && m == 12 ==> crate::civil::fields_number(
                y + 1,
                1,
                1,
            ) == d.number() + 1
            &&& crate::civil::fields_number(1970, 1, 1) == 0
        }),
{
    reveal(crate::civil::year_start);
}

/// A zone's date and minute are those that its clock shows, and an instant is the one at which its
/// clock shows the date, the hour and the minute.
pub proof fn zones_show_their_clock(
    zone: &Zone,
    time: u32,
    date: CivilDate,
    minute: u32,
    a: CivilDate,
    b: u32,
    c: Option<u32>,
)
    requires
        call_ensures(Zone::date_at, (zone, time), a),
        call_ensures(Zone::minute_at, (zone, time), b),
        call_ensures(Zone::instant, (zone, date, minute), c),
        minute < 1_440,
    ensures
        ({
            let f = crate::civil::local_fields(zone@, time as int)->0;
            let (year, month, day, hour, min, _) = f;
            &&& a.year == year && a.month == month && a.day == day
            &&& b == hour * 60 + min
        }),
        ({
            let h = (minute as int / 60) as i8;
            let m = (minute - 60 * h) as i8;
            let second = crate::civil::civil_second(
                zone@,
                (date.year, date.month, date.day, h, m, 0i8),
                0,
            );
            &&& c is Some <==> second is Some && 0 <= second->0 <= u32::MAX
            &&& c is Some ==> c->0 == second->0
        }),
{
}

// ---- windows -----------------------------------------------------------------------------

/// A window's start is read as a start and its end as an end; a side left out stays open, and a bad
/// start is reported before a bad end.
pub proof fn sides_are_read_on_their_own(
    start: Option<&str>,
    end: Option<&str>,
    zone: &Zone,
    r: Result<(Option<u32>, Option<u32>), BoundError>,
    a: Result<u32, BoundError>,
    b: Result<u32, BoundError>,
)
    requires
        call_ensures(crate::bounds::parse_bounds, (start, end, zone), r),
        start is Some ==> call_ensures(
            crate::bounds::parse_time_bound,
            (start->0, false, zone),
            a,
        ),
        end is Some ==> call_ensures(crate::bounds::parse_time_bound, (end->0, true, zone), b),
    ensures
        start is Some && a is Err ==> r is Err && r->Err_0 == a->Err_0,
        !(start is Some && a is Err) && end is Some && b is Err ==> r is Err && r->Err_0 == b->Err_0,
        !(start is Some && a is Err) && !(end is Some && b is Err) ==> r is Ok,
        r is Ok ==> ({
            let (from, to) = r->Ok_0;
            &&& from is Some <==> start is Some
            &&& to is Some <==> end is Some
            &&& start is Some ==> a is Ok && from->0 == a->Ok_0
            &&& end is Some ==> b is Ok && to->0 == b->Ok_0
        }),
{
}

/// Whatever is not a bare date is one instant, as a start and as an end, and one that a file cannot
/// hold is refused.
pub proof fn instants_are_read_alike(
    value: &str,
    zone: &Zone,
    a: Result<u32, BoundError>,
    b: Result<u32, BoundError>,
)
    requires
        call_ensures(crate::bounds::parse_time_bound, (value, false, zone), a),
        call_ensures(crate::bounds::parse_time_bound, (value, true, zone), b),
    ensures
        crate::civil::date_named(value@) is None || value@.contains(':') ==> a == b,
        ({
            let instant = crate::civil::instant_named(value@);
            &&& instant is Some ==> (a is Ok <==> 0 <= instant->0 <= u32::MAX)
            &&& instant is Some && a is Ok ==> a->Ok_0 == instant->0
            &&& instant is Some && a is Err ==> a->Err_0 == BoundError::OutOfRange
        }),
        a is Err && a->Err_0 == BoundError::Invalid ==> crate::civil::instant_named(value@) is None
            && crate::civil::reading_named(value@) is None && crate::bounds::epoch_named(value@)
            is None,
{
}

/// A word that looks like a bound is one that names an instant, a date-time, a date or an epoch
/// second.
pub proof fn bounds_are_told_by_what_they_name(value: &str, r: bool)
    requires
        call_ensures(crate::bounds::looks_like_bound, (value,), r),
    ensures
        crate::civil::instant_named(value@) is Some ==> r,
        crate::civil::reading_named(value@) is Some ==> r,
        crate::civil::date_named(value@) is Some ==> r,
        crate::bounds::epoch_named(value@) is Some ==> r,
        r ==> crate::civil::instant_named(value@) is Some || crate::civil::reading_named(value@)
            is Some || crate::civil::date_named(value@) is Some || crate::bounds::epoch_named(
            value@,
        ) is Some,
{
}

// ---- requests to a gateway ---------------------------------------------------------------

/// What comes in is collected in order, and counts as progress; a failure carries the connection it
/// was made on; a silence that ends the request hands over everything collected.
pub proof fn requests_collect_what_comes<T>(
    collector: Collector<T>,
    event: Event<T>,
    r: Step<T>,
    fresh: Collector<T>,
    generation: u64,
    epoch: u64,
    stall: Option<u64>,
)
    requires
        call_ensures(Collector::<T>::step, (collector, event), r),
        call_ensures(Collector::<T>::new, (generation, epoch, stall), fresh),
    ensures
        fresh.collected().len() == 0 && fresh.runs_against() == generation && fresh.began_in()
            == epoch && fresh.stalls_after() == stall,
        event is Data ==> r is Wait && r->Wait_1 && r->Wait_0.collected()
            == collector.collected().push(event->Data_0) && r->Wait_0.runs_against()
            == collector.runs_against() && r->Wait_0.began_in() == collector.began_in()
            && r->Wait_0.stalls_after() == collector.stalls_after(),
        event is Notice ==> r is Wait && r->Wait_1 && r->Wait_0 == collector,
        event is Failed ==> r is Failed && r->Failed_0.failure == IbkrFailure::Api(event->Failed_0)
            && r->Failed_0.generation == collector.runs_against(),
        event is Silence ==> ({
            let s = event->Silence_0;
            let stalls = collector.stalls_after();
            &&& s.waited_ms < 500 <==> r is Done
            &&& r is Done ==> r->Done_0@ == collector.collected()
            &&& r is Failed ==> r->Failed_0.generation == collector.runs_against()
            &&& s.waited_ms >= 500 && s.canceled ==> r is Failed && r->Failed_0.failure
                == IbkrFailure::Canceled
            &&& s.waited_ms >= 500 && !s.canceled && s.epoch != collector.began_in() ==> r is Failed
                && r->Failed_0.failure == IbkrFailure::Orphaned
            &&& s.waited_ms >= 500 && !s.canceled && s.epoch == collector.began_in() ==> (r is Failed
                <==> stalls is Some && s.idle_ms >= 1_000 * stalls->0)
            &&& s.waited_ms >= 500 && !s.canceled && s.epoch == collector.began_in() && r is Failed
                ==> r->Failed_0.failure == IbkrFailure::Stalled(stalls->0)
            &&& r is Wait ==> !r->Wait_1 && r->Wait_0 == collector
        }),
{
}

/// A failure says what it is; one of the gateway's client says what the client said.
pub proof fn failures_say_what_they_are(error: &IbkrRequestError, said: &str, r: String)
    requires
        call_ensures(IbkrRequestError::message, (error, said), r),
    ensures
        error.failure is Api ==> r@ == said@,
        error.failure == IbkrFailure::Orphaned ==> r@
            == "request orphaned by an IBKR connectivity loss"@,
        error.failure == IbkrFailure::Canceled ==> r@ == "request canceled"@,
        error.failure is Stalled ==> r@ == "request stalled with no response from IBKR for "@
            + crate::text::decimal(error.failure->Stalled_0 as nat) + "s"@,
{
}

// ---- answers of a tool -------------------------------------------------------------------

/// A path lies under the root where it begins with all of the root's components.
pub proof fn contained_paths_begin_with_the_root(
    root: &Root,
    canonical: &[Component],
    r: Result<(), RootError>,
    i: int,
)
    requires
        call_ensures(Root::ensure_contained, (root, canonical), r),
    ensures
        r is Ok ==> canonical@.len() >= root.path().len(),
        r is Ok && 0 <= i < root.path().len() ==> canonical@[i]@ == root.path()[i],
        r is Err && 0 <= i ==> canonical@.len() < root.path().len() || exists|k: int|
            0 <= k < root.path().len() && canonical@[k]@ != #[trigger] root.path()[k],
{
    let path = crate::mcp::root::parts(canonical@);
    let dir = root.path();
    assert(path.len() == canonical@.len());
    if r is Ok && 0 <= i < dir.len() {
        assert(path.take(dir.len() as int)[i] == path[i]);
    }
    if r is Err && path.len() >= dir.len() {
        let front = path.take(dir.len() as int);
        if forall|k: int| 0 <= k < dir.len() ==> canonical@[k]@ == #[trigger] dir[k] {
            assert forall|k: int| 0 <= k < dir.len() implies front[k] == dir[k] by {
                assert(front[k] == path[k] && path[k] == canonical@[k]@);
            }
            assert(front =~= dir);
        }
    }
}

/// Walking into a name adds it, staying adds nothing, and going up takes the last name off.
pub proof fn walks_go_step_by_step(from: Seq<Part>, name: Seq<char>)
    requires
        from.len() > 0,
    ensures
        crate::mcp::root::walked(from, Seq::empty()) == from,
        crate::mcp::root::walked(from, seq![Part::Normal(name)]) == from.push(Part::Normal(name)),
        crate::mcp::root::walked(from, seq![Part::CurDir]) == from,
        crate::mcp::root::walked(from, seq![Part::ParentDir]) == from.drop_last(),
{
    reveal_with_fuel(crate::mcp::root::walked, 2);
    assert(seq![Part::Normal(name)].drop_last() =~= Seq::<Part>::empty());
    assert(seq![Part::CurDir].drop_last() =~= Seq::<Part>::empty());
    assert(seq![Part::ParentDir].drop_last() =~= Seq::<Part>::empty());
}

/// A selection without repetitions stays as it is, and one that goes on begins as it did.
pub proof fn selections_keep_their_order(paths: Seq<Seq<char>>, more: Seq<Seq<char>>)
    ensures
        paths.no_duplicates() ==> crate::mcp::root::unique(paths) == paths,
        crate::mcp::root::unique(paths).is_prefix_of(crate::mcp::root::unique(paths + more)),
    decreases paths.len() + more.len(),
{
    if more.len() > 0 {
        selections_keep_their_order(paths, more.drop_last());
        assert((paths + more).drop_last() =~= paths + more.drop_last());
        assert((paths + more).last() == more.last());
        let a = crate::mcp::root::unique(paths);
        let b = crate::mcp::root::unique(paths + more.drop_last());
        let c = crate::mcp::root::unique(paths + more);
        assert(b.is_prefix_of(c));
        assert(a.is_prefix_of(c));
    } else {
        assert(paths + more =~= paths);
        if paths.len() > 0 && paths.no_duplicates() {
            let rest = paths.drop_last();
            assert(rest.no_duplicates());
            selections_keep_their_order(rest, more);
            assert(!rest.contains(paths.last())) by {
                if rest.contains(paths.last()) {
                    let k = choose|k: int| 0 <= k < rest.len() && rest[k] == paths.last();
                    assert(paths[k] == paths[paths.len() - 1]);
                }
            }
            assert(rest.push(paths.last()) =~= paths);
        }
    }
}

/// Some file has to be there, and just one where one is asked for.
pub proof fn files_are_counted(
    count: usize,
    a: Result<(), RootError>,
    b: Result<(), RootError>,
)
    requires
        call_ensures(crate::mcp::root::require_files, (count,), a),
        call_ensures(crate::mcp::root::single_file, (count,), b),
    ensures
        a is Ok <==> count >= 1,
        a is Err ==> a->Err_0 == RootError::Empty,
        b is Ok <==> count == 1,
        b is Err ==> b->Err_0 == RootError::ManyFiles(count),
{
}

/// The rows handed out are the last that came, in the order they came, no more than asked for, with
/// the count of all.
pub proof fn recent_rows_are_the_last<T>(recent: Recent<T>, r: (Vec<T>, usize), i: int)
    requires
        call_ensures(Recent::<T>::finish, (recent,), r),
        recent.keeps() >= 1,
    ensures
        ({
            let (rows, total) = r;
            &&& total == recent.all().len()
            &&& rows@.len() <= recent.keeps()
            &&& rows@.len() == recent.all().len() || rows@.len() == recent.keeps()
            &&& rows@.len() <= recent.all().len()
            &&& 0 <= i < rows@.len() ==> rows@[rows@.len() - 1 - i] == recent.all()[recent.all().len()
                - 1 - i]
        }),
{
}

/// The warning of an uneven interval names the interval, the hours it does not divide and their
/// length.
pub proof fn uneven_intervals_are_named(
    interval: Interval,
    session: &Session,
    use_rth: bool,
    r: Option<String>,
)
    requires
        call_ensures(
            crate::settings::warn_uneven_interval,
            (interval, session, use_rth),
            r,
        ),
    ensures
        r is Some && use_rth ==> r->0@ == "interval "@ + interval.token()
            + " does not evenly divide the "@ + "RTH"@ + " session ("@
            + crate::settings::session_length_text((session@.close - session@.open) * 60)
            + "); the last bar of each session will be shorter than the rest"@,
        r is Some && !use_rth ==> r->0@ == "interval "@ + interval.token()
            + " does not evenly divide the "@ + "extended-hours"@ + " session ("@
            + crate::settings::session_length_text((session@.close - session@.open) * 60)
            + "); the last bar of each session will be shorter than the rest"@,
{
}

/// What a letter of an image's text stands for.
pub open spec fn letter_value(c: char) -> int {
    if 'A' <= c <= 'Z' {
        c as int - 'A' as int
    } else if 'a' <= c <= 'z' {
        26 + (c as int - 'a' as int)
    } else if '0' <= c <= '9' {
        52 + (c as int - '0' as int)
    } else if c == '+' {
        62
    } else if c == '/' {
        63
    } else {
        0
    }
}

/// Each four letters of an image's text read back as its next three bytes, and padding fills the last
/// four.
pub proof fn image_letters_read_back(png: &Vec<u8>, r: String, k: int)
    requires
        call_ensures(crate::mcp::server::image_text, (png,), r),
        0 <= 3 * k < png@.len(),
    ensures
        r@.len() % 4 == 0,
        4 * k + 4 <= r@.len(),
        3 * k + 3 >= png@.len() ==> r@.len() == 4 * k + 4,
        ({
            let bits = letter_value(r@[4 * k]) * 262_144 + letter_value(r@[4 * k + 1]) * 4_096
                + letter_value(r@[4 * k + 2]) * 64 + letter_value(r@[4 * k + 3]);
            &&& bits / 65_536 == png@[3 * k]
            &&& 3 * k + 1 < png@.len() ==> (bits / 256) % 256 == png@[3 * k + 1]
            &&& 3 * k + 2 < png@.len() ==> bits % 256 == png@[3 * k + 2]
            &&& r@[4 * k + 2] == '=' <==> 3 * k + 1 >= png@.len()
            &&& r@[4 * k + 3] == '=' <==> 3 * k + 2 >= png@.len()
        }),
{
    let data = png@;
    let (x, y, z) = (
        data[3 * k] as int,
        crate::mcp::server::byte_or_zero(data, 3 * k + 1),
        crate::mcp::server::byte_or_zero(data, 3 * k + 2),
    );
    lemma_four_letters(data, k);
    lemma_bits(x, y, z);
}

proof fn lemma_four_letters(data: Seq<u8>, k: int)
    requires
        0 <= 3 * k < data.len(),
    ensures
        ({
            let text = crate::mcp::server::base64_text(data);
            let y = crate::mcp::server::byte_or_zero(data, 3 * k + 1);
            let z = crate::mcp::server::byte_or_zero(data, 3 * k + 2);
            let bits = data[3 * k] * 65_536 + y * 256 + z;
            &&& text.len() % 4 == 0
            &&& 4 * k + 4 <= text.len()
            &&& 3 * k + 3 >= data.len() ==> text.len() == 4 * k + 4
            &&& letter_value(text[4 * k]) == bits / 262_144
            &&& letter_value(text[4 * k + 1]) == (bits / 4_096) % 64
            &&& letter_value(text[4 * k + 2]) == (bits / 64) % 64
            &&& letter_value(text[4 * k + 3]) == bits % 64
            &&& text[4 * k + 2] == '=' <==> 3 * k + 1 >= data.len()
            &&& text[4 * k + 3] == '=' <==> 3 * k + 2 >= data.len()
        }),
{
    let text = crate::mcp::server::base64_text(data);
    let y = crate::mcp::server::byte_or_zero(data, 3 * k + 1);
    let z = crate::mcp::server::byte_or_zero(data, 3 * k + 2);
    let bits = data[3 * k] * 65_536 + y * 256 + z;
    assert((4 * k) / 4 == k && (4 * k + 1) / 4 == k && (4 * k + 2) / 4 == k && (4 * k + 3) / 4
        == k);
    assert(text[4 * k] == crate::mcp::server::base64_char(data, 4 * k));
    assert(text[4 * k + 1] == crate::mcp::server::base64_char(data, 4 * k + 1));
    assert(text[4 * k + 2] == crate::mcp::server::base64_char(data, 4 * k + 2));
    assert(text[4 * k + 3] == crate::mcp::server::base64_char(data, 4 * k + 3));
    assert(0 <= bits / 262_144 < 64);
    lemma_letter(bits / 262_144);
    lemma_letter((bits / 4_096) % 64);
    lemma_letter((bits / 64) % 64);
    lemma_letter(bits % 64);
}

proof fn lemma_bits(x: int, y: int, z: int)
    requires
        0 <= x < 256,
        0 <= y < 256,
        0 <= z < 256,
    ensures
        ({
            let bits = x * 65_536 + y * 256 + z;
            let back = (bits / 262_144) * 262_144 + ((bits / 4_096) % 64) * 4_096 + ((bits / 64)
                % 64) * 64 + bits % 64;
            &&& back / 65_536 == x
            &&& (back / 256) % 256 == y
            &&& back % 256 == z
        }),
{
    let bits = x * 65_536 + y * 256 + z;
    assert((bits / 64) / 64 == bits / 4_096);
    assert((bits / 4_096) / 64 == bits / 262_144);
    assert(bits == (bits / 64) * 64 + bits % 64);
}

proof fn lemma_letter(n: int)
    requires
        0 <= n < 64,
    ensures
        letter_value(crate::mcp::server::sextet_char(n)) == n,
        crate::mcp::server::sextet_char(n) != '=',
{
}

} // verus!
