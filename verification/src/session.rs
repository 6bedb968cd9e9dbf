//! Trading sessions: a daily window of wall-clock time in an exchange's time zone.
use vstd::prelude::*;

use crate::civil::Zone;
use crate::text::chars_of;

verus! {

/// A daily trading window, such as 09:30 to 16:00 in New York.
#[derive(Debug)]
pub struct Session {
    zone: Zone,
    open: u32,
    close: u32,
}

/// Why a session cannot be built.
#[derive(Debug, Clone, Copy, PartialEq, Eq, Structural)]
pub enum SessionError {
    /// The time-zone database has no zone of that name.
    UnknownZone,
    /// The hours are not of the form `HH:MM-HH:MM`, or do not open before they close.
    BadHours,
}

/// What a session is: its zone, and the minutes of the day at which it opens and closes.
pub struct SessionModel {
    pub zone: Seq<char>,
    pub open: int,
    pub close: int,
}

/// The minute of the day that `HH:MM` at a position of the text stands for.
pub open spec fn clock_at(s: Seq<char>, at: int) -> Option<int> {
    let hour: int = crate::text::decimal_value(s.subrange(at, at + 2)) as int;
    let minute: int = crate::text::decimal_value(s.subrange(at + 3, at + 5)) as int;
    if crate::text::is_digit(s[at]) && crate::text::is_digit(s[at + 1]) && s[at + 2] == ':'
        && crate::text::is_digit(s[at + 3]) && crate::text::is_digit(s[at + 4]) && hour < 24
        && minute < 60 {
        Some(hour * 60 + minute)
    } else {
        None
    }
}

/// The opening and closing minutes that `HH:MM-HH:MM` stands for.
pub open spec fn hours_of(s: Seq<char>) -> Option<(int, int)> {
    if s.len() != 11 || s[5] != '-' {
        None
    } else {
        match (clock_at(s, 0), clock_at(s, 6)) {
            (Some(open), Some(close)) => if open < close {
                Some((open, close))
            } else {
                None
            },
            _ => None,
        }
    }
}

fn read_clock(s: &Vec<char>, at: usize) -> (r: Option<u32>)
    requires
        at <= 6,
        at + 5 <= s@.len(),
    ensures
        r is Some <==> clock_at(s@, at as int) is Some,
        r matches Some(m) ==> m < 1_440 && clock_at(s@, at as int) == Some(m as int),
{
    let a = s[at];
    let b = s[at + 1];
    let c = s[at + 3];
    let d = s[at + 4];
    let digits = '0' <= a && a <= '9' && '0' <= b && b <= '9' && '0' <= c && c <= '9' && '0' <= d
        && d <= '9';
    if !digits || s[at + 2] != ':' {
        return None;
    }
    let hour: u32 = (a as u32 - '0' as u32) * 10 + (b as u32 - '0' as u32);
    let minute: u32 = (c as u32 - '0' as u32) * 10 + (d as u32 - '0' as u32);
    proof {
        lemma_two_digits(s@, at as int);
        lemma_two_digits(s@, at + 3);
    }
    if hour < 24 && minute < 60 {
        Some(hour * 60 + minute)
    } else {
        None
    }
}

proof fn lemma_two_digits(s: Seq<char>, at: int)
    requires
        0 <= at,
        at + 2 <= s.len(),
        crate::text::is_digit(s[at]),
        crate::text::is_digit(s[at + 1]),
    ensures
        crate::text::decimal_value(s.subrange(at, at + 2)) == (s[at] as int - '0' as int) * 10 + (
        s[at + 1] as int - '0' as int),
{
    reveal_with_fuel(crate::text::decimal_value, 3);
    let t = s.subrange(at, at + 2);
    assert(t.drop_last().drop_last() =~= Seq::<char>::empty());
    assert(t.drop_last().last() == s[at]);
    assert(t.last() == s[at + 1]);
}

impl View for Session {
    type V = SessionModel;

    closed spec fn view(&self) -> SessionModel {
        SessionModel { zone: self.zone@, open: self.open as int, close: self.close as int }
    }
}

impl SessionModel {
    /// A session opens before it closes, within one day.
    pub open spec fn valid(self) -> bool {
        0 <= self.open < self.close < 1_440
    }

    /// The instant at which the session of an instant's local day opens.
    pub open spec fn open_at(self, time: int) -> Option<u32> {
        crate::civil::zone_instant(self.zone, crate::civil::zone_date(self.zone, time), self.open)
    }

    /// Whether an instant falls within the session: from its opening minute up to its closing one.
    pub open spec fn holds(self, time: int) -> bool {
        self.open <= crate::civil::zone_minute(self.zone, time) < self.close
    }
}

impl Session {
    #[verifier::type_invariant]
    pub open spec fn valid(&self) -> bool {
        self@.valid()
    }

    /// A session in the named zone, with hours such as `09:30-16:00`.
    pub fn new(zone: &str, hours: &str) -> (r: Result<Session, SessionError>)
        ensures
            !crate::civil::zone_known(zone@) ==> r == Err::<Session, SessionError>(
                SessionError::UnknownZone,
            ),
            crate::civil::zone_known(zone@) ==> match hours_of(hours@) {
                None => r == Err::<Session, SessionError>(SessionError::BadHours),
                Some((open, close)) => r matches Ok(s) && s@ == (SessionModel {
                    zone: zone@,
                    open,
                    close,
                }) && s.valid(),
            },
    {
        let zone = match Zone::get(zone) {
            Some(zone) => zone,
            None => return Err(SessionError::UnknownZone),
        };
        let s = chars_of(hours);
        if s.len() != 11 || s[5] != '-' {
            return Err(SessionError::BadHours);
        }
        match (read_clock(&s, 0), read_clock(&s, 6)) {
            (Some(open), Some(close)) => if open < close {
                Ok(Session { zone, open, close })
            } else {
                Err(SessionError::BadHours)
            },
            _ => Err(SessionError::BadHours),
        }
    }

    pub fn copy(&self) -> (r: Session)
        ensures
            r@ == self@,
    {
        proof {
            use_type_invariant(self);
        }
        Session { zone: self.zone.copy(), open: self.open, close: self.close }
    }

    /// The session's time zone.
    pub fn time_zone(&self) -> (r: Zone)
        ensures
            r@ == self@.zone,
    {
        self.zone.copy()
    }

    /// The instant at which the session of `time`'s local day opens; `None` when it is not a time
    /// that a file can hold.
    pub fn open_epoch(&self, time: u32) -> (r: Option<u32>)
        ensures
            r == self@.open_at(time as int),
    {
        proof {
            use_type_invariant(self);
        }
        self.zone.instant(self.zone.date_at(time), self.open)
    }

    /// How long the session lasts.
    pub fn length_seconds(&self) -> (r: u32)
        ensures
            r == (self@.close - self@.open) * 60,
            self@.valid(),
    {
        proof {
            use_type_invariant(self);
        }
        (self.close - self.open) * 60
    }

    /// Whether an instant falls within the session.
    pub fn contains(&self, time: u32) -> (r: bool)
        ensures
            r == self@.holds(time as int),
    {
        let minute: u32 = self.zone.minute_at(time);
        self.open <= minute && minute < self.close
    }
}

} // verus!
