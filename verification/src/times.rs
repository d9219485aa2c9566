//! Times of day and half-open availability intervals, as the booking
//! site prints them: "HH:MM" and "HH:MM - HH:MM".

use vstd::prelude::*;
use crate::digits::{dec_digit, digit_of, digit_val, is_dec_digit, push_digit};

verus! {

/// A time of day, counted in minutes since midnight.
#[derive(Clone, Copy, Debug, PartialEq, Eq, Structural)]
pub struct Time {
    pub minutes: u16,
}

impl Time {
    /// A time of day lies strictly inside one day.
    pub open spec fn wf(self) -> bool {
        self.minutes < 1440
    }
}

/// One advertised availability window for a court, start and end on the
/// same day, the start never after the end.
#[derive(Clone, Copy, Debug, PartialEq, Eq, Structural)]
pub struct TimeInterval {
    pub start: Time,
    pub end: Time,
}

impl TimeInterval {
    pub open spec fn wf(self) -> bool {
        self.start.wf() && self.end.wf() && self.start.minutes <= self.end.minutes
    }
}

/// True when `s` is exactly "HH:MM" with a valid 24-hour reading.
pub open spec fn spec_time_valid(s: Seq<char>) -> bool {
    &&& s.len() == 5
    &&& is_dec_digit(s[0])
    &&& is_dec_digit(s[1])
    &&& s[2] == ':'
    &&& is_dec_digit(s[3])
    &&& is_dec_digit(s[4])
    &&& digit_val(s[0]) * 10 + digit_val(s[1]) < 24
    &&& digit_val(s[3]) * 10 + digit_val(s[4]) < 60
}

/// Minutes since midnight read from a valid "HH:MM" text.
pub open spec fn spec_time_minutes(s: Seq<char>) -> int {
    ((digit_val(s[0]) * 10 + digit_val(s[1])) * 60 + digit_val(s[3]) * 10 + digit_val(s[4])) as int
}

/// True when `s` is exactly "HH:MM - HH:MM", both times valid, and the
/// first not after the second.
pub open spec fn spec_interval_valid(s: Seq<char>) -> bool {
    &&& s.len() == 13
    &&& spec_time_valid(s.subrange(0, 5))
    &&& s[5] == ' '
    &&& s[6] == '-'
    &&& s[7] == ' '
    &&& spec_time_valid(s.subrange(8, 13))
    &&& spec_time_minutes(s.subrange(0, 5)) <= spec_time_minutes(s.subrange(8, 13))
}

/// The interval read from a valid "HH:MM - HH:MM" text.
pub open spec fn spec_interval_of(s: Seq<char>) -> TimeInterval {
    TimeInterval {
        start: Time { minutes: spec_time_minutes(s.subrange(0, 5)) as u16 },
        end: Time { minutes: spec_time_minutes(s.subrange(8, 13)) as u16 },
    }
}

/// Rendering of a time of day as "HH:MM", both parts zero-padded.
pub open spec fn spec_render_time(t: Time) -> Seq<char> {
    seq![
        dec_digit(t.minutes as int / 60 / 10),
        dec_digit(t.minutes as int / 60 % 10),
        ':',
        dec_digit(t.minutes as int % 60 / 10),
        dec_digit(t.minutes as int % 60 % 10),
    ]
}

/// Rendering of an interval as "HH:MM - HH:MM".
pub open spec fn spec_render_interval(iv: TimeInterval) -> Seq<char> {
    spec_render_time(iv.start) + seq![' ', '-', ' '] + spec_render_time(iv.end)
}

impl Time {
    /// Parses "HH:MM" in 24-hour form. Returns the time exactly when the
    /// text has that shape and names a real time of day.
    pub fn parse(s: &str) -> (r: Option<Time>)
        ensures
            r is Some <==> spec_time_valid(s@),
            spec_time_valid(s@) ==> r == Some(Time { minutes: spec_time_minutes(s@) as u16 })
                && spec_time_minutes(s@) < 1440,
    {
        let n = s.unicode_len();
        if n != 5 {
            return None;
        }
        if s.get_char(2) != ':' {
            return None;
        }
        let h1 = match digit_of(s.get_char(0)) {
            Some(d) => d,
            None => { return None; },
        };
        let h2 = match digit_of(s.get_char(1)) {
            Some(d) => d,
            None => { return None; },
        };
        let m1 = match digit_of(s.get_char(3)) {
            Some(d) => d,
            None => { return None; },
        };
        let m2 = match digit_of(s.get_char(4)) {
            Some(d) => d,
            None => { return None; },
        };
        let hours: u16 = h1 as u16 * 10 + h2 as u16;
        let mins: u16 = m1 as u16 * 10 + m2 as u16;
        if hours >= 24 || mins >= 60 {
            return None;
        }
        Some(Time { minutes: hours * 60 + mins })
    }

    /// Appends this time as "HH:MM" to `out`.
    pub fn push_render(&self, out: &mut String)
        requires
            self.wf(),
        ensures
            final(out)@ == old(out)@ + spec_render_time(*self),
    {
        let h = self.minutes / 60;
        let m = self.minutes % 60;
        push_digit(out, (h / 10) as u8);
        push_digit(out, (h % 10) as u8);
        proof { reveal_strlit(":"); }
        out.append(":");
        push_digit(out, (m / 10) as u8);
        push_digit(out, (m % 10) as u8);
        proof {
            assert(final(out)@ =~= old(out)@ + spec_render_time(*self));
        }
    }

    /// This time as an "HH:MM" string.
    pub fn render(&self) -> (r: String)
        requires
            self.wf(),
        ensures
            r@ == spec_render_time(*self),
    {
        let mut r = String::new();
        self.push_render(&mut r);
        proof {
            assert(r@ =~= spec_render_time(*self));
        }
        r
    }
}

impl TimeInterval {
    /// Parses "HH:MM - HH:MM". Returns the interval exactly when both
    /// endpoints parse and the end does not precede the start; a text
    /// whose end lies before its start is flagged as invalid.
    pub fn parse(s: &str) -> (r: Option<TimeInterval>)
        ensures
            r is Some <==> spec_interval_valid(s@),
            spec_interval_valid(s@) ==> r == Some(spec_interval_of(s@)) && spec_interval_of(
                s@,
            ).wf(),
    {
        let n = s.unicode_len();
        if n != 13 {
            return None;
        }
        if s.get_char(5) != ' ' || s.get_char(6) != '-' || s.get_char(7) != ' ' {
            return None;
        }
        let start = match Time::parse(s.substring_char(0, 5)) {
            Some(t) => t,
            None => { return None; },
        };
        let end = match Time::parse(s.substring_char(8, 13)) {
            Some(t) => t,
            None => { return None; },
        };
        if start.minutes > end.minutes {
            return None;
        }
        Some(TimeInterval { start, end })
    }

    /// Appends this interval as "HH:MM - HH:MM" to `out`.
    pub fn push_render(&self, out: &mut String)
        requires
            self.wf(),
        ensures
            final(out)@ == old(out)@ + spec_render_interval(*self),
    {
        self.start.push_render(out);
        proof { reveal_strlit(" - "); }
        out.append(" - ");
        self.end.push_render(out);
        proof {
            assert(final(out)@ =~= old(out)@ + spec_render_interval(*self));
        }
    }

    /// This interval as an "HH:MM - HH:MM" string.
    pub fn render(&self) -> (r: String)
        requires
            self.wf(),
        ensures
            r@ == spec_render_interval(*self),
    {
        let mut r = String::new();
        self.push_render(&mut r);
        proof {
            assert(r@ =~= spec_render_interval(*self));
        }
        r
    }
}

/// The compaction of a run of intervals: wherever one interval ends
/// exactly where its successor starts, the two fuse into one; order is
/// otherwise kept.
pub open spec fn spec_compact(s: Seq<TimeInterval>) -> Seq<TimeInterval>
    decreases s.len(),
{
    if s.len() <= 1 {
        s
    } else if s[0].end == s[1].start {
        spec_compact(seq![TimeInterval { start: s[0].start, end: s[1].end }] + s.skip(2))
    } else {
        seq![s[0]] + spec_compact(s.skip(1))
    }
}

/// Fuses adjacent intervals of one court into single spans. The
/// schedule parser keeps the site's blocks exactly as published, so a
/// booking spanning two half-hour blocks appears as two result lines;
/// a caller who wants one line per contiguous span applies this first.
pub fn compact_timespans(spans: &Vec<TimeInterval>) -> (r: Vec<TimeInterval>)
    requires
        forall|i: int| 0 <= i < spans@.len() ==> (#[trigger] spans@[i]).wf(),
    ensures
        r@ == spec_compact(spans@),
        forall|i: int| 0 <= i < r@.len() ==> (#[trigger] r@[i]).wf(),
{
    let mut r: Vec<TimeInterval> = Vec::new();
    if spans.len() == 0 {
        proof {
            assert(r@ =~= spec_compact(spans@));
        }
        return r;
    }
    let mut cur = spans[0];
    let mut i: usize = 1;
    proof {
        assert(seq![cur] + spans@.skip(1) =~= spans@);
        assert(r@ + spec_compact(spans@) =~= spec_compact(spans@));
    }
    while i < spans.len()
        invariant
            1 <= i <= spans@.len(),
            forall|k: int| 0 <= k < spans@.len() ==> (#[trigger] spans@[k]).wf(),
            cur.wf(),
            forall|k: int| 0 <= k < r@.len() ==> (#[trigger] r@[k]).wf(),
            spec_compact(spans@) == r@ + spec_compact(seq![cur] + spans@.skip(i as int)),
        decreases spans@.len() - i,
    {
        let nxt = spans[i];
        let ghost pending = seq![cur] + spans@.skip(i as int);
        proof {
            assert(pending.len() >= 2);
            assert(pending[0] == cur);
            assert(pending[1] == spans@[i as int]);
        }
        if cur.end.minutes == nxt.start.minutes {
            proof {
                assert(cur.end == nxt.start);
                assert(pending.skip(2) =~= spans@.skip(i as int + 1));
                assert(seq![TimeInterval { start: cur.start, end: nxt.end }] + pending.skip(2)
                    =~= seq![TimeInterval { start: cur.start, end: nxt.end }] + spans@.skip(
                    i as int + 1,
                ));
            }
            cur = TimeInterval { start: cur.start, end: nxt.end };
        } else {
            proof {
                assert(cur.end != nxt.start);
                assert(pending.skip(1) =~= spans@.skip(i as int));
                assert(spec_compact(pending) == seq![cur] + spec_compact(spans@.skip(i as int)));
                assert(spans@.skip(i as int) =~= seq![nxt] + spans@.skip(i as int + 1));
                assert((r@ + seq![cur]) + spec_compact(seq![nxt] + spans@.skip(i as int + 1))
                    =~= r@ + (seq![cur] + spec_compact(seq![nxt] + spans@.skip(i as int + 1))));
            }
            r.push(cur);
            cur = nxt;
        }
        i = i + 1;
    }
    proof {
        assert(seq![cur] + spans@.skip(spans@.len() as int) =~= seq![cur]);
    }
    r.push(cur);
    proof {
        assert(r@ =~= spec_compact(spans@));
    }
    r
}

} // verus!
