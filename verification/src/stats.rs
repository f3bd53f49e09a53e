//! Site visit statistics: counting recorded visits within time windows and
//! rendering the statistics page.

use vstd::prelude::*;
use crate::text::{chars_of, decimal, decimal_of, string_from_chars};

verus! {

/// A point in time as seconds and nanoseconds since the Unix epoch.
#[derive(Debug, Clone, Copy, PartialEq, Eq, Structural)]
pub struct Moment {
    pub secs: u64,
    pub nanos: u32,
}

/// Nanoseconds from `t` to `now`.
pub open spec fn elapsed_nanos(t: Moment, now: Moment) -> int {
    (now.secs - t.secs) * 1_000_000_000 + (now.nanos - t.nanos)
}

/// How many of the visits lie less than `limit` seconds before `now`.
pub open spec fn count_within(visits: Seq<Moment>, now: Moment, limit: int) -> nat
    decreases visits.len(),
{
    if visits.len() == 0 {
        0
    } else {
        count_within(visits.drop_last(), now, limit) + if elapsed_nanos(visits.last(), now) < limit
            * 1_000_000_000 {
            1nat
        } else {
            0nat
        }
    }
}

/// The decimal digits of `n` as characters.
pub open spec fn decimal_chars(n: nat) -> Seq<char> {
    decimal(n).map_values(|b: u8| b as char)
}

/// The statistics page for the given counts.
pub open spec fn report_text(hour: nat, day: nat, total: nat) -> Seq<char> {
    "Site visits in the last hour: "@ + decimal_chars(hour) + "\nSite visits in the last 24h: "@
        + decimal_chars(day) + "\nSite visits since last system reboot: "@ + decimal_chars(total)
}

/// Recorded site visits.
pub struct SiteStats {
    visits: Vec<Moment>,
}

impl View for SiteStats {
    type V = Seq<Moment>;

    closed spec fn view(&self) -> Seq<Moment> {
        self.visits@
    }
}

fn append_chars(out: &mut Vec<char>, more: &Vec<char>)
    ensures
        final(out)@ == old(out)@ + more@,
{
    let ghost start = out@;
    let mut i: usize = 0;
    while i < more.len()
        invariant
            i <= more.len(),
            out@ == start + more@.take(i as int),
        decreases more.len() - i,
    {
        out.push(more[i]);
        assert(more@.take(i + 1) == more@.take(i as int).push(more@[i as int]));
        i = i + 1;
    }
    assert(more@.take(more.len() as int) == more@);
}

fn append_decimal(out: &mut Vec<char>, n: u64)
    ensures
        final(out)@ == old(out)@ + decimal_chars(n as nat),
{
    let digits = decimal_of(n);
    let ghost start = out@;
    let mut i: usize = 0;
    while i < digits.len()
        invariant
            i <= digits.len(),
            digits@ == decimal(n as nat),
            out@ == start + decimal_chars(n as nat).take(i as int),
        decreases digits.len() - i,
    {
        out.push(digits[i] as char);
        assert(decimal_chars(n as nat).take(i + 1) == decimal_chars(n as nat).take(i as int).push(digits@[i as int] as char));
        i = i + 1;
    }
    assert(decimal_chars(n as nat).take(digits.len() as int) == decimal_chars(n as nat));
}

impl SiteStats {
    pub fn new() -> (r: Self)
        ensures
            r@ == Seq::<Moment>::empty(),
    {
        SiteStats { visits: Vec::new() }
    }

    /// Records a visit at `at`.
    pub fn inc_site_visits(&mut self, at: Moment)
        ensures
            final(self)@ == old(self)@.push(at),
    {
        self.visits.push(at);
    }

    /// How many visits lie less than `limit` seconds before `now`; None
    /// where a visit lies after `now` (measuring its age fails there).
    fn count_recent(&self, now: Moment, limit: u64) -> (r: Option<usize>)
        ensures
            match r {
                Some(c) => c == count_within(self@, now, limit as int) && forall|i: int|
                    0 <= i < self@.len() ==> elapsed_nanos(#[trigger] self@[i], now) >= 0,
                None => exists|i: int| 0 <= i < self@.len() && elapsed_nanos(#[trigger] self@[i], now) < 0,
            },
    {
        let mut c: usize = 0;
        let mut i: usize = 0;
        while i < self.visits.len()
            invariant
                i <= self@.len(),
                c == count_within(self@.take(i as int), now, limit as int),
                c <= i,
                forall|k: int| 0 <= k < i ==> elapsed_nanos(#[trigger] self@[k], now) >= 0,
            decreases self@.len() - i,
        {
            let t = self.visits[i];
            let e: i128 = (now.secs as i128 - t.secs as i128) * 1_000_000_000 + (now.nanos as i128 - t.nanos as i128);
            assert(self@.take(i + 1).drop_last() == self@.take(i as int));
            assert(self@.take(i + 1).last() == t);
            if e < 0 {
                return None;
            }
            if e < (limit as i128) * 1_000_000_000 {
                c = c + 1;
            }
            i = i + 1;
        }
        assert(self@.take(self@.len() as int) == self@);
        Some(c)
    }

    /// The statistics page: visits in the last hour, in the last 24 hours,
    /// and in all. None where a recorded visit lies after `now` (processing
    /// aborts there).
    pub fn stats_handler(&self, now: Moment) -> (r: Option<String>)
        ensures
            match r {
                Some(s) => (forall|i: int| 0 <= i < self@.len() ==> elapsed_nanos(#[trigger] self@[i], now) >= 0)
                    && s@ == report_text(
                    count_within(self@, now, 3600),
                    count_within(self@, now, 86400),
                    self@.len(),
                ),
                None => exists|i: int| 0 <= i < self@.len() && elapsed_nanos(#[trigger] self@[i], now) < 0,
            },
    {
        let hour = match self.count_recent(now, 3600) {
            None => return None,
            Some(c) => c,
        };
        let day = match self.count_recent(now, 86400) {
            None => return None,
            Some(c) => c,
        };
        let total = self.visits.len();
        let mut out = chars_of("Site visits in the last hour: ");
        append_decimal(&mut out, hour as u64);
        append_chars(&mut out, &chars_of("\nSite visits in the last 24h: "));
        append_decimal(&mut out, day as u64);
        append_chars(&mut out, &chars_of("\nSite visits since last system reboot: "));
        append_decimal(&mut out, total as u64);
        Some(string_from_chars(&out))
    }
}

} // verus!
