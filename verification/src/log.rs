//! A log file, because the daemon has no console.
//!
//! The tray daemon has nowhere to print, so without a log a refused change during
//! a hotkey's action would vanish. Lines go to the console as well, where there is
//! one. The file is the caller's: this module decides what goes into it.

use vstd::prelude::*;
use vstd::string::*;

use crate::text::{
    cat3, cat5, digits_value, law_padded_reads_back, lemma_padded_width, padded, padded_text,
    ten_to,
};

verus! {

/// Rotate at a megabyte, keeping one older generation. Steady state is a couple of
/// lines per hotkey press, so the only way to reach this is something going wrong
/// repeatedly, which is when the recent lines are the ones worth having.
pub const MAX_BYTES: u64 = 1048576;

/// A moment, as the clock on the wall shows it.
#[derive(Debug, Clone, Copy, PartialEq, Eq, Structural)]
pub struct LocalTime {
    pub year: u16,
    pub month: u16,
    pub day: u16,
    pub hour: u16,
    pub minute: u16,
    pub second: u16,
}

impl LocalTime {
    /// The moment in words: well enough to line up against something else that
    /// happened.
    pub open spec fn text(self) -> Seq<char> {
        padded(self.year as nat, 4) + "-"@ + padded(self.month as nat, 2) + "-"@ + padded(
            self.day as nat,
            2,
        ) + " "@ + padded(self.hour as nat, 2) + ":"@ + padded(self.minute as nat, 2) + ":"@
            + padded(self.second as nat, 2)
    }

    /// The moment in words.
    pub fn stamp(&self) -> (r: String)
        ensures
            r@ == self.text(),
    {
        let year = padded_text(self.year as u32, 4);
        let month = padded_text(self.month as u32, 2);
        let day = padded_text(self.day as u32, 2);
        let hour = padded_text(self.hour as u32, 2);
        let minute = padded_text(self.minute as u32, 2);
        let second = padded_text(self.second as u32, 2);
        let date = cat5(year.as_str(), "-", month.as_str(), "-", day.as_str());
        let clock = cat5(hour.as_str(), ":", minute.as_str(), ":", second.as_str());
        let out = cat3(date.as_str(), " ", clock.as_str());
        assert(out@ =~= self.text());
        out
    }
}

/// Whether the log is to be moved aside before the next line, given its size, if
/// it is there.
pub fn rotate(len: Option<u64>) -> (r: bool)
    ensures
        r == (len matches Some(n) && n >= MAX_BYTES),
{
    match len {
        Some(n) => n >= MAX_BYTES,
        None => false,
    }
}

/// The mark that a fresh log starts with. Without it what reads the file takes it
/// for the system code page, and shows dashes as something else.
pub open spec fn byte_order_mark() -> Seq<u8> {
    seq![0xEF, 0xBB, 0xBF]
}

/// What goes into the log before a line, given the log's size, if it is there.
pub fn preamble(len: Option<u64>) -> (r: Vec<u8>)
    ensures
        r@ == if len matches Some(n) && n > 0 {
            Seq::<u8>::empty()
        } else {
            byte_order_mark()
        },
{
    let mut out: Vec<u8> = Vec::new();
    let fresh = match len {
        Some(n) => n == 0,
        None => true,
    };
    if fresh {
        out.push(0xEF);
        out.push(0xBB);
        out.push(0xBF);
        assert(out@ =~= byte_order_mark());
    }
    out
}

/// A line of the log: when, and what. The console gets the line alone, so that
/// what is printed for another program to read stays readable.
pub fn entry(at: &LocalTime, line: &str) -> (r: String)
    ensures
        r@ == at.text() + " "@ + line@,
{
    let stamp = at.stamp();
    cat3(stamp.as_str(), " ", line)
}

/// Moments take up the same room on every line, so that what follows them lines
/// up.
pub proof fn law_moments_have_one_width(t: LocalTime)
    requires
        t.year < 10000,
        t.month < 100,
        t.day < 100,
        t.hour < 100,
        t.minute < 100,
        t.second < 100,
    ensures
        t.text().len() == 19,
{
    reveal_strlit("-");
    reveal_strlit(" ");
    reveal_strlit(":");
    reveal_with_fuel(ten_to, 5);
    lemma_padded_width(t.year as nat, 4);
    lemma_padded_width(t.month as nat, 2);
    lemma_padded_width(t.day as nat, 2);
    lemma_padded_width(t.hour as nat, 2);
    lemma_padded_width(t.minute as nat, 2);
    lemma_padded_width(t.second as nat, 2);
}

/// A moment reads back: the year, the month and the day, then the hour, the minute and
/// the second, with what is usual between them. So later moments of equal width sort
/// behind earlier ones.
pub proof fn law_a_moment_reads_back(t: LocalTime)
    requires
        t.year < 10000,
        t.month < 100,
        t.day < 100,
        t.hour < 100,
        t.minute < 100,
        t.second < 100,
    ensures
        ({
            let s = t.text();
            &&& s.len() == 19
            &&& s[4] == '-' && s[7] == '-' && s[10] == ' ' && s[13] == ':' && s[16] == ':'
            &&& digits_value(s.subrange(0, 4), 10) == t.year
            &&& digits_value(s.subrange(5, 7), 10) == t.month
            &&& digits_value(s.subrange(8, 10), 10) == t.day
            &&& digits_value(s.subrange(11, 13), 10) == t.hour
            &&& digits_value(s.subrange(14, 16), 10) == t.minute
            &&& digits_value(s.subrange(17, 19), 10) == t.second
        }),
{
    law_moments_have_one_width(t);
    reveal_strlit("-");
    reveal_strlit(" ");
    reveal_strlit(":");
    reveal_with_fuel(ten_to, 5);
    lemma_padded_width(t.year as nat, 4);
    lemma_padded_width(t.month as nat, 2);
    lemma_padded_width(t.day as nat, 2);
    lemma_padded_width(t.hour as nat, 2);
    lemma_padded_width(t.minute as nat, 2);
    lemma_padded_width(t.second as nat, 2);
    law_padded_reads_back(t.year as nat, 4);
    law_padded_reads_back(t.month as nat, 2);
    law_padded_reads_back(t.day as nat, 2);
    law_padded_reads_back(t.hour as nat, 2);
    law_padded_reads_back(t.minute as nat, 2);
    law_padded_reads_back(t.second as nat, 2);
    let s = t.text();
    assert(s.subrange(0, 4) =~= padded(t.year as nat, 4));
    assert(s.subrange(5, 7) =~= padded(t.month as nat, 2));
    assert(s.subrange(8, 10) =~= padded(t.day as nat, 2));
    assert(s.subrange(11, 13) =~= padded(t.hour as nat, 2));
    assert(s.subrange(14, 16) =~= padded(t.minute as nat, 2));
    assert(s.subrange(17, 19) =~= padded(t.second as nat, 2));
}

/// The mark that a fresh log starts with is the one for UTF-8, and a log is moved aside
/// at a megabyte.
pub proof fn law_a_log_is_marked_and_bounded()
    ensures
        byte_order_mark() == seq![0xEFu8, 0xBBu8, 0xBFu8],
        MAX_BYTES == 1024 * 1024,
{
}

/// A log is moved aside exactly once it has reached a megabyte, and gets its mark exactly
/// while there is nothing in it. A line stands behind its moment.
pub proof fn law_a_log_is_kept(
    len: Option<u64>,
    at: &LocalTime,
    line: &str,
    aside: bool,
    mark: Vec<u8>,
    written: String,
)
    requires
        call_ensures(rotate, (len,), aside),
        call_ensures(preamble, (len,), mark),
        call_ensures(entry, (at, line), written),
    ensures
        aside <==> (len matches Some(n) && n >= 1024 * 1024),
        mark@.len() > 0 <==> len is None || len == Some(0u64),
        mark@.len() > 0 ==> mark@ == seq![0xEFu8, 0xBBu8, 0xBFu8],
        written@ == at.text() + " "@ + line@,
{
}

} // verus!
