//! Instants in UTC, and the text that a ledger entry carries for one.

use vstd::prelude::*;

verus! {

/// An instant: whole seconds since the Unix epoch and the nanoseconds on top.
#[derive(Debug, Clone, Copy)]
pub struct Timestamp {
    pub secs: i64,
    pub nanos: u32,
}

impl Timestamp {
    /// An instant within the years that `chrono` can represent.
    pub open spec fn valid(self) -> bool {
        &&& -8_334_601_228_800 <= self.secs <= 8_210_266_876_799
        &&& self.nanos < 1_000_000_000
    }

    /// The same instant without what is below a microsecond.
    pub open spec fn truncated(self) -> Timestamp {
        Timestamp { secs: self.secs, nanos: ((self.nanos / 1000) * 1000) as u32 }
    }

    /// Whole microseconds since the Unix epoch.
    pub open spec fn micros(self) -> int {
        self.secs * 1_000_000 + self.nanos / 1000
    }

    /// Drops what is below a microsecond.
    pub fn truncate(self) -> (r: Timestamp)
        ensures
            r == self.truncated(),
    {
        Timestamp { secs: self.secs, nanos: (self.nanos / 1000) * 1000 }
    }
}

/// The RFC 3339 text in UTC, with six digits of a second and a final `Z`, that
/// `chrono` prints for an instant given by its seconds and microseconds
/// (`DateTime::to_rfc3339_opts` with `SecondsFormat::Micros`).
pub uninterp spec fn rfc3339_micros(secs: int, micros: int) -> Seq<char>;

/// `DateTime::to_rfc3339_opts` with `SecondsFormat::Micros` on the instant that
/// `DateTime::from_timestamp` makes: a text of the seconds and the whole
/// microseconds. What is below a microsecond does not show in it.
#[verifier::external_body]
fn print_rfc3339(secs: i64, nanos: u32) -> (s: String)
    requires
        (Timestamp { secs, nanos }).valid(),
    ensures
        s@ == rfc3339_micros(secs as int, (nanos / 1000) as int),
{
    let instant: chrono::DateTime<chrono::Utc> = chrono::DateTime::from_timestamp(secs, nanos)
        .unwrap();
    instant.to_rfc3339_opts(chrono::SecondsFormat::Micros, true)
}

/// `Utc::now`: some instant that `chrono` can represent, not before the Unix
/// epoch. Which one it is rests on the clock. On a machine whose clock stands
/// before the epoch the call panics; it takes no argument that could rule that
/// out.
#[verifier::external_body]
fn utc_now() -> (t: Timestamp)
    ensures
        t.valid(),
        t.secs >= 0,
{
    let now = chrono::Utc::now();
    Timestamp { secs: now.timestamp(), nanos: now.timestamp_subsec_nanos() }
}

/// The current time in whole microseconds: Postgres `timestamptz` stores
/// microseconds, and the text of an instant must survive a round trip through
/// the database.
pub fn now_micros() -> (t: Timestamp)
    ensures
        t.valid(),
        t.secs >= 0,
        t.nanos % 1000 == 0,
{
    let now = utc_now();
    now.truncate()
}

/// The text of an instant: RFC 3339 in UTC with microseconds.
pub fn ts_string(ts: &Timestamp) -> (s: String)
    requires
        ts.valid(),
    ensures
        s@ == ts.text(),
{
    print_rfc3339(ts.secs, ts.nanos)
}

impl Timestamp {
    /// The text of the instant.
    pub open spec fn text(self) -> Seq<char> {
        rfc3339_micros(self.secs as int, (self.nanos / 1000) as int)
    }
}

/// Truncating to microseconds, as the database does, keeps an instant valid,
/// leaves its text as it is, and does nothing the second time.
pub proof fn law_text_survives_truncation(t: Timestamp)
    requires
        t.valid(),
    ensures
        t.truncated().valid(),
        t.truncated().nanos % 1000 == 0,
        t.truncated().text() == t.text(),
        t.truncated().micros() == t.micros(),
        t.truncated().truncated() == t.truncated(),
{
}

/// Truncating takes less than a microsecond away, from the nanoseconds alone.
pub proof fn law_truncating_takes_less_than_a_microsecond(t: Timestamp)
    ensures
        t.truncated().secs == t.secs,
        t.truncated().nanos <= t.nanos < t.truncated().nanos + 1000,
        t.truncated().nanos % 1000 == 0,
{
}

/// The text of an instant is that of its seconds and its whole microseconds.
pub proof fn law_the_text_shows_seconds_and_microseconds(t: Timestamp)
    ensures
        t.text() == rfc3339_micros(t.secs as int, t.nanos as int / 1000),
{
}

/// An instant is valid exactly if it lies from the beginning of the year -262143
/// to the end of the year 262142, with less than a second of nanoseconds.
pub proof fn law_valid_instants(t: Timestamp)
    ensures
        t.valid() <==> -8_334_601_228_800 <= t.secs <= 8_210_266_876_799 && t.nanos
            < 1_000_000_000,
{
}

} // verus!
