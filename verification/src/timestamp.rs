//! Moments in time, as the library keeps them and as files write them.

use vstd::prelude::*;

use crate::text;

verus! {

/// A moment in UTC: whole seconds since the Unix epoch, and nanoseconds
/// within the second. A leap second is written as more than a thousand
/// million nanoseconds of the last second of its minute.
#[derive(Clone, Copy, Debug, PartialEq, Eq, Structural)]
pub struct Timestamp {
    pub secs: i64,
    pub nanos: u32,
}

impl Timestamp {
    /// The moment lies between the years -262143 and 262142, and its
    /// nanoseconds make a whole second only in a leap second.
    pub open spec fn valid(self) -> bool {
        &&& -8334601228800 <= self.secs <= 8210266876799
        &&& self.nanos < 1_000_000_000 || (self.nanos < 2_000_000_000 && self.secs as int % 60 == 59)
    }

    /// The year of the moment has four digits.
    pub open spec fn four_digit_year(self) -> bool {
        -62167219200 <= self.secs <= 253402300799
    }

    /// The present moment.
    pub fn current() -> (t: Self)
        ensures
            t.valid(),
    {
        utc_now()
    }
}

/// Calls `chrono::Utc::now`. Of the moment it returns only that chrono can
/// hold it is claimed. The call panics where the system clock stands before
/// 1970.
#[verifier::external_body]
fn utc_now() -> (t: Timestamp)
    ensures
        t.valid(),
{
    let t = chrono::Utc::now();
    Timestamp { secs: t.timestamp(), nanos: t.timestamp_subsec_nanos() }
}

/// What `chrono::DateTime::to_rfc3339` writes for the moment of these
/// seconds and nanoseconds.
pub uninterp spec fn rfc3339_text(secs: i64, nanos: u32) -> Seq<char>;

/// What `chrono::DateTime::parse_from_rfc3339` reads from a text: the
/// seconds and nanoseconds of the moment, or `None` where it fails.
pub uninterp spec fn rfc3339_parsed(s: Seq<char>) -> Option<(i64, u32)>;

/// Calls `chrono::DateTime::to_rfc3339`. The text is named; it is not empty
/// and has no white space, and where the year has four digits
/// `chrono::DateTime::parse_from_rfc3339` reads the same moment back.
#[verifier::external_body]
pub(crate) fn to_rfc3339(t: Timestamp) -> (r: String)
    requires
        t.valid(),
    ensures
        r@ == rfc3339_text(t.secs, t.nanos),
        r@.len() > 0,
        forall|i: int| 0 <= i < r@.len() ==> !text::is_white(#[trigger] r@[i]),
        t.four_digit_year() ==> rfc3339_parsed(r@) == Some((t.secs, t.nanos)),
{
    chrono::DateTime::from_timestamp(t.secs, t.nanos).unwrap().to_rfc3339()
}

/// Calls `chrono::DateTime::parse_from_rfc3339`. The moment is named, and is
/// one that chrono can hold.
#[verifier::external_body]
pub(crate) fn parse_rfc3339(s: &str) -> (r: Option<Timestamp>)
    ensures
        match r {
            Some(t) => rfc3339_parsed(s@) == Some((t.secs, t.nanos)) && t.valid(),
            None => rfc3339_parsed(s@) is None,
        },
{
    match chrono::DateTime::parse_from_rfc3339(s) {
        Ok(t) => Some(Timestamp { secs: t.timestamp(), nanos: t.timestamp_subsec_nanos() }),
        Err(_) => None,
    }
}

}
