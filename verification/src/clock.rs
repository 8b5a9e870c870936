//! Instants, and what lies between them.

use vstd::prelude::*;

verus! {

/// The first second that `chrono::DateTime<Utc>` can hold.
pub const MIN_SECS: i64 = -8334601228800;

/// The last second that `chrono::DateTime<Utc>` can hold.
pub const MAX_SECS: i64 = 8210266876799;

/// An instant: seconds since the Unix epoch and nanoseconds within the second.
/// Nanoseconds from one billion on stand for a leap second.
#[derive(Debug, Clone, Copy, PartialEq, Eq, Structural)]
pub struct Timestamp {
    pub secs: i64,
    pub nanos: u32,
}

/// Whether `chrono` can hold the instant.
pub open spec fn instant_valid(secs: int, nanos: int) -> bool {
    &&& MIN_SECS <= secs <= MAX_SECS
    &&& 0 <= nanos
    &&& nanos < 1_000_000_000 || (nanos < 2_000_000_000 && secs % 60 == 59)
}

/// The instant `add` seconds later. A step out of a leap second lands in an
/// ordinary one.
pub open spec fn instant_plus(secs: int, nanos: int, add: int) -> Option<(int, int)> {
    let leaves_leap = nanos >= 1_000_000_000 && add != 0;
    let to_secs = secs + add + if leaves_leap && add < 0 {
        1int
    } else {
        0int
    };
    let to_nanos = if leaves_leap {
        nanos - 1_000_000_000
    } else {
        nanos
    };
    if instant_valid(secs, nanos) && MIN_SECS <= to_secs <= MAX_SECS {
        Some((to_secs, to_nanos))
    } else {
        None
    }
}

/// The text of an instant that `chrono` can hold, as RFC 3339 writes it.
pub uninterp spec fn rfc3339_text(secs: int, nanos: int) -> Seq<char>;

/// `chrono::Utc::now`, as seconds and nanoseconds. Of the clock's reading only
/// that `chrono` holds it, and that it is no leap second. The call does not
/// return where the machine's clock stands before the Unix epoch.
#[verifier::external_body]
fn utc_now_parts() -> (res: (i64, u32))
    ensures
        instant_valid(res.0 as int, res.1 as int),
        res.1 < 1_000_000_000,
{
    let now = chrono::Utc::now();
    (now.timestamp(), now.timestamp_subsec_nanos())
}

/// `chrono::DateTime::checked_add_signed` with a whole number of seconds:
/// the sum of the two, and nothing where `chrono` cannot hold either instant.
#[verifier::external_body]
fn chrono_plus(secs: i64, nanos: u32, add: i64) -> (res: Option<(i64, u32)>)
    ensures
        match res {
            Some(r) => instant_plus(secs as int, nanos as int, add as int) == Some(
                (r.0 as int, r.1 as int),
            ),
            None => instant_plus(secs as int, nanos as int, add as int) is None,
        },
{
    let start = chrono::DateTime::from_timestamp(secs, nanos)?;
    let delta = chrono::TimeDelta::try_seconds(add)?;
    let end = start.checked_add_signed(delta)?;
    Some((end.timestamp(), end.timestamp_subsec_nanos()))
}

/// `chrono::DateTime::to_rfc3339`. The text is named; there is one for every
/// instant that `chrono` can hold.
#[verifier::external_body]
fn chrono_rfc3339(secs: i64, nanos: u32) -> (res: Option<String>)
    ensures
        res is Some <==> instant_valid(secs as int, nanos as int),
        res matches Some(t) ==> t@ == rfc3339_text(secs as int, nanos as int),
{
    let at = chrono::DateTime::from_timestamp(secs, nanos)?;
    Some(at.to_rfc3339())
}

/// `n` seconds as a signed 64-bit number: from two to the sixty-third on the
/// number wraps round to a negative one.
pub open spec fn signed_secs_spec(n: u64) -> int {
    if n <= i64::MAX {
        n as int
    } else {
        n - 0x1_0000_0000_0000_0000
    }
}

pub fn signed_secs(n: u64) -> (res: i64)
    ensures
        res == signed_secs_spec(n),
{
    if n <= i64::MAX as u64 {
        n as i64
    } else {
        let over: u64 = n - 0x8000_0000_0000_0000;
        over as i64 + i64::MIN
    }
}

impl Timestamp {
    pub open spec fn valid(self) -> bool {
        instant_valid(self.secs as int, self.nanos as int)
    }

    /// Whether the instant comes before the other one.
    pub open spec fn before(self, other: Timestamp) -> bool {
        self.secs < other.secs || (self.secs == other.secs && self.nanos < other.nanos)
    }

    /// The instant `add` seconds later, where `chrono` can hold both.
    pub open spec fn plus_spec(self, add: int) -> Option<Timestamp> {
        match instant_plus(self.secs as int, self.nanos as int, add) {
            Some(r) => Some(Timestamp { secs: r.0 as i64, nanos: r.1 as u32 }),
            None => None,
        }
    }

    /// The text of the instant, where `chrono` can hold it.
    pub open spec fn rfc3339_spec(self) -> Option<Seq<char>> {
        if self.valid() {
            Some(rfc3339_text(self.secs as int, self.nanos as int))
        } else {
            None
        }
    }

    /// The current time. Nothing is said of it but that it is valid.
    pub fn now() -> (res: Timestamp)
        ensures
            res.valid(),
            res.nanos < 1_000_000_000,
    {
        let (secs, nanos) = utc_now_parts();
        Timestamp { secs, nanos }
    }

    pub fn is_before(&self, other: &Timestamp) -> (res: bool)
        ensures
            res == self.before(*other),
    {
        self.secs < other.secs || (self.secs == other.secs && self.nanos < other.nanos)
    }

    pub fn plus(&self, add: i64) -> (res: Option<Timestamp>)
        ensures
            res == self.plus_spec(add as int),
    {
        match chrono_plus(self.secs, self.nanos, add) {
            Some((secs, nanos)) => Some(Timestamp { secs, nanos }),
            None => None,
        }
    }

    pub fn to_rfc3339(&self) -> (res: Option<String>)
        ensures
            crate::text::opt_view(res) == self.rfc3339_spec(),
    {
        chrono_rfc3339(self.secs, self.nanos)
    }
}

/// Instants are ordered: one before another, and that one before a third, is
/// before the third; of two different instants one comes first.
pub proof fn law_instants_are_ordered(a: Timestamp, b: Timestamp, c: Timestamp)
    ensures
        !a.before(a),
        a.before(b) && b.before(c) ==> a.before(c),
        a.before(b) || b.before(a) || a == b,
{
}

/// A positive number of seconds always leads to a later instant.
pub proof fn law_plus_moves_forward(a: Timestamp, add: int)
    requires
        add > 0,
    ensures
        a.plus_spec(add) matches Some(b) ==> a.before(b) && b.valid(),
{
}

/// Seconds are counted: from an instant that is no leap second, the instant so
/// many seconds later has the same fraction, and there is one exactly where the
/// calendar reaches so far.
pub proof fn law_seconds_are_counted(a: Timestamp, n: int)
    requires
        a.valid(),
        a.nanos < 1_000_000_000,
    ensures
        a.plus_spec(n) is Some <==> MIN_SECS <= a.secs + n <= MAX_SECS,
        a.plus_spec(n) matches Some(b) ==> b.secs == a.secs + n && b.nanos == a.nanos,
{
}

} // verus!
