//! Points in time, and their RFC 3339 text in a time zone.
//!
//! The library holds times as seconds and nanoseconds since the Unix epoch.
//! The offset of the local time zone at an instant is an environmental fact,
//! asked of a [`LocalZone`]; turning an instant and an offset into RFC 3339
//! text is `chrono`'s formatting.

use vstd::prelude::*;

verus! {

/// A point in time as the operating system reports it.
#[verifier::external_type_specification]
#[verifier::external_body]
pub struct ExSystemTime(std::time::SystemTime);

/// A point in time: whole seconds since the Unix epoch (negative before it)
/// and the nanoseconds within that second.
#[derive(Debug, Clone, Copy, PartialEq, Eq, Structural)]
pub struct Timestamp {
    pub secs: i64,
    pub nanos: u32,
}

/// How a system time lies against the Unix epoch: at or after it by
/// (seconds, nanoseconds), or before it by (seconds, nanoseconds).
#[derive(Debug, Clone, Copy, PartialEq, Eq, Structural)]
pub enum EpochDistance {
    After(u64, u32),
    Before(u64, u32),
}

/// The distance of the system time `t` from the Unix epoch, as
/// `std::time::SystemTime::duration_since(UNIX_EPOCH)` reports it.
pub uninterp spec fn epoch_distance(t: std::time::SystemTime) -> EpochDistance;

/// Calls `std::time::SystemTime::duration_since(UNIX_EPOCH)`, reading the
/// distance from `Ok` or, for a time before the epoch, from the error's
/// `duration()`.  The distance depends on the time alone and is named by
/// [`epoch_distance`]; `subsec_nanos` is documented to be below one second.
#[verifier::external_body]
fn since_epoch(t: std::time::SystemTime) -> (r: EpochDistance)
    ensures
        r == epoch_distance(t),
        match r {
            EpochDistance::After(_, n) => n < 1_000_000_000,
            EpochDistance::Before(_, n) => n < 1_000_000_000,
        },
{
    match t.duration_since(std::time::UNIX_EPOCH) {
        Ok(d) => EpochDistance::After(d.as_secs(), d.subsec_nanos()),
        Err(e) => EpochDistance::Before(e.duration().as_secs(), e.duration().subsec_nanos()),
    }
}

/// The timestamp at distance `d` from the epoch: a time before the epoch by
/// a fraction of a second counts from the whole second below it.  `None`
/// when the seconds do not fit in an `i64`.
pub open spec fn timestamp_at(d: EpochDistance) -> Option<Timestamp> {
    match d {
        EpochDistance::After(s, n) => if s <= i64::MAX {
            Some(Timestamp { secs: s as i64, nanos: n })
        } else {
            None
        },
        EpochDistance::Before(s, n) => if s > i64::MAX {
            None
        } else if n == 0 {
            Some(Timestamp { secs: (-s) as i64, nanos: 0 })
        } else {
            Some(Timestamp { secs: (-s - 1) as i64, nanos: (1_000_000_000 - n) as u32 })
        },
    }
}

/// A timestamp names the same instant as the distance it is made from: its
/// seconds and nanoseconds, counted from the epoch, add up to the distance
/// after the epoch, or to minus the distance before it, with the nanoseconds
/// below one second; there is one exactly when the seconds fit in an `i64`.
pub proof fn lemma_timestamp_same_instant(d: EpochDistance)
    requires
        match d {
            EpochDistance::After(_, n) => n < 1_000_000_000,
            EpochDistance::Before(_, n) => n < 1_000_000_000,
        },
    ensures
        match d {
            EpochDistance::After(s, n) => {
                &&& timestamp_at(d) is Some <==> s <= i64::MAX
                &&& timestamp_at(d) matches Some(ts) ==> ts.nanos < 1_000_000_000 && ts.secs
                    * 1_000_000_000 + ts.nanos == s * 1_000_000_000 + n
            },
            EpochDistance::Before(s, n) => {
                &&& timestamp_at(d) is Some <==> s <= i64::MAX
                &&& timestamp_at(d) matches Some(ts) ==> ts.nanos < 1_000_000_000 && ts.secs
                    * 1_000_000_000 + ts.nanos == -(s * 1_000_000_000 + n)
            },
        },
{
}

/// The timestamp at distance `d` from the Unix epoch (see [`timestamp_at`]).
pub fn timestamp_from_distance(d: EpochDistance) -> (r: Option<Timestamp>)
    requires
        match d {
            EpochDistance::After(_, n) => n < 1_000_000_000,
            EpochDistance::Before(_, n) => n < 1_000_000_000,
        },
    ensures
        r == timestamp_at(d),
        r matches Some(ts) ==> ts.nanos < 1_000_000_000,
{
    match d {
        EpochDistance::After(s, n) => if s <= 9_223_372_036_854_775_807u64 {
            Some(Timestamp { secs: s as i64, nanos: n })
        } else {
            None
        },
        EpochDistance::Before(s, n) => if s > 9_223_372_036_854_775_807u64 {
            None
        } else if n == 0 {
            Some(Timestamp { secs: -(s as i64), nanos: 0 })
        } else {
            Some(Timestamp { secs: -(s as i64) - 1, nanos: 1_000_000_000 - n })
        },
    }
}

/// The timestamp of a system time; `None` when its seconds do not fit in an
/// `i64`.
pub fn timestamp_of(t: std::time::SystemTime) -> (r: Option<Timestamp>)
    ensures
        r == timestamp_at(epoch_distance(t)),
        r matches Some(ts) ==> ts.nanos < 1_000_000_000,
{
    timestamp_from_distance(since_epoch(t))
}

/// Where the offset from UTC of local time comes from.
///
/// The offset of the machine's local time zone at an instant depends on the
/// environment; a provider may say which answers it gives.
pub trait LocalZone {
    /// `offset` is a possible answer, in seconds east of UTC, for the instant
    /// `ts`.  Unless a zone says more, any answer is.
    open spec fn offset_outcome(&self, ts: Timestamp, offset: Option<i32>) -> bool {
        true
    }

    /// The offset of local time from UTC at `ts`, in seconds east of UTC, or
    /// `None` when it cannot be determined.
    fn offset_at(&self, ts: Timestamp) -> (r: Option<i32>)
        ensures
            self.offset_outcome(ts, r),
    ;
}

/// A time zone with a fixed offset from UTC.
#[derive(Debug, Clone, Copy)]
pub struct FixedZone {
    /// Seconds east of UTC.
    pub offset_seconds: i32,
}

impl LocalZone for FixedZone {
    open spec fn offset_outcome(&self, ts: Timestamp, offset: Option<i32>) -> bool {
        offset == Some(self.offset_seconds)
    }

    fn offset_at(&self, ts: Timestamp) -> (r: Option<i32>) {
        Some(self.offset_seconds)
    }
}

/// Whether `chrono::DateTime::from_timestamp` accepts these seconds and
/// nanoseconds (the instant lies within chrono's range).
pub uninterp spec fn utc_timestamp_valid(secs: int, nanos: int) -> bool;

/// The RFC 3339 text `chrono` writes (`to_rfc3339`) for the instant
/// (`secs`, `nanos`) shown at the fixed offset `offset` seconds east of UTC.
pub uninterp spec fn rfc3339_text(secs: int, nanos: int, offset: int) -> Seq<char>;

/// Writes the instant `ts` at the fixed offset `offset` as RFC 3339 text:
/// `chrono::FixedOffset::east_opt` (documented to accept exactly offsets of
/// less than a day), `chrono::DateTime::from_timestamp` (which returns `None`
/// out of range instead of panicking), then `to_rfc3339`.
#[verifier::external_body]
fn rfc3339_at(ts: Timestamp, offset: i32) -> (r: Option<String>)
    ensures
        r is Some <==> (-86400 < offset < 86400 && utc_timestamp_valid(ts.secs as int, ts.nanos as int)),
        r matches Some(s) ==> s@ == rfc3339_text(ts.secs as int, ts.nanos as int, offset as int),
{
    let zone = chrono::FixedOffset::east_opt(offset)?;
    let utc = chrono::DateTime::from_timestamp(ts.secs, ts.nanos)?;
    Some(utc.with_timezone(&zone).to_rfc3339())
}

/// `r` is the local-time text of `t` for the zone answer `offset`.
pub open spec fn text_for_offset(ts: Timestamp, offset: Option<i32>, r: Option<String>) -> bool {
    match offset {
        None => r is None,
        Some(off) => if -86400 < off < 86400 && utc_timestamp_valid(ts.secs as int, ts.nanos as int) {
            r matches Some(s) && s@ == rfc3339_text(ts.secs as int, ts.nanos as int, off as int)
        } else {
            r is None
        },
    }
}

/// `r` is the RFC 3339 local-time text of `t` for some answer that `zone`
/// may give: nothing without a time, or when the zone gives no offset or the
/// instant or offset is out of range.
pub open spec fn local_text_of<Z: LocalZone>(zone: &Z, t: Option<Timestamp>, r: Option<String>) -> bool {
    match t {
        None => r is None,
        Some(ts) => exists|o: Option<i32>|
            #[trigger] zone.offset_outcome(ts, o) && text_for_offset(ts, o, r),
    }
}

/// Format a time as an RFC 3339 string in the local time zone `zone`.
pub fn local_time_text<Z: LocalZone>(zone: &Z, t: Option<Timestamp>) -> (r: Option<String>)
    ensures
        local_text_of(zone, t, r),
{
    match t {
        None => None,
        Some(ts) => {
            let o = zone.offset_at(ts);
            let r = match o {
                None => None,
                Some(off) => rfc3339_at(ts, off),
            };
            assert(zone.offset_outcome(ts, o) && text_for_offset(ts, o, r));
            r
        },
    }
}

} // verus!
