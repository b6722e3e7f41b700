use vstd::prelude::*;

verus! {

/// Largest distance from the epoch, in seconds, that a timestamp may have
/// (about 34,000 years, well inside what the calendar code supports).
pub const STAMP_MAX: i64 = 1099511627776;

/// Seconds in a day; a fixed offset from UTC stays strictly inside it.
pub const DAY_SECS: i64 = 86400;

/// An instant with the UTC offset it was observed in.
#[derive(Debug, Clone, Copy, PartialEq, Eq, Structural)]
pub struct Stamp {
    /// Seconds since 1970-01-01T00:00:00Z.
    pub secs: i64,
    /// Local time minus UTC, in seconds.
    pub offset: i32,
}

/// The RFC 3339 text of an instant at an offset, as chrono writes it.
pub uninterp spec fn rfc3339_text(secs: int, offset: int) -> Seq<char>;

/// What chrono reads from an RFC 3339 text: seconds since the epoch and offset.
pub uninterp spec fn rfc3339_value(s: Seq<char>) -> Option<(i64, i32)>;

/// The local calendar date `YYYY-MM-DD` of an instant at an offset, as chrono writes it.
pub uninterp spec fn ymd_text(secs: int, offset: int) -> Seq<char>;

/// The local date and time `YYYY-MM-DD HH:MM:SS` of an instant at an offset, as chrono writes it.
pub uninterp spec fn ymd_hms_text(secs: int, offset: int) -> Seq<char>;

/// Relies on chrono's `DateTime::format("%Y-%m-%d %H:%M:%S")` at a fixed offset.
#[verifier::external_body]
fn format_ymd_hms(secs: i64, offset: i32) -> (r: String)
    requires
        -STAMP_MAX <= secs <= STAMP_MAX,
        -DAY_SECS < offset < DAY_SECS,
    ensures
        r@ == ymd_hms_text(secs as int, offset as int),
{
    let off = chrono::FixedOffset::east_opt(offset).unwrap();
    let utc = chrono::DateTime::from_timestamp(secs, 0).unwrap();
    utc.with_timezone(&off).format("%Y-%m-%d %H:%M:%S").to_string()
}

/// Relies on chrono's `DateTime::to_rfc3339_opts` (whole seconds, numeric offset).
#[verifier::external_body]
fn format_rfc3339(secs: i64, offset: i32) -> (r: String)
    requires
        -STAMP_MAX <= secs <= STAMP_MAX,
        -DAY_SECS < offset < DAY_SECS,
    ensures
        r@ == rfc3339_text(secs as int, offset as int),
{
    let off = chrono::FixedOffset::east_opt(offset).unwrap();
    let utc = chrono::DateTime::from_timestamp(secs, 0).unwrap();
    utc.with_timezone(&off).to_rfc3339_opts(chrono::SecondsFormat::Secs, false)
}

/// Relies on chrono's `DateTime::parse_from_rfc3339`; a `FixedOffset` lies
/// strictly within one day of UTC.
#[verifier::external_body]
fn parse_rfc3339(s: &str) -> (r: Option<(i64, i32)>)
    ensures
        r == rfc3339_value(s@),
        r is Some ==> -DAY_SECS < r.unwrap().1 < DAY_SECS,
{
    match chrono::DateTime::parse_from_rfc3339(s) {
        Ok(d) => Some((d.timestamp(), d.offset().local_minus_utc())),
        Err(_) => None,
    }
}

/// Relies on chrono's `DateTime::format("%Y-%m-%d")` at a fixed offset.
#[verifier::external_body]
fn format_ymd(secs: i64, offset: i32) -> (r: String)
    requires
        -STAMP_MAX <= secs <= STAMP_MAX,
        -DAY_SECS < offset < DAY_SECS,
    ensures
        r@ == ymd_text(secs as int, offset as int),
{
    let off = chrono::FixedOffset::east_opt(offset).unwrap();
    let utc = chrono::DateTime::from_timestamp(secs, 0).unwrap();
    utc.with_timezone(&off).format("%Y-%m-%d").to_string()
}

impl Stamp {
    /// Within the supported range.
    pub open spec fn wf(self) -> bool {
        -STAMP_MAX <= self.secs <= STAMP_MAX && -DAY_SECS < self.offset < DAY_SECS
    }

    /// The number of the local calendar day (days since 1970-01-01 in local time).
    pub open spec fn spec_local_day(self) -> int {
        (self.secs + self.offset) / (DAY_SECS as int)
    }

    /// The RFC 3339 text of this timestamp.
    pub open spec fn spec_text(self) -> Seq<char> {
        rfc3339_text(self.secs as int, self.offset as int)
    }

    /// The timestamp that an RFC 3339 text denotes, when it is in range.
    pub open spec fn spec_parse(s: Seq<char>) -> Option<Stamp> {
        match rfc3339_value(s) {
            Some(v) => if -STAMP_MAX <= v.0 <= STAMP_MAX {
                Some(Stamp { secs: v.0, offset: v.1 })
            } else {
                None
            },
            None => None,
        }
    }

    /// Format as RFC 3339 text.
    pub fn to_rfc3339(&self) -> (r: String)
        requires
            self.wf(),
        ensures
            r@ == self.spec_text(),
    {
        format_rfc3339(self.secs, self.offset)
    }

    /// Format the local calendar date as `YYYY-MM-DD`.
    pub fn ymd(&self) -> (r: String)
        requires
            self.wf(),
        ensures
            r@ == ymd_text(self.secs as int, self.offset as int),
    {
        format_ymd(self.secs, self.offset)
    }

    /// Format the local date and time as `YYYY-MM-DD HH:MM:SS`.
    pub fn ymd_hms(&self) -> (r: String)
        requires
            self.wf(),
        ensures
            r@ == ymd_hms_text(self.secs as int, self.offset as int),
    {
        format_ymd_hms(self.secs, self.offset)
    }

    /// Read an RFC 3339 timestamp; out-of-range instants are refused.
    pub fn parse(s: &str) -> (r: Option<Stamp>)
        ensures
            r == Self::spec_parse(s@),
            r is Some ==> r->0.wf(),
    {
        match parse_rfc3339(s) {
            Some(v) => {
                if -STAMP_MAX <= v.0 && v.0 <= STAMP_MAX {
                    Some(Stamp { secs: v.0, offset: v.1 })
                } else {
                    None
                }
            },
            None => None,
        }
    }

    /// Whether `now` falls on another local calendar day than `file_day`
    /// (a day number as `local_day` gives it).
    pub fn has_day_changed(file_day: i64, now: Stamp) -> (r: bool)
        requires
            now.wf(),
        ensures
            r == (now.spec_local_day() != file_day),
    {
        now.local_day() != file_day
    }

    /// The number of the local calendar day.
    pub fn local_day(&self) -> (r: i64)
        requires
            self.wf(),
        ensures
            r == self.spec_local_day(),
    {
        let t: i64 = self.secs + self.offset as i64;
        if t >= 0 {
            t / DAY_SECS
        } else {
            let m: i64 = -t - 1;
            assert((t as int) / 86400 == -((m as int) / 86400) - 1) by (nonlinear_arith)
                requires m == -t - 1, t < 0;
            -(m / DAY_SECS) - 1
        }
    }
}

} // verus!
