use vstd::prelude::*;

verus! {

/// A UTC instant: whole seconds since the Unix epoch and the nanoseconds
/// within that second.
#[derive(Clone, Copy, Debug, PartialEq, Eq, Structural)]
pub struct Timestamp {
    pub secs: i64,
    pub nanos: u32,
}

/// `a` lies strictly before `b`.
pub open spec fn ts_before(a: Timestamp, b: Timestamp) -> bool {
    a.secs < b.secs || (a.secs == b.secs && a.nanos < b.nanos)
}

impl Timestamp {
    pub fn new(secs: i64, nanos: u32) -> (r: Timestamp)
        ensures
            r.secs == secs,
            r.nanos == nanos,
    {
        Timestamp { secs, nanos }
    }

    /// Whether `self` lies strictly before `other`.
    pub fn is_before(&self, other: &Timestamp) -> (r: bool)
        ensures
            r == ts_before(*self, *other),
    {
        self.secs < other.secs || (self.secs == other.secs && self.nanos < other.nanos)
    }
}

/// A timestamp string that could not be read as an instant.
#[derive(Clone, Debug)]
pub struct MalformedTimestamp {
    pub input: String,
}

/// The instant that the strict internet date-time parser reads from `s`,
/// converted to UTC, if it accepts `s`.
pub uninterp spec fn rfc3339_instant(s: Seq<char>) -> Option<Timestamp>;

/// Relies on chrono's `DateTime::parse_from_rfc3339`, whose result is then
/// moved to UTC and read as seconds and sub-second nanoseconds.
#[verifier::external_body]
fn parse_rfc3339_strict(s: &str) -> (r: Option<Timestamp>)
    ensures
        r == rfc3339_instant(s@),
{
    match chrono::DateTime::parse_from_rfc3339(s) {
        Ok(dt) => {
            let utc = dt.with_timezone(&chrono::Utc);
            Some(Timestamp { secs: utc.timestamp(), nanos: utc.timestamp_subsec_nanos() })
        },
        Err(_) => None,
    }
}

pub open spec fn is_digit(c: char) -> bool {
    '0' <= c && c <= '9'
}

/// `s` ends in a sign followed by exactly two digits: a zone offset
/// that lacks its minutes.
pub open spec fn ends_with_short_offset(s: Seq<char>) -> bool {
    &&& s.len() >= 3
    &&& (s[s.len() - 3] == '+' || s[s.len() - 3] == '-')
    &&& is_digit(s[s.len() - 2])
    &&& is_digit(s[s.len() - 1])
}

/// The zero-minutes suffix that completes a short offset.
pub open spec fn zero_minutes() -> Seq<char> {
    seq![':', '0', '0']
}

/// The instant a loosely formatted timestamp stands for: the strict reading
/// if there is one, else the strict reading of the string with its short
/// offset completed.
pub open spec fn normalized_instant(s: Seq<char>) -> Option<Timestamp> {
    match rfc3339_instant(s) {
        Some(t) => Some(t),
        None => if ends_with_short_offset(s) {
            rfc3339_instant(s + zero_minutes())
        } else {
            None
        },
    }
}

/// Completes a trailing `+HH` / `-HH` offset with `:00`; `None` when the
/// string does not end that way.
pub fn fix_incomplete_timezone(timestamp_str: &str) -> (r: Option<String>)
    ensures
        ends_with_short_offset(timestamp_str@) ==> (r matches Some(f) && f@ == timestamp_str@
            + zero_minutes()),
        !ends_with_short_offset(timestamp_str@) ==> r is None,
{
    let len = timestamp_str.unicode_len();
    if len < 3 {
        return None;
    }
    let sign = timestamp_str.get_char(len - 3);
    let d1 = timestamp_str.get_char(len - 2);
    let d2 = timestamp_str.get_char(len - 1);
    if (sign == '+' || sign == '-') && ('0' <= d1 && d1 <= '9') && ('0' <= d2 && d2 <= '9') {
        let mut fixed = timestamp_str.to_owned();
        fixed.append(":00");
        proof {
            reveal_strlit(":00");
            assert(":00"@ =~= zero_minutes());
        }
        Some(fixed)
    } else {
        None
    }
}

/// Reads a timestamp string as a UTC instant, tolerating a zone offset
/// written without its minutes (`+01` for `+01:00`).
pub fn parse_rfc3339_timestamp(timestamp_str: &str) -> (r: Result<Timestamp, MalformedTimestamp>)
    ensures
        normalized_instant(timestamp_str@) matches Some(t) ==> r == Ok::<
            Timestamp,
            MalformedTimestamp,
        >(t),
        normalized_instant(timestamp_str@) is None ==> (r matches Err(e) && e.input@
            == timestamp_str@),
{
    if let Some(t) = parse_rfc3339_strict(timestamp_str) {
        return Ok(t);
    }
    if let Some(fixed) = fix_incomplete_timezone(timestamp_str) {
        if let Some(t) = parse_rfc3339_strict(fixed.as_str()) {
            return Ok(t);
        }
    }
    Err(MalformedTimestamp { input: timestamp_str.to_owned() })
}

/// A string that the strict parser already accepts normalizes to exactly the
/// instant it names: no rewrite takes place, so normalizing a canonical form
/// gives back its instant.
pub proof fn lemma_canonical_form_is_kept(s: Seq<char>, t: Timestamp)
    requires
        rfc3339_instant(s) == Some(t),
    ensures
        normalized_instant(s) == Some(t),
{
}

/// A string ending in a sign and two digits, which the strict parser refuses,
/// normalizes to the instant of the same string with `:00` appended.
pub proof fn lemma_short_offset_is_completed(s: Seq<char>)
    requires
        ends_with_short_offset(s),
        rfc3339_instant(s) is None,
    ensures
        normalized_instant(s) == rfc3339_instant(s + zero_minutes()),
{
}

} // verus!
