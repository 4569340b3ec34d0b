//! Instants on the UTC time line, held as seconds and nanoseconds since the
//! Unix epoch, and their RFC 3339 text.
//!
//! The calendar arithmetic is left to `chrono`; this module states what the
//! rest of the library relies on and keeps every `Timestamp` inside the range
//! that `chrono` can represent.

use vstd::prelude::*;

verus! {

/// Unix seconds of the first instant `chrono` represents (the start of the year -262143).
pub const MIN_UNIX_SECS: i64 = -8_334_601_228_800;

/// Unix seconds of the last second `chrono` represents (the end of the year 262142).
pub const MAX_UNIX_SECS: i64 = 8_210_266_876_799;

/// Unix seconds of 0000-01-01T00:00:00Z.
pub const FIRST_FOUR_DIGIT_SECS: i64 = -62_167_219_200;

/// Unix seconds of 9999-12-31T23:59:59Z.
pub const LAST_FOUR_DIGIT_SECS: i64 = 253_402_300_799;

/// Whether `secs` and `nanos` denote an instant: the seconds lie in the
/// supported range, and the nanoseconds stay below one second, or below two
/// in the last second of a minute, where the excess stands for a leap second.
pub open spec fn representable(secs: i64, nanos: u32) -> bool {
    &&& MIN_UNIX_SECS <= secs <= MAX_UNIX_SECS
    &&& (nanos < 1_000_000_000 || (nanos < 2_000_000_000 && (secs as int) % 60 == 59))
}

/// Whether the UTC year of the instant is between 0000 and 9999, the years
/// that RFC 3339 can write.
pub open spec fn four_digit_year(secs: i64) -> bool {
    FIRST_FOUR_DIGIT_SECS <= secs <= LAST_FOUR_DIGIT_SECS
}

/// The characters that occur in the RFC 3339 text of an instant.
pub open spec fn is_rfc3339_char(c: char) -> bool {
    ('0' <= c && c <= '9') || c == '-' || c == '+' || c == ':' || c == '.' || c == 'T'
}

/// The RFC 3339 text that `chrono` writes for the instant `secs`, `nanos` in UTC.
pub uninterp spec fn rfc3339_text(secs: i64, nanos: u32) -> Seq<char>;

/// The instant that `chrono` reads from an RFC 3339 text, as Unix seconds and
/// nanoseconds; `None` where it rejects the text.
pub uninterp spec fn rfc3339_instant(text: Seq<char>) -> Option<(i64, u32)>;

/// Reads the system clock with `chrono::Utc::now` and returns the seconds and
/// nanoseconds of the reading. Which instant comes back is not known; it is
/// one that `chrono` represents.
#[verifier::external_body]
fn clock_reading() -> (r: (i64, u32))
    ensures
        representable(r.0, r.1),
{
    let now = chrono::Utc::now();
    (now.timestamp(), now.timestamp_subsec_nanos())
}

/// Builds the instant with `chrono::DateTime::from_timestamp` and writes it
/// with `chrono::DateTime::to_rfc3339`. The text is made of digits and the
/// signs `-`, `+`, `:`, `.`, `T` only, and for a year of four digits `chrono`
/// reads the same instant back from it.
#[verifier::external_body]
fn rfc3339_of(secs: i64, nanos: u32) -> (s: String)
    requires
        representable(secs, nanos),
    ensures
        s@ == rfc3339_text(secs, nanos),
        forall|i: int| 0 <= i < s@.len() ==> is_rfc3339_char(#[trigger] s@[i]),
        four_digit_year(secs) ==> rfc3339_instant(s@) == Some((secs, nanos)),
{
    match chrono::DateTime::from_timestamp(secs, nanos) {
        Some(instant) => instant.to_rfc3339(),
        None => String::new(),
    }
}

/// Reads an RFC 3339 text with `chrono::DateTime::parse_from_rfc3339`, moves
/// the result to UTC and returns its seconds and nanoseconds, or `None`
/// where `chrono` rejects the text.
#[verifier::external_body]
fn rfc3339_read(text: &str) -> (r: Option<(i64, u32)>)
    ensures
        r == rfc3339_instant(text@),
        r matches Some(p) ==> representable(p.0, p.1),
{
    match chrono::DateTime::parse_from_rfc3339(text) {
        Ok(parsed) => {
            let utc = parsed.with_timezone(&chrono::Utc);
            Some((utc.timestamp(), utc.timestamp_subsec_nanos()))
        },
        Err(_) => None,
    }
}

/// An instant in UTC.
#[derive(Clone, Copy, Debug, PartialEq, Eq, Structural)]
pub struct Timestamp {
    secs: i64,
    nanos: u32,
}

impl Timestamp {
    #[verifier::type_invariant]
    pub closed spec fn in_range(self) -> bool {
        representable(self.secs, self.nanos)
    }

    /// The instant with the given seconds and nanoseconds.
    pub closed spec fn at(secs: i64, nanos: u32) -> Timestamp {
        Timestamp { secs, nanos }
    }

    /// Seconds since the Unix epoch.
    pub closed spec fn unix_secs(self) -> i64 {
        self.secs
    }

    /// Nanoseconds after the last full second.
    pub closed spec fn subsec_nanos(self) -> u32 {
        self.nanos
    }

    /// The text written for this instant.
    pub open spec fn text(self) -> Seq<char> {
        rfc3339_text(self.unix_secs(), self.subsec_nanos())
    }

    /// The instant read from a text, if it holds one.
    pub open spec fn read(text: Seq<char>) -> Option<Timestamp> {
        match rfc3339_instant(text) {
            Some(p) => Some(Timestamp::at(p.0, p.1)),
            None => None,
        }
    }

    /// Whether reading the text of this instant gives the instant back.
    pub open spec fn survives_text(self) -> bool {
        Timestamp::read(self.text()) == Some(self)
    }

    /// Whether the instant can be written to a file and read back: its text
    /// gives the instant back and is made of the characters of RFC 3339.
    pub open spec fn storable(self) -> bool {
        &&& self.survives_text()
        &&& forall|i: int| 0 <= i < self.text().len() ==> is_rfc3339_char(#[trigger] self.text()[i])
    }

    /// An instant is determined by its seconds and nanoseconds.
    pub proof fn lemma_parts(self)
        ensures
            Timestamp::at(self.unix_secs(), self.subsec_nanos()) == self,
    {
    }

    /// The parts of a built instant are those it was built from.
    pub proof fn lemma_at(secs: i64, nanos: u32)
        ensures
            Timestamp::at(secs, nanos).unix_secs() == secs,
            Timestamp::at(secs, nanos).subsec_nanos() == nanos,
    {
    }

    /// The instant with the given seconds and nanoseconds, if there is one.
    pub fn new(secs: i64, nanos: u32) -> (r: Option<Timestamp>)
        ensures
            r is Some <==> representable(secs, nanos),
            r matches Some(t) ==> t == Timestamp::at(secs, nanos),
    {
        if secs < MIN_UNIX_SECS || secs > MAX_UNIX_SECS {
            return None;
        }
        if nanos >= 2_000_000_000 {
            return None;
        }
        if nanos >= 1_000_000_000 {
            let shifted: i64 = secs - MIN_UNIX_SECS;
            if shifted % 60 != 59 {
                return None;
            }
        }
        Some(Timestamp { secs, nanos })
    }

    /// Seconds since the Unix epoch.
    pub fn secs(&self) -> (s: i64)
        ensures
            s == self.unix_secs(),
            representable(s, self.subsec_nanos()),
    {
        proof {
            use_type_invariant(self);
        }
        self.secs
    }

    /// Nanoseconds after the last full second.
    pub fn nanos(&self) -> (n: u32)
        ensures
            n == self.subsec_nanos(),
    {
        self.nanos
    }

    /// The current instant, read from the system clock.
    pub fn now() -> (t: Timestamp)
        ensures
            representable(t.unix_secs(), t.subsec_nanos()),
    {
        let (secs, nanos) = clock_reading();
        Timestamp { secs, nanos }
    }

    /// The RFC 3339 text of the instant, with a `+00:00` offset.
    pub fn to_rfc3339(&self) -> (s: String)
        ensures
            s@ == self.text(),
            forall|i: int| 0 <= i < s@.len() ==> is_rfc3339_char(#[trigger] s@[i]),
            four_digit_year(self.unix_secs()) ==> self.storable(),
    {
        proof {
            use_type_invariant(self);
        }
        rfc3339_of(self.secs, self.nanos)
    }

    /// Reads an RFC 3339 text; `None` where the text is not one.
    pub fn parse_from_rfc3339(text: &str) -> (r: Option<Timestamp>)
        ensures
            r == Timestamp::read(text@),
    {
        match rfc3339_read(text) {
            Some((secs, nanos)) => Some(Timestamp { secs, nanos }),
            None => None,
        }
    }
}

} // verus!
