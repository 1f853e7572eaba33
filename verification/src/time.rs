//! Points in time and spans of time.

use vstd::prelude::*;

verus! {

/// A point in time: seconds since the start of 1970 in UTC, and the nanoseconds that exceed
/// them. In a leap second the nanoseconds go on past one second.
#[derive(Debug, Clone, Copy, PartialEq, Eq, Structural)]
pub struct Timestamp {
    secs: i64,
    nanos: u32,
}

/// The first second that a timestamp can hold: the start of the year -262143.
pub const MIN_SECS: i64 = -8334601228800;

/// The last second that a timestamp can hold: the end of the year 262142.
pub const MAX_SECS: i64 = 8210266876799;

/// The longest span that can be added to a timestamp, in nanoseconds: `i64::MAX` milliseconds.
pub open spec fn max_span() -> int {
    i64::MAX * 1_000_000
}

/// The text of a point in time in the form of RFC 3339.
pub uninterp spec fn rfc3339_text(secs: i64, nanos: u32) -> Seq<char>;

/// The point in time that a text in the form of RFC 3339 stands for, or what is wrong with it.
pub uninterp spec fn rfc3339_parsed(raw: Seq<char>) -> Result<(i64, u32), Seq<char>>;

/// `raw` stands for the point in time `t`.
pub open spec fn reads_as(raw: Seq<char>, t: Timestamp) -> bool {
    rfc3339_parsed(raw) matches Ok(parts) && parts == (t.secs(), t.nanos())
}

impl Timestamp {
    #[verifier::type_invariant]
    spec fn proper(&self) -> bool {
        &&& MIN_SECS <= self.secs <= MAX_SECS
        &&& self.nanos < 2_000_000_000
        &&& self.nanos >= 1_000_000_000 ==> self.secs as int % 60 == 59
    }

    /// Seconds since the start of 1970.
    pub closed spec fn secs(self) -> i64 {
        self.secs
    }

    /// Nanoseconds past the seconds.
    pub closed spec fn nanos(self) -> u32 {
        self.nanos
    }

    /// Nanoseconds since the start of 1970.
    pub open spec fn unix_nanos(self) -> int {
        self.secs() * 1_000_000_000 + self.nanos()
    }

    /// The point in time lies in one of the years 0 to 9999.
    pub open spec fn has_common_year(self) -> bool {
        -62167219200 <= self.secs() <= 253402300799
    }

    /// The point in time lies before `other`.
    pub open spec fn precedes(self, other: Timestamp) -> bool {
        self.secs() < other.secs() || (self.secs() == other.secs() && self.nanos() < other.nanos())
    }

    /// Adding a span of `length` nanoseconds stays in the leap second that the point lies in.
    pub open spec fn stays_in_leap(self, length: int) -> bool {
        self.nanos() >= 1_000_000_000 && self.nanos() + length < 2_000_000_000
    }

    /// The nanoseconds since the start of 1970, without leap seconds, once a span of `length`
    /// nanoseconds has been added.
    pub open spec fn shifted(self, length: int) -> int {
        self.secs() * 1_000_000_000 + self.nanos() % 1_000_000_000 + length
    }

    /// The point in time once a span of `length` nanoseconds has been added.
    pub closed spec fn later(self, length: int) -> Timestamp {
        if self.stays_in_leap(length) {
            Timestamp { secs: self.secs, nanos: (self.nanos + length) as u32 }
        } else {
            Timestamp {
                secs: (self.shifted(length) / 1_000_000_000) as i64,
                nanos: (self.shifted(length) % 1_000_000_000) as u32,
            }
        }
    }

    /// A span of `length` nanoseconds can be added: it is not too long, and what it leads to is
    /// a point in time.
    pub open spec fn can_add(self, length: int) -> bool {
        &&& 0 <= length <= max_span()
        &&& self.shifted(length) < (MAX_SECS + 1) * 1_000_000_000
    }

    /// The point in time `secs` seconds and `nanos` nanoseconds after the start of 1970, where
    /// there is one.
    pub fn from_unix(secs: i64, nanos: u32) -> (t: Option<Self>)
        ensures
            t is Some <==> MIN_SECS <= secs <= MAX_SECS && (nanos < 1_000_000_000 || (nanos
                < 2_000_000_000 && secs as int % 60 == 59)),
            t matches Some(t) ==> t.secs() == secs && t.nanos() == nanos,
    {
        if secs < MIN_SECS || secs > MAX_SECS || nanos >= 2_000_000_000 {
            return None;
        }
        if nanos >= 1_000_000_000 && secs.checked_rem_euclid(60) != Some(59i64) {
            return None;
        }
        Some(Timestamp { secs, nanos })
    }

    /// Seconds since the start of 1970.
    pub fn unix_secs(&self) -> (secs: i64)
        ensures
            secs == self.secs(),
    {
        self.secs
    }

    /// Nanoseconds past the seconds.
    pub fn subsec_nanos(&self) -> (nanos: u32)
        ensures
            nanos == self.nanos(),
    {
        self.nanos
    }

    /// Nanoseconds since the start of 1970.
    pub fn as_nanos(&self) -> (n: i128)
        ensures
            n as int == self.unix_nanos(),
            -0x4000_0000_0000_0000_0000_0000 <= n <= 0x4000_0000_0000_0000_0000_0000,
    {
        self.secs as i128 * 1_000_000_000 + self.nanos as i128
    }

    /// Whether the point in time lies before `other`.
    pub fn is_before(&self, other: &Timestamp) -> (yes: bool)
        ensures
            yes == self.precedes(*other),
    {
        self.secs < other.secs || (self.secs == other.secs && self.nanos < other.nanos)
    }

    /// Trusted: `chrono::Utc::now` gives the system's time, which is not in a leap second and
    /// not before 1970.
    #[verifier::external_body]
    pub(crate) fn now() -> (t: Self)
        ensures
            t.secs() >= 0,
            t.nanos() < 1_000_000_000,
    {
        let now = chrono::Utc::now();
        Timestamp { secs: now.timestamp(), nanos: now.timestamp_subsec_nanos() }
    }

    /// Trusted: `chrono::DateTime::to_rfc3339` writes a point in time as text. In the years 0 to
    /// 9999 `chrono::DateTime::parse_from_rfc3339` reads the same point in time back.
    #[verifier::external_body]
    pub(crate) fn to_rfc3339(&self) -> (text: String)
        ensures
            text@ == rfc3339_text(self.secs(), self.nanos()),
            self.has_common_year() ==> reads_as(text@, *self),
    {
        chrono::DateTime::from_timestamp(self.secs, self.nanos).unwrap().to_rfc3339()
    }

    /// Trusted: `chrono::DateTime::parse_from_rfc3339` reads a point in time from text, with any
    /// offset from UTC; its error is handed on as text.
    #[verifier::external_body]
    pub(crate) fn parse_rfc3339(raw: &str) -> (t: Result<Timestamp, String>)
        ensures
            match t {
                Ok(t) => reads_as(raw@, t),
                Err(e) => rfc3339_parsed(raw@) matches Err(detail) && detail == e@,
            },
    {
        match chrono::DateTime::parse_from_rfc3339(raw) {
            Ok(t) => Ok(Timestamp { secs: t.timestamp(), nanos: t.timestamp_subsec_nanos() }),
            Err(e) => Err(e.to_string()),
        }
    }

    /// Trusted: `chrono::DateTime + chrono::TimeDelta` moves a point in time on by a span. From
    /// within a leap second a short span stays in it; a longer one leaves it without counting
    /// it.
    #[verifier::external_body]
    pub(crate) fn plus(&self, span: Duration) -> (t: Timestamp)
        requires
            self.can_add(span.length()),
        ensures
            if self.stays_in_leap(span.length()) {
                t.secs() == self.secs() && t.nanos() == self.nanos() + span.length()
            } else {
                t.secs() * 1_000_000_000 + t.nanos() == self.shifted(span.length()) && t.nanos()
                    < 1_000_000_000
            },
    {
        let start = chrono::DateTime::from_timestamp(self.secs, self.nanos).unwrap();
        let end = start + chrono::TimeDelta::new(span.secs as i64, span.nanos).unwrap();
        Timestamp { secs: end.timestamp(), nanos: end.timestamp_subsec_nanos() }
    }
}

/// What the point in time after a span is, in seconds and nanoseconds.
pub proof fn lemma_later(t: Timestamp, length: int)
    requires
        MIN_SECS <= t.secs() <= MAX_SECS,
        t.nanos() < 2_000_000_000,
        t.can_add(length),
    ensures
        t.stays_in_leap(length) ==> t.later(length).secs() == t.secs() && t.later(length).nanos()
            == t.nanos() + length,
        !t.stays_in_leap(length) ==> t.later(length).unix_nanos() == t.shifted(length)
            && t.later(length).nanos() < 1_000_000_000,
{
}

/// Where `t` does not lie in a leap second, a longer span leads to a later point in time.
pub proof fn law_later_grows(t: Timestamp, shorter: int, longer: int)
    requires
        MIN_SECS <= t.secs() <= MAX_SECS,
        t.nanos() < 1_000_000_000,
        shorter < longer,
        0 <= shorter,
        t.can_add(longer),
    ensures
        t.later(shorter).precedes(t.later(longer)),
        shorter == 0 ==> t.later(shorter) == t,
{
    lemma_later(t, shorter);
    lemma_later(t, longer);
    if shorter == 0 {
        lemma_timestamp_by_parts(t.later(shorter), t);
    }
}

/// A point in time is its seconds and nanoseconds.
pub proof fn lemma_timestamp_by_parts(a: Timestamp, b: Timestamp)
    requires
        a.secs() == b.secs(),
        a.nanos() == b.nanos(),
    ensures
        a == b,
{
}

impl Timestamp {
    /// The point in time after a span.
    pub fn after(&self, span: Duration) -> (t: Timestamp)
        requires
            self.can_add(span.length()),
        ensures
            t == self.later(span.length()),
    {
        proof {
            use_type_invariant(self);
            use_type_invariant(&span);
            lemma_later(*self, span.length());
        }
        let t = self.plus(span);
        proof {
            lemma_timestamp_by_parts(t, self.later(span.length()));
        }
        t
    }

    /// Whether a span can be added.
    pub fn accepts(&self, span: Duration) -> (yes: bool)
        ensures
            yes == self.can_add(span.length()),
    {
        proof {
            use_type_invariant(self);
            use_type_invariant(&span);
        }
        let length: u128 = span.as_nanos();
        if length > i64::MAX as u128 * 1_000_000 {
            return false;
        }
        let start: i128 = self.secs as i128 * 1_000_000_000 + (self.nanos % 1_000_000_000) as i128;
        start + (length as i128) < (MAX_SECS as i128 + 1) * 1_000_000_000
    }
}

/// A span of time: whole seconds and the nanoseconds that exceed them.
#[derive(Debug, Clone, Copy, PartialEq, Eq)]
pub struct Duration {
    secs: u64,
    nanos: u32,
}

impl Duration {
    #[verifier::type_invariant]
    spec fn proper(&self) -> bool {
        self.nanos < 1_000_000_000
    }

    /// The length in nanoseconds.
    pub closed spec fn length(self) -> int {
        self.secs * 1_000_000_000 + self.nanos
    }

    /// A span of whole seconds.
    pub fn from_secs(secs: u64) -> (d: Self)
        ensures
            d.length() == secs * 1_000_000_000,
    {
        Duration { secs, nanos: 0 }
    }

    /// The span of `secs` seconds and `nanos` nanoseconds.
    pub fn from_parts(secs: u64, nanos: u32) -> (d: Self)
        requires
            nanos < 1_000_000_000,
        ensures
            d.length() == secs * 1_000_000_000 + nanos,
    {
        Duration { secs, nanos }
    }

    /// The whole seconds.
    pub fn as_secs(&self) -> (secs: u64)
        ensures
            secs as int == self.length() / 1_000_000_000,
    {
        proof {
            use_type_invariant(self);
        }
        self.secs
    }

    /// The nanoseconds that exceed the whole seconds.
    pub fn subsec_nanos(&self) -> (nanos: u32)
        ensures
            nanos as int == self.length() % 1_000_000_000,
            nanos < 1_000_000_000,
    {
        proof {
            use_type_invariant(self);
        }
        self.nanos
    }

    /// Trusted: `chrono::TimeDelta::from_std` takes over a span of at most `i64::MAX`
    /// milliseconds and refuses a longer one.
    #[verifier::external_body]
    pub(crate) fn as_time_delta(&self) -> (span: Option<Duration>)
        ensures
            match span {
                Some(span) => span.length() == self.length() && self.length() <= max_span(),
                None => self.length() > max_span(),
            },
    {
        let given = std::time::Duration::new(self.secs, self.nanos);
        let span = chrono::TimeDelta::from_std(given).ok()?;
        Some(Duration { secs: span.num_seconds() as u64, nanos: span.subsec_nanos() as u32 })
    }

    /// The length in nanoseconds.
    pub fn as_nanos(&self) -> (n: u128)
        ensures
            n as int == self.length(),
            n <= u64::MAX * 1_000_000_000 + 999_999_999,
    {
        proof {
            use_type_invariant(self);
        }
        self.secs as u128 * 1_000_000_000 + self.nanos as u128
    }

    /// The span of `n` nanoseconds.
    pub fn from_nanos(n: u128) -> (d: Self)
        requires
            n <= u64::MAX * 1_000_000_000 + 999_999_999,
        ensures
            d.length() == n,
    {
        let secs: u64 = (n / 1_000_000_000) as u64;
        let nanos: u32 = (n % 1_000_000_000) as u32;
        Duration { secs, nanos }
    }
}

/// A point in time lies before another where fewer seconds have passed, or as many and fewer
/// nanoseconds. Of two points that differ one lies before the other, and not both.
pub proof fn law_order_of_time(a: Timestamp, b: Timestamp)
    ensures
        a.secs() < b.secs() ==> a.precedes(b),
        a.secs() == b.secs() ==> (a.precedes(b) <==> a.nanos() < b.nanos()),
        !(a.precedes(b) && b.precedes(a)),
        a == b || a.precedes(b) || b.precedes(a),
{
    if a.secs() == b.secs() && a.nanos() == b.nanos() {
        lemma_timestamp_by_parts(a, b);
    }
}

/// From a point outside of a leap second, adding a span leads to the point that is later by
/// exactly that span.
pub proof fn law_later_by_the_span(t: Timestamp, length: int)
    requires
        MIN_SECS <= t.secs() <= MAX_SECS,
        t.nanos() < 1_000_000_000,
        0 <= length <= i64::MAX * 1_000_000,
        t.secs() * 1_000_000_000 + t.nanos() + length < (MAX_SECS + 1) * 1_000_000_000,
    ensures
        t.can_add(length),
        t.later(length).nanos() < 1_000_000_000,
        t.later(length).secs() * 1_000_000_000 + t.later(length).nanos() == t.secs() * 1_000_000_000
            + t.nanos() + length,
{
    lemma_later(t, length);
}

} // verus!
