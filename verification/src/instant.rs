//! Instants in time, carried as the pair of an RFC 3339 text form and the
//! nanosecond value that text denotes.
//!
//! The text form is what the on-disk document stores and what the user
//! typed (or what the clock produced); the nanosecond value gives the
//! ordering that overdue checks and sorting use. The pair is kept
//! consistent by construction: every `Instant` satisfies [`instant_wf`].

use vstd::prelude::*;

verus! {

/// What `time`'s RFC 3339 parser returns for a given text: the instant as
/// nanoseconds since the Unix epoch, or nothing when the text is malformed.
pub uninterp spec fn rfc3339_instant(s: Seq<char>) -> Option<int>;

/// Relies on `time::OffsetDateTime::parse` with the well-known RFC 3339
/// format, and `unix_timestamp_nanos`: the result depends on the input
/// text alone.
#[verifier::external_body]
fn parse_rfc3339_nanos(s: &str) -> (r: Option<i128>)
    ensures
        match r {
            Some(n) => rfc3339_instant(s@) == Some(n as int),
            None => rfc3339_instant(s@) is None,
        },
{
    match time::OffsetDateTime::parse(s, &time::format_description::well_known::Rfc3339) {
        Ok(d) => Some(d.unix_timestamp_nanos()),
        Err(_) => None,
    }
}

/// Relies on `time::OffsetDateTime::now_utc` and RFC 3339 formatting: the
/// formatter's output for the current instant is text the RFC 3339 parser
/// accepts, as is the fixed epoch text returned if formatting fails.
#[verifier::external_body]
fn clock_now_rfc3339() -> (r: String)
    ensures
        rfc3339_instant(r@) is Some,
{
    time::OffsetDateTime::now_utc().format(
        &time::format_description::well_known::Rfc3339,
    ).unwrap_or_else(|_| "1970-01-01T00:00:00Z".to_string())
}

/// Mathematical model of an [`Instant`].
pub ghost struct InstantV {
    /// The characters of the RFC 3339 text form.
    pub text: Seq<char>,
    /// Nanoseconds since the Unix epoch.
    pub nanos: int,
}

/// The two halves of the model agree: the text denotes exactly the
/// nanosecond value.
pub open spec fn instant_wf(v: InstantV) -> bool {
    rfc3339_instant(v.text) == Some(v.nanos) && i128::MIN <= v.nanos <= i128::MAX
}

/// An instant in time: an RFC 3339 text form plus the nanosecond value it
/// denotes.
#[derive(Debug, PartialEq, Eq)]
pub struct Instant {
    text: String,
    nanos: i128,
}

impl View for Instant {
    type V = InstantV;

    closed spec fn view(&self) -> InstantV {
        InstantV { text: self.text@, nanos: self.nanos as int }
    }
}

impl Clone for Instant {
    fn clone(&self) -> (r: Self)
        ensures
            r@ == self@,
    {
        Instant { text: self.text.clone(), nanos: self.nanos }
    }
}

impl Instant {
    /// The current instant, read from the system clock.
    pub fn now() -> (r: Instant)
        ensures
            instant_wf(r@),
    {
        let text = clock_now_rfc3339();
        match parse_rfc3339_nanos(text.as_str()) {
            Some(n) => Instant { text, nanos: n },
            None => {
                proof {
                    assert(false);
                }
                Instant { text: String::new(), nanos: 0 }
            },
        }
    }

    /// Parse an RFC 3339 text form; the result carries the text verbatim.
    pub fn parse(s: &str) -> (r: Option<Instant>)
        ensures
            match r {
                Some(inst) => instant_wf(inst@) && inst@.text == s@ && rfc3339_instant(s@)
                    == Some(inst@.nanos),
                None => rfc3339_instant(s@) is None,
            },
    {
        match parse_rfc3339_nanos(s) {
            Some(n) => Some(Instant { text: s.to_owned(), nanos: n }),
            None => None,
        }
    }

    /// The stored RFC 3339 text form.
    pub fn text(&self) -> (r: &str)
        ensures
            r@ == self@.text,
    {
        self.text.as_str()
    }

    /// Nanoseconds since the Unix epoch.
    pub fn unix_nanos(&self) -> (r: i128)
        ensures
            r as int == self@.nanos,
    {
        self.nanos
    }

    /// Is this instant strictly before `other`?
    pub fn is_before(&self, other: &Instant) -> (r: bool)
        ensures
            r == (self@.nanos < other@.nanos),
    {
        self.nanos < other.nanos
    }

    /// The later of two instants; used to keep a record's touch time from
    /// moving before its creation time.
    pub fn later_of(&self, other: &Instant) -> (r: Instant)
        ensures
            r@ == if self@.nanos >= other@.nanos {
                self@
            } else {
                other@
            },
    {
        if self.nanos >= other.nanos {
            self.clone()
        } else {
            other.clone()
        }
    }
}

} // verus!
