//! Dates and times of day, and the parser of `HH:MM`.
use vstd::prelude::*;
use crate::errors;
use crate::errors::ErrorView;
use crate::text::{chars_of, parse_unsigned, parse_unsigned_span, split_on, split_on_spans, spans_text};

verus! {

/// A calendar date; a field that is zero was not given.
#[derive(Debug, Clone, Copy)]
pub struct DateSpec {
    pub year: u16,
    pub month: u8,
    pub day: u8,
}

#[derive(Debug, Clone, Copy)]
pub struct TimeSpec {
    pub hour: u8,
    pub minute: u8,
}

#[derive(Debug, Clone, Copy)]
pub struct DateTimeSpec(DateSpec, TimeSpec);

impl View for DateTimeSpec {
    type V = (DateSpec, TimeSpec);

    closed spec fn view(&self) -> (DateSpec, TimeSpec) {
        (self.0, self.1)
    }
}

/// Whether `r` is the `Ok` value `m` holds, or a syntax error where `m` is `None`.
pub open spec fn syntax_result<T>(r: Result<T, errors::Error>, m: Option<T>) -> bool {
    match m {
        Some(v) => r == Ok::<T, errors::Error>(v),
        None => r matches Err(e) && e@ == ErrorView::Syntax,
    }
}

/// The time that `HH:MM` denotes: two pieces between colons, each a number that fits in
/// `u8`, with an hour of at most 23 and a minute of at most 59.
pub open spec fn time_of(s: Seq<char>) -> Option<TimeSpec> {
    let ps = split_on(s, ':');
    if ps.len() == 2 && parse_unsigned(ps[0], 255) is Some && parse_unsigned(ps[1], 255) is Some {
        let h = parse_unsigned(ps[0], 255)->0;
        let m = parse_unsigned(ps[1], 255)->0;
        if h <= 23 && m <= 59 {
            Some(TimeSpec { hour: h as u8, minute: m as u8 })
        } else {
            None
        }
    } else {
        None
    }
}

/// The values of the pieces `ps`, each parsed as a number of at most `max`, if all parse.
pub open spec fn all_parse(ps: Seq<Seq<char>>, max: nat) -> bool {
    forall|i: int| 0 <= i < ps.len() ==> (#[trigger] parse_unsigned(ps[i], max)) is Some
}

/// Parses every span of `v` as a number of at most `max`; `None` as soon as one fails.
pub fn parse_all_spans(v: &Vec<char>, spans: &Vec<(usize, usize)>, max: u32) -> (r: Option<
    Vec<u32>,
>)
    requires
        crate::text::spans_within(spans@, 0, v@.len() as int),
        max <= 65535,
    ensures
        r is Some <==> all_parse(spans_text(v@, spans@), max as nat),
        r matches Some(vals) ==> vals@.len() == spans@.len() && forall|i: int|
            0 <= i < vals@.len() ==> #[trigger] vals@[i] as nat == parse_unsigned(
                spans_text(v@, spans@)[i],
                max as nat,
            )->0,
{
    let ghost ps = spans_text(v@, spans@);
    let mut vals: Vec<u32> = Vec::new();
    let mut i: usize = 0;
    while i < spans.len()
        invariant
            i <= spans@.len(),
            ps == spans_text(v@, spans@),
            ps.len() == spans@.len(),
            crate::text::spans_within(spans@, 0, v@.len() as int),
            max <= 65535,
            vals@.len() == i,
            forall|k: int| 0 <= k < i ==> (#[trigger] parse_unsigned(ps[k], max as nat)) is Some,
            forall|k: int|
                0 <= k < i ==> #[trigger] vals@[k] as nat == parse_unsigned(ps[k], max as nat)->0,
        decreases spans@.len() - i,
    {
        let (a, b) = spans[i];
        assert(ps[i as int] == v@.subrange(a as int, b as int));
        match parse_unsigned_span(v, a, b, max) {
            Some(n) => {
                vals.push(n);
            },
            None => {
                return None;
            },
        }
        i = i + 1;
    }
    Some(vals)
}

pub fn parse_time(input: &str) -> (r: Result<TimeSpec, errors::Error>)
    ensures
        syntax_result(r, time_of(input@)),
{
    let v = chars_of(input);
    let spans = split_on_spans(&v, 0, v.len(), ':');
    assert(v@.subrange(0, v@.len() as int) =~= v@);
    let vals = match parse_all_spans(&v, &spans, 255) {
        Some(vals) => vals,
        None => {
            return Err(errors::Error::Syntax);
        },
    };
    if vals.len() != 2 {
        return Err(errors::Error::Syntax);
    }
    let hour = vals[0];
    let minute = vals[1];
    if hour > 23 || minute > 59 {
        return Err(errors::Error::Syntax);
    }
    Ok(TimeSpec { hour: hour as u8, minute: minute as u8 })
}

impl TimeSpec {
    pub fn new(hour: u8, minute: u8) -> (r: Self)
        ensures
            r.hour == hour,
            r.minute == minute,
    {
        Self { hour, minute }
    }
}

impl DateSpec {
    pub open spec fn spec_zero() -> Self {
        DateSpec { year: 0, month: 0, day: 0 }
    }

    pub fn zero() -> (r: Self)
        ensures
            r == Self::spec_zero(),
    {
        Self { year: 0, month: 0, day: 0 }
    }

    pub fn new(day: u8, month: u8, year: u16) -> (r: Self)
        ensures
            r == (DateSpec { year, month, day }),
    {
        Self { year, month, day }
    }

    pub fn month_and_year_agnostic(day: u8) -> (r: Self)
        ensures
            r == (DateSpec { year: 0, month: 0, day }),
    {
        Self { day, month: 0u8, year: 0u16 }
    }

    pub fn year_agnostic(day: u8, month: u8) -> (r: Self)
        ensures
            r == (DateSpec { year: 0, month, day }),
    {
        Self { day, month, year: 0u16 }
    }
}

impl DateTimeSpec {
    pub fn time(self) -> (r: TimeSpec)
        ensures
            r == self@.1,
    {
        self.1
    }

    pub fn date(self) -> (r: DateSpec)
        ensures
            r == self@.0,
    {
        self.0
    }
}

impl From<(DateSpec, TimeSpec)> for DateTimeSpec {
    fn from(value: (DateSpec, TimeSpec)) -> (r: Self)
        ensures
            r@ == value,
    {
        Self(value.0, value.1)
    }
}

impl vstd::std_specs::convert::FromSpecImpl<(DateSpec, TimeSpec)> for DateTimeSpec {
    open spec fn obeys_from_spec() -> bool {
        true
    }

    closed spec fn from_spec(value: (DateSpec, TimeSpec)) -> Self {
        DateTimeSpec(value.0, value.1)
    }
}

impl From<(TimeSpec, DateSpec)> for DateTimeSpec {
    fn from(value: (TimeSpec, DateSpec)) -> (r: Self)
        ensures
            r@ == (value.1, value.0),
    {
        Self(value.1, value.0)
    }
}

impl vstd::std_specs::convert::FromSpecImpl<(TimeSpec, DateSpec)> for DateTimeSpec {
    open spec fn obeys_from_spec() -> bool {
        true
    }

    closed spec fn from_spec(value: (TimeSpec, DateSpec)) -> Self {
        DateTimeSpec(value.1, value.0)
    }
}


/// A parsed time is a valid time of day.
pub proof fn lemma_time_in_range(s: Seq<char>)
    ensures
        time_of(s) matches Some(t) ==> t.hour <= 23 && t.minute <= 59,
{
}

} // verus!
